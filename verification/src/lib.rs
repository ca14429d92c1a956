pub mod backends;
pub mod load_config;
pub mod plain_text;
pub mod strutil;
pub mod system_stats;
pub mod utils;
