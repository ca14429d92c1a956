use sysmotd::load_config::Config;
use sysmotd::load_config::LoadConfig;
use sysmotd::load_config::SysDisk;
use sysmotd::load_config::SysDocker;
use sysmotd::load_config::SysGpu;
use sysmotd::load_config::SysService;
use sysmotd::load_config::SysVm;
use sysmotd::load_config::default_none;
use sysmotd::load_config::default_true;
use sysmotd::plain_text::to_bold;
use sysmotd::system_stats::DiskStat;
use sysmotd::system_stats::FatalError;
use sysmotd::system_stats::HwmonChip;
use sysmotd::system_stats::HwmonFile;
use sysmotd::system_stats::LoadAvgInfo;
use sysmotd::system_stats::RawInputs;
use sysmotd::system_stats::SystemStats;
use sysmotd::system_stats::get_cpu_temp;
use sysmotd::system_stats::get_disk_usage;
use sysmotd::system_stats::get_disks;
use sysmotd::system_stats::get_docker;
use sysmotd::system_stats::get_gpus;
use sysmotd::system_stats::get_last_login;
use sysmotd::system_stats::get_memory;
use sysmotd::system_stats::get_nvidia_smi;
use sysmotd::system_stats::get_service;
use sysmotd::system_stats::get_service_all;
use sysmotd::system_stats::get_vm;
use sysmotd::system_stats::get_vms;
use sysmotd::system_stats::qgroup_lookup;

fn empty_config() -> Config {
    Config {
        memory: default_true(),
        uptime: default_true(),
        cpuload: default_true(),
        lastlogin: default_true(),
        cputemp: default_none(),
        disk: vec![],
        systemctl: vec![],
        docker: vec![],
        vm: vec![],
        gpu: vec![],
    }
}

#[test]
fn bold_wraps_ansi() {
    assert_eq!(to_bold("hi"), "\x1b[1mhi\x1b[0m");
}

#[test]
fn config_round_trip() {
    let lc = LoadConfig::new(empty_config());
    assert!(lc.get_config().memory);
    assert_eq!(lc.get_config().cputemp, "none");
}

#[test]
fn memory_minimal_input() {
    let m = get_memory("MemTotal: 100 kB\nMemFree: 50 kB");
    assert_eq!(m.total_mem, 102400);
    assert_eq!(m.free_mem, 51200);
    assert_eq!(m.available_mem, 0);
    assert_eq!(m.active_mem, 0);
    assert_eq!(m.buffer, 0);
    assert_eq!(m.cache, 0);
    assert_eq!(m.total_swap, 0);
    assert_eq!(m.free_swap, 0);
}

#[test]
fn memory_ignores_other_keys() {
    let m = get_memory("MemTotal: 8 kB\nDirty: 4 kB\nSwapFree: 2 kB\njunk line\n");
    assert_eq!(m.total_mem, 8192);
    assert_eq!(m.free_swap, 2048);
    assert_eq!(m.cache, 0);
}

#[test]
fn service_parses_query_output() {
    let cfg = SysService { name: "sshd".to_string(), display: "none".to_string() };
    let out = "MemoryCurrent=1024\nActiveState=active\nSubState=running\n".to_string();
    let s = get_service(&cfg, Some(&out));
    assert_eq!(s.name, "sshd");
    assert_eq!(s.memory, 1024);
    assert_eq!(s.state, "active");
    assert_eq!(s.substate, "running");
}

#[test]
fn service_display_override() {
    let cfg = SysService { name: "sshd".to_string(), display: "SSH".to_string() };
    let s = get_service(&cfg, None);
    assert_eq!(s.name, "SSH");
}

#[test]
fn failed_service_query_yields_unknown_record() {
    // A configured service whose query fails must still appear, with
    // state "unknown", substate "unknown" and memory 0.
    let cfgs = vec![
        SysService { name: "good".to_string(), display: "none".to_string() },
        SysService { name: "bad".to_string(), display: "none".to_string() },
    ];
    let outputs = vec![Some("ActiveState=active\nSubState=running\n".to_string()), None];
    let all = get_service_all(&cfgs, &outputs);
    assert_eq!(all.len(), 2);
    assert_eq!(all[1].name, "bad");
    assert_eq!(all[1].state, "unknown");
    assert_eq!(all[1].substate, "unknown");
    assert_eq!(all[1].memory, 0);
}

#[test]
fn docker_selects_configured_running() {
    let cfgs = vec![
        SysDocker { name: "web".to_string(), display: "none".to_string() },
        SysDocker { name: "ghost".to_string(), display: "none".to_string() },
        SysDocker { name: "db".to_string(), display: "DB".to_string() },
    ];
    let listing = "web:running:Up 2 hours\ndb:running:Up 3 days\n".to_string();
    let ds = get_docker(&cfgs, Some(&listing));
    // "ghost" is not in the running listing: absent from the output.
    assert_eq!(ds.len(), 2);
    assert_eq!(ds[0].name, "web");
    assert_eq!(ds[0].state, "running");
    assert_eq!(ds[0].status, "Up 2 hours");
    assert_eq!(ds[1].name, "DB");
}

#[test]
fn docker_failed_listing_is_empty() {
    let cfgs = vec![SysDocker { name: "web".to_string(), display: "none".to_string() }];
    let ds = get_docker(&cfgs, None);
    assert!(ds.is_empty());
}

#[test]
fn last_login_takes_second_line_fields() {
    let out = "user     tty      host\nroot \t pts/0 \t 192.168.1.9 \t Mon\n".to_string();
    let l = get_last_login(Some(&out));
    assert_eq!(l.user, "root");
    assert_eq!(l.host, "192.168.1.9");
}

#[test]
fn last_login_defaults_empty() {
    let l = get_last_login(None);
    assert_eq!(l.user, "");
    assert_eq!(l.host, "");
    let short = "only a header\n".to_string();
    let l2 = get_last_login(Some(&short));
    assert_eq!(l2.user, "");
}

#[test]
fn vm_parses_labeled_block() {
    let cfg = SysVm { name: "guest".to_string(), display: "none".to_string() };
    let out = "Id: 1\nName: guest\nState: running\nCPU(s): 4\nUsed memory: 1048576 KiB\n\
               Max memory: 2097152 KiB\nAutostart: enable\n"
        .to_string();
    let v = get_vm(&cfg, Some(&out)).unwrap();
    assert_eq!(v.name, "guest");
    assert_eq!(v.state, "running");
    assert_eq!(v.cpus, 4);
    assert_eq!(v.used_mem, 1048576 * 1024);
    assert_eq!(v.total_mem, 2097152 * 1024);
    assert_eq!(v.autostart, "enable");
}

#[test]
fn vm_missing_fields_default() {
    let cfg = SysVm { name: "g".to_string(), display: "none".to_string() };
    let v = get_vm(&cfg, Some(&"Id: 7\n".to_string())).unwrap();
    assert_eq!(v.state, "Unknown");
    assert_eq!(v.cpus, 0);
    assert_eq!(v.used_mem, 0);
    assert_eq!(v.autostart, "Unknown");
}

#[test]
fn failed_vm_is_dropped() {
    let cfgs = vec![
        SysVm { name: "a".to_string(), display: "none".to_string() },
        SysVm { name: "b".to_string(), display: "none".to_string() },
    ];
    let outputs = vec![None, Some("State: running\n".to_string())];
    let vs = get_vms(&cfgs, &outputs);
    assert_eq!(vs.len(), 1);
    assert_eq!(vs[0].name, "b");
}

#[test]
fn gpu_reads_csv_row() {
    let cfg = SysGpu {
        command: "nvidia-smi".to_string(),
        memdisplay: "none".to_string(),
        tempdisplay: "none".to_string(),
    };
    let out = "123, 456, 67\n".to_string();
    let g = get_nvidia_smi(&cfg, &out);
    assert_eq!(g.mem_name, "VRAM");
    assert_eq!(g.temp_name, "GPU Core");
    assert_eq!(g.used_vram, 123 * 1024 * 1024);
    assert_eq!(g.total_vram, 456 * 1024 * 1024);
    assert_eq!(g.temp, 67);
}

#[test]
fn gpu_malformed_row_yields_zero_record() {
    let cfg = SysGpu {
        command: "nvidia-smi".to_string(),
        memdisplay: "Video".to_string(),
        tempdisplay: "none".to_string(),
    };
    let g = get_nvidia_smi(&cfg, &"not,a\n".to_string());
    assert_eq!(g.mem_name, "VRAM");
    assert_eq!(g.used_vram, 0);
}

#[test]
fn unsupported_gpu_backend_is_dropped() {
    let cfgs = vec![
        SysGpu {
            command: "other-tool".to_string(),
            memdisplay: "none".to_string(),
            tempdisplay: "none".to_string(),
        },
        SysGpu {
            command: "nvidia-smi".to_string(),
            memdisplay: "none".to_string(),
            tempdisplay: "none".to_string(),
        },
    ];
    let outputs = vec![None, Some("1, 2, 3\n".to_string())];
    let gs = get_gpus(&cfgs, &outputs);
    assert_eq!(gs.len(), 1);
    assert_eq!(gs[0].temp, 3);
}

#[test]
fn cpu_temp_matches_chips_by_regex() {
    let chips = vec![
        HwmonChip {
            name: Some("coretemp\n".to_string()),
            files: vec![
                HwmonFile { name: "temp1_input".to_string(), content: Some("45000\n".to_string()) },
                HwmonFile { name: "temp1_label".to_string(), content: Some("Core 0\n".to_string()) },
                HwmonFile { name: "temp2_input".to_string(), content: Some("47000".to_string()) },
                HwmonFile { name: "uevent".to_string(), content: None },
            ],
        },
        HwmonChip {
            name: Some("acpitz".to_string()),
            files: vec![
                HwmonFile { name: "temp1_input".to_string(), content: Some("31000".to_string()) },
            ],
        },
    ];
    let ts = get_cpu_temp("core.*", &chips).unwrap();
    assert_eq!(ts.len(), 2);
    assert_eq!(ts[0], ("Core 0".to_string(), 45000));
    assert_eq!(ts[1], ("Unknown".to_string(), 47000));
}

#[test]
fn cpu_temp_chip_error_aborts_only_that_chip() {
    let chips = vec![
        HwmonChip {
            name: Some("cpu0".to_string()),
            files: vec![
                HwmonFile { name: "temp1_input".to_string(), content: Some("oops".to_string()) },
            ],
        },
        HwmonChip {
            name: Some("cpu1".to_string()),
            files: vec![
                HwmonFile { name: "temp1_input".to_string(), content: Some("22000".to_string()) },
            ],
        },
    ];
    let ts = get_cpu_temp("cpu.*", &chips).unwrap();
    assert_eq!(ts.len(), 1);
    assert_eq!(ts[0].1, 22000);
}

#[test]
fn cpu_temp_invalid_regex_is_fatal() {
    assert!(get_cpu_temp("(", &vec![]).is_none());
}

#[test]
fn qgroup_lookup_reads_backend_json() {
    let json = r#"{"qgroup-show": [
        {"path": "data", "referenced": 4096},
        {"path": "snaps"},
        {"referenced": 1},
        {"path": "logs", "referenced": 8192}
    ]}"#;
    let lk = qgroup_lookup(json);
    assert_eq!(lk, vec![("data".to_string(), 4096), ("logs".to_string(), 8192)]);
    assert!(qgroup_lookup("not json").is_empty());
    assert!(qgroup_lookup("{}").is_empty());
}

#[test]
fn disk_reports_even_when_subvols_missing() {
    // Sub-volume names absent from the accounting output are omitted
    // while the disk's own figures are still reported.
    let cfg = SysDisk {
        path: "/tank".to_string(),
        display: "none".to_string(),
        subvol: vec!["data".to_string(), "missing".to_string()],
    };
    let stat = DiskStat { blocks: 1000, bfree: 250, frsize: 4096 };
    let lookup = vec![("data".to_string(), 4096u64)];
    let d = get_disk_usage(&cfg, Some(&stat), &lookup).unwrap();
    assert_eq!(d.name, "/tank");
    assert_eq!(d.total, 4096000);
    assert_eq!(d.used, 750 * 4096);
    assert_eq!(d.subvol, vec![("data".to_string(), 4096)]);
}

#[test]
fn disk_subvols_follow_backend_output() {
    // End to end through the JSON accounting text: configured names found
    // in the backend output are emitted with its figures, in configured
    // order; a disk whose accounting command failed keeps an empty list.
    let cfgs = vec![
        SysDisk {
            path: "/tank".to_string(),
            display: "none".to_string(),
            subvol: vec!["logs".to_string(), "data".to_string(), "missing".to_string()],
        },
        SysDisk {
            path: "/pool".to_string(),
            display: "none".to_string(),
            subvol: vec!["data".to_string()],
        },
    ];
    let stats = vec![
        Some(DiskStat { blocks: 1000, bfree: 250, frsize: 4096 }),
        Some(DiskStat { blocks: 10, bfree: 5, frsize: 512 }),
    ];
    let json = r#"{"qgroup-show": [
        {"path": "data", "referenced": 4096},
        {"path": "logs", "referenced": 8192}
    ]}"#;
    let qgroups = vec![Some(json.to_string()), None];
    let ds = get_disks(&cfgs, &stats, &qgroups);
    assert_eq!(ds.len(), 2);
    assert_eq!(
        ds[0].subvol,
        vec![("logs".to_string(), 8192), ("data".to_string(), 4096)]
    );
    assert_eq!(ds[0].total, 4096000);
    assert!(ds[1].subvol.is_empty());
    assert_eq!(ds[1].total, 5120);
}

#[test]
fn disks_keep_configuration_order() {
    let cfgs = vec![
        SysDisk { path: "/a".to_string(), display: "none".to_string(), subvol: vec![] },
        SysDisk { path: "/b".to_string(), display: "none".to_string(), subvol: vec![] },
        SysDisk { path: "/c".to_string(), display: "none".to_string(), subvol: vec![] },
    ];
    let stats = vec![
        Some(DiskStat { blocks: 10, bfree: 5, frsize: 512 }),
        None,
        Some(DiskStat { blocks: 20, bfree: 1, frsize: 512 }),
    ];
    let qgroups = vec![None, None, None];
    let ds = get_disks(&cfgs, &stats, &qgroups);
    assert_eq!(ds.len(), 2);
    assert_eq!(ds[0].name, "/a");
    assert_eq!(ds[1].name, "/c");
}

fn minimal_inputs() -> RawInputs {
    RawInputs {
        meminfo: Some("MemTotal: 100 kB\nMemFree: 50 kB\n".to_string()),
        load_avg: Some(LoadAvgInfo { one: 42, five: 36, fifteen: 30 }),
        uptime: 90061,
        last_login: None,
        services: vec![],
        docker: None,
        hwmon: vec![],
        disk_stats: vec![],
        qgroups: vec![],
        vms: vec![],
        gpus: vec![],
    }
}

#[test]
fn snapshot_assembles() {
    let st = SystemStats::new(&empty_config(), &minimal_inputs()).unwrap();
    assert_eq!(st.memory.total_mem, 102400);
    assert_eq!(st.load_avg.one, 42);
    assert_eq!(st.uptime, 90061);
    assert!(st.disks.is_empty());
    assert!(st.cpu_temp.is_empty());
}

#[test]
fn missing_meminfo_is_fatal() {
    let mut inputs = minimal_inputs();
    inputs.meminfo = None;
    let r = SystemStats::new(&empty_config(), &inputs);
    assert!(matches!(r, Err(FatalError::MemoryUnavailable)));
}

#[test]
fn missing_load_is_fatal() {
    let mut inputs = minimal_inputs();
    inputs.load_avg = None;
    let r = SystemStats::new(&empty_config(), &inputs);
    assert!(matches!(r, Err(FatalError::LoadUnavailable)));
}

#[test]
fn invalid_selector_regex_is_fatal() {
    let mut config = empty_config();
    config.cputemp = "(".to_string();
    let r = SystemStats::new(&config, &minimal_inputs());
    assert!(matches!(r, Err(FatalError::InvalidCpuTempRegex)));
}

#[test]
fn memory_duplicate_key_last_wins() {
    let m = get_memory("MemTotal: 1 kB\nMemTotal: 2 kB\n");
    assert_eq!(m.total_mem, 2048);
}

#[test]
fn service_duplicate_key_last_wins() {
    let cfg = SysService { name: "x".to_string(), display: "none".to_string() };
    let out = "ActiveState=active\nActiveState=failed\n".to_string();
    let s = get_service(&cfg, Some(&out));
    assert_eq!(s.state, "failed");
}

#[test]
fn docker_duplicate_name_last_wins() {
    let cfgs = vec![SysDocker { name: "web".to_string(), display: "none".to_string() }];
    let listing = "web:starting:Up 1 second\nweb:running:Up 2 hours\n".to_string();
    let ds = get_docker(&cfgs, Some(&listing));
    assert_eq!(ds.len(), 1);
    assert_eq!(ds[0].state, "running");
}
