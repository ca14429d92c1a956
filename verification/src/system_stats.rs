//! Collectors: each takes the raw text an external source produced and
//! normalizes it into a typed record, and the aggregator that assembles one
//! snapshot from all of them.
//!
//! Reading the sources (pseudo-files, spawned commands, system calls) is
//! unverified glue outside this crate; every function here is total over
//! whatever bytes came back.

use vstd::prelude::*;
use vstd::string::StrSliceExecFns;
use vstd::string::StringExecFns;
use crate::load_config::Config;
use crate::load_config::SysDisk;
use crate::load_config::SysDocker;
use crate::load_config::SysGpu;
use crate::load_config::SysService;
use crate::load_config::SysVm;
use crate::strutil::lines;
use crate::strutil::lower_seq;
use crate::strutil::parse_u64;
use crate::strutil::spec_lines;
use crate::strutil::spec_parse_u64;
use crate::strutil::spec_split;
use crate::strutil::spec_split_ws;
use crate::strutil::spec_trim;
use crate::strutil::split;
use crate::strutil::split_once;
use crate::strutil::split_whitespace;
use crate::strutil::str_eq;
use crate::strutil::str_eq_ignore_case;
use crate::strutil::trim;
use crate::strutil::views_match;
use crate::utils::spec_parse_bytes;
use crate::utils::str2byte;

verus! {

/// One queried service: its display name, resident memory and states.
pub struct Service {
    pub name: String,
    pub memory: u64,
    pub state: String,
    pub substate: String,
}

/// One running container that was configured and found.
pub struct Docker {
    pub name: String,
    pub state: String,
    pub status: String,
}

/// The memory snapshot, all fields in bytes.
pub struct MemInfo {
    pub total_mem: u64,
    pub free_mem: u64,
    pub active_mem: u64,
    pub buffer: u64,
    pub cache: u64,
    pub available_mem: u64,
    pub total_swap: u64,
    pub free_swap: u64,
}

/// The three load averages, in hundredths (two-decimal display precision).
#[derive(Clone, Copy)]
pub struct LoadAvgInfo {
    pub one: u64,
    pub five: u64,
    pub fifteen: u64,
}

/// The most recent login: user and originating host.
pub struct LoginInfo {
    pub user: String,
    pub host: String,
}

/// One reported filesystem with optional sub-volume accounting.
pub struct DiskInfo {
    pub name: String,
    pub total: u64,
    pub used: u64,
    pub subvol: Vec<(String, u64)>,
}

/// One queried virtual machine.
pub struct VmInfo {
    pub name: String,
    pub state: String,
    pub cpus: u64,
    pub used_mem: u64,
    pub total_mem: u64,
    pub autostart: String,
}

/// One queried GPU: labels, temperature and VRAM figures in bytes.
pub struct GpuInfo {
    pub mem_name: String,
    pub temp_name: String,
    pub temp: u64,
    pub used_vram: u64,
    pub total_vram: u64,
}

/// The display override convention: a configured display name wins unless
/// it is the sentinel "none", in which case the raw name is shown.
pub open spec fn display_or(display: Seq<char>, fallback: Seq<char>) -> Seq<char> {
    if display == "none"@ {
        fallback
    } else {
        display
    }
}

/// Resolves a display override against the raw name.
pub fn resolve_display(display: &String, fallback: &String) -> (r: String)
    ensures
        r@ == display_or(display@, fallback@),
{
    if str_eq(display.as_str(), "none") {
        fallback.clone()
    } else {
        display.clone()
    }
}

/// A memory pseudo-file value: a kibibyte count scaled to bytes, if the
/// word is a number and the byte count fits.
pub open spec fn spec_mem_val(w: Seq<char>) -> Option<u64> {
    match spec_parse_u64(w) {
        Some(v) => if v <= 18014398509481983 {
            Some((v * 1024) as u64)
        } else {
            None
        },
        None => None,
    }
}

/// The byte value of the last well-formed pseudo-file line carrying `key`,
/// or 0 when no line carries it.
pub open spec fn spec_mem_field(ls: Seq<Seq<char>>, key: Seq<char>) -> u64
    decreases ls.len(),
{
    if ls.len() == 0 {
        0
    } else {
        let parts = spec_split_ws(ls.last());
        if parts.len() >= 2 && parts[0] == key && spec_mem_val(parts[1]) is Some {
            spec_mem_val(parts[1])->Some_0
        } else {
            spec_mem_field(ls.drop_last(), key)
        }
    }
}

/// Parses the memory pseudo-file: each line is `KEY: value kB`; the eight
/// keys of interest are taken (scaled to bytes), all other lines ignored.
pub fn get_memory(text: &str) -> (m: MemInfo)
    ensures
        ({
            let ls = spec_lines(text@);
            &&& m.total_mem == spec_mem_field(ls, "MemTotal:"@)
            &&& m.free_mem == spec_mem_field(ls, "MemFree:"@)
            &&& m.available_mem == spec_mem_field(ls, "MemAvailable:"@)
            &&& m.buffer == spec_mem_field(ls, "Buffers:"@)
            &&& m.active_mem == spec_mem_field(ls, "Active:"@)
            &&& m.cache == spec_mem_field(ls, "Cached:"@)
            &&& m.total_swap == spec_mem_field(ls, "SwapTotal:"@)
            &&& m.free_swap == spec_mem_field(ls, "SwapFree:"@)
        }),
{
    let ghost gls = spec_lines(text@);
    let ls = lines(text);
    let mut m = MemInfo {
        total_mem: 0,
        free_mem: 0,
        active_mem: 0,
        buffer: 0,
        cache: 0,
        available_mem: 0,
        total_swap: 0,
        free_swap: 0,
    };
    let mut i: usize = 0;
    while i < ls.len()
        invariant
            views_match(ls@, gls),
            0 <= i <= ls@.len(),
            m.total_mem == spec_mem_field(gls.subrange(0, i as int), "MemTotal:"@),
            m.free_mem == spec_mem_field(gls.subrange(0, i as int), "MemFree:"@),
            m.available_mem == spec_mem_field(gls.subrange(0, i as int), "MemAvailable:"@),
            m.buffer == spec_mem_field(gls.subrange(0, i as int), "Buffers:"@),
            m.active_mem == spec_mem_field(gls.subrange(0, i as int), "Active:"@),
            m.cache == spec_mem_field(gls.subrange(0, i as int), "Cached:"@),
            m.total_swap == spec_mem_field(gls.subrange(0, i as int), "SwapTotal:"@),
            m.free_swap == spec_mem_field(gls.subrange(0, i as int), "SwapFree:"@),
        decreases ls@.len() - i,
    {
        proof {
            reveal_strlit("MemTotal:");
            reveal_strlit("MemFree:");
            reveal_strlit("MemAvailable:");
            reveal_strlit("Buffers:");
            reveal_strlit("Active:");
            reveal_strlit("Cached:");
            reveal_strlit("SwapTotal:");
            reveal_strlit("SwapFree:");
            assert("MemTotal:"@.len() == 9 && "MemTotal:"@[0] == 'M');
            assert("MemFree:"@.len() == 8 && "MemFree:"@[0] == 'M');
            assert("MemAvailable:"@.len() == 13 && "MemAvailable:"@[0] == 'M');
            assert("Buffers:"@.len() == 8 && "Buffers:"@[0] == 'B');
            assert("Active:"@.len() == 7 && "Active:"@[0] == 'A');
            assert("Cached:"@.len() == 7 && "Cached:"@[0] == 'C');
            assert("SwapTotal:"@.len() == 10 && "SwapTotal:"@[0] == 'S');
            assert("SwapFree:"@.len() == 9 && "SwapFree:"@[0] == 'S');
            assert(gls.subrange(0, i as int + 1).drop_last() =~= gls.subrange(0, i as int));
            assert(gls.subrange(0, i as int + 1).last() == gls[i as int]);
        }
        let parts = split_whitespace(ls[i].as_str());
        if parts.len() >= 2 {
            let key = &parts[0];
            match parse_u64(parts[1].as_str()) {
                Some(v) => {
                    if v <= 18014398509481983 {
                        let val = v * 1024;
                        if str_eq(key.as_str(), "MemTotal:") {
                            m.total_mem = val;
                        } else if str_eq(key.as_str(), "MemFree:") {
                            m.free_mem = val;
                        } else if str_eq(key.as_str(), "MemAvailable:") {
                            m.available_mem = val;
                        } else if str_eq(key.as_str(), "Buffers:") {
                            m.buffer = val;
                        } else if str_eq(key.as_str(), "Active:") {
                            m.active_mem = val;
                        } else if str_eq(key.as_str(), "Cached:") {
                            m.cache = val;
                        } else if str_eq(key.as_str(), "SwapTotal:") {
                            m.total_swap = val;
                        } else if str_eq(key.as_str(), "SwapFree:") {
                            m.free_swap = val;
                        }
                    }
                },
                None => {},
            }
        }
        i += 1;
    }
    proof {
        assert(gls.subrange(0, gls.len() as int) =~= gls);
    }
    m
}

/// What the login collector extracts: the user and host fields of the
/// first data record (the line after the header), both empty when the
/// command failed or its output had no such fields.
pub open spec fn spec_last_login(output: Option<Seq<char>>) -> (Seq<char>, Seq<char>) {
    match output {
        None => (Seq::<char>::empty(), Seq::<char>::empty()),
        Some(text) => {
            let ls = spec_lines(text);
            if ls.len() > 1 {
                let parts = spec_split(ls[1], '\t');
                if parts.len() >= 3 {
                    (spec_trim(parts[0]), spec_trim(parts[2]))
                } else {
                    (Seq::<char>::empty(), Seq::<char>::empty())
                }
            } else {
                (Seq::<char>::empty(), Seq::<char>::empty())
            }
        },
    }
}

/// Extracts user and host from the login-history tool's tab-separated
/// output; `None` means the command itself failed.
pub fn get_last_login(output: Option<&String>) -> (r: LoginInfo)
    ensures
        ({
            let spec = spec_last_login(
                match output {
                    Some(t) => Some(t@),
                    None => None,
                },
            );
            r.user@ == spec.0 && r.host@ == spec.1
        }),
{
    match output {
        None => LoginInfo { user: String::new(), host: String::new() },
        Some(text) => {
            let ls = lines(text.as_str());
            if ls.len() > 1 {
                let parts = split(ls[1].as_str(), '\t');
                if parts.len() >= 3 {
                    let user = trim(parts[0].as_str());
                    let host = trim(parts[2].as_str());
                    return LoginInfo { user, host };
                }
            }
            LoginInfo { user: String::new(), host: String::new() }
        },
    }
}

/// The text of an optional command output.
pub open spec fn opt_text(o: Option<String>) -> Option<Seq<char>> {
    match o {
        Some(t) => Some(t@),
        None => None,
    }
}

/// The value of the last `KEY=VALUE` line carrying `key`.
pub open spec fn spec_kv_last(ls: Seq<Seq<char>>, key: Seq<char>) -> Option<Seq<char>>
    decreases ls.len(),
{
    if ls.len() == 0 {
        None
    } else {
        let parts = spec_split(ls.last(), '=');
        if parts.len() == 2 && parts[0] == key {
            Some(parts[1])
        } else {
            spec_kv_last(ls.drop_last(), key)
        }
    }
}

/// The service active-state drawn from a query output: the last
/// `ActiveState=` value; empty when the output has none; "unknown" when the
/// query failed.
pub open spec fn spec_service_state(output: Option<Seq<char>>, key: Seq<char>) -> Seq<char> {
    match output {
        None => "unknown"@,
        Some(t) => match spec_kv_last(spec_lines(t), key) {
            Some(v) => v,
            None => Seq::<char>::empty(),
        },
    }
}

/// The service resident memory drawn from a query output: the last
/// `MemoryCurrent=` value if it parses, else 0; 0 when the query failed.
pub open spec fn spec_service_memory(output: Option<Seq<char>>) -> u64 {
    match output {
        None => 0,
        Some(t) => match spec_kv_last(spec_lines(t), "MemoryCurrent"@) {
            Some(v) => match spec_parse_u64(v) {
                Some(x) => x,
                None => 0,
            },
            None => 0,
        },
    }
}

/// Builds one service record from the query tool's `KEY=VALUE` output;
/// `None` for the output means the query command failed, which yields the
/// documented default record rather than dropping the service.
pub fn get_service(service: &SysService, output: Option<&String>) -> (r: Service)
    ensures
        ({
            let o = match output {
                Some(t) => Some(t@),
                None => None,
            };
            &&& r.name@ == display_or(service.display@, service.name@)
            &&& r.state@ == spec_service_state(o, "ActiveState"@)
            &&& r.substate@ == spec_service_state(o, "SubState"@)
            &&& r.memory == spec_service_memory(o)
        }),
{
    let name = resolve_display(&service.display, &service.name);
    match output {
        None => {
            Service {
                name,
                memory: 0,
                state: String::from_str("unknown"),
                substate: String::from_str("unknown"),
            }
        },
        Some(text) => {
            let ghost gls = spec_lines(text@);
            let ls = lines(text.as_str());
            let mut state = String::new();
            let mut substate = String::new();
            let mut memory: u64 = 0;
            let mut i: usize = 0;
            while i < ls.len()
                invariant
                    views_match(ls@, gls),
                    0 <= i <= ls@.len(),
                    state@ == match spec_kv_last(gls.subrange(0, i as int), "ActiveState"@) {
                        Some(v) => v,
                        None => Seq::<char>::empty(),
                    },
                    substate@ == match spec_kv_last(gls.subrange(0, i as int), "SubState"@) {
                        Some(v) => v,
                        None => Seq::<char>::empty(),
                    },
                    memory == match spec_kv_last(gls.subrange(0, i as int), "MemoryCurrent"@) {
                        Some(v) => match spec_parse_u64(v) {
                            Some(x) => x,
                            None => 0u64,
                        },
                        None => 0u64,
                    },
                decreases ls@.len() - i,
            {
                proof {
                    reveal_strlit("ActiveState");
                    reveal_strlit("SubState");
                    reveal_strlit("MemoryCurrent");
                    assert("ActiveState"@.len() == 11);
                    assert("SubState"@.len() == 8);
                    assert("MemoryCurrent"@.len() == 13);
                    assert(gls.subrange(0, i as int + 1).drop_last() =~= gls.subrange(
                        0,
                        i as int,
                    ));
                    assert(gls.subrange(0, i as int + 1).last() == gls[i as int]);
                }
                let parts = split(ls[i].as_str(), '=');
                if parts.len() == 2 {
                    if str_eq(parts[0].as_str(), "MemoryCurrent") {
                        memory = match parse_u64(parts[1].as_str()) {
                            Some(x) => x,
                            None => 0,
                        };
                    } else if str_eq(parts[0].as_str(), "ActiveState") {
                        state = parts[1].clone();
                    } else if str_eq(parts[0].as_str(), "SubState") {
                        substate = parts[1].clone();
                    }
                }
                i += 1;
            }
            proof {
                assert(gls.subrange(0, gls.len() as int) =~= gls);
            }
            Service { name, memory, state, substate }
        },
    }
}

/// Queries every configured service in configuration order. A failed query
/// never drops the service: its record carries state "unknown", substate
/// "unknown" and memory 0.
pub fn get_service_all(systemctl: &Vec<SysService>, outputs: &Vec<Option<String>>) -> (r: Vec<
    Service,
>)
    requires
        outputs@.len() == systemctl@.len(),
    ensures
        r@.len() == systemctl@.len(),
        forall|i: int|
            0 <= i < r@.len() ==> {
                &&& (#[trigger] r@[i]).name@ == display_or(
                    systemctl@[i].display@,
                    systemctl@[i].name@,
                )
                &&& r@[i].state@ == spec_service_state(opt_text(outputs@[i]), "ActiveState"@)
                &&& r@[i].substate@ == spec_service_state(opt_text(outputs@[i]), "SubState"@)
                &&& r@[i].memory == spec_service_memory(opt_text(outputs@[i]))
            },
        forall|i: int|
            0 <= i < r@.len() && outputs@[i] is None ==> (#[trigger] r@[i]).state@ == "unknown"@
                && r@[i].substate@ == "unknown"@ && r@[i].memory == 0,
{
    let mut services: Vec<Service> = Vec::new();
    let mut i: usize = 0;
    while i < systemctl.len()
        invariant
            outputs@.len() == systemctl@.len(),
            0 <= i <= systemctl@.len(),
            services@.len() == i,
            forall|j: int|
                0 <= j < i ==> {
                    &&& (#[trigger] services@[j]).name@ == display_or(
                        systemctl@[j].display@,
                        systemctl@[j].name@,
                    )
                    &&& services@[j].state@ == spec_service_state(
                        opt_text(outputs@[j]),
                        "ActiveState"@,
                    )
                    &&& services@[j].substate@ == spec_service_state(
                        opt_text(outputs@[j]),
                        "SubState"@,
                    )
                    &&& services@[j].memory == spec_service_memory(opt_text(outputs@[j]))
                },
        decreases systemctl@.len() - i,
    {
        let service_info = get_service(&systemctl[i], outputs[i].as_ref());
        services.push(service_info);
        i += 1;
    }
    services
}

/// The views of a vector of lines.
pub open spec fn seq_views(v: Seq<String>) -> Seq<Seq<char>> {
    v.map_values(|s: String| s@)
}

/// The state and status of the last listing line that names the container:
/// a well-formed line has exactly three colon-separated fields.
pub open spec fn spec_docker_lookup(ls: Seq<Seq<char>>, name: Seq<char>) -> Option<
    (Seq<char>, Seq<char>),
>
    decreases ls.len(),
{
    if ls.len() == 0 {
        None
    } else {
        let parts = spec_split(ls.last(), ':');
        if parts.len() == 3 && parts[0] == name {
            Some((parts[1], parts[2]))
        } else {
            spec_docker_lookup(ls.drop_last(), name)
        }
    }
}

/// The views of the produced container records.
pub open spec fn docker_views(ds: Seq<Docker>) -> Seq<(Seq<char>, Seq<char>, Seq<char>)> {
    ds.map_values(|d: Docker| (d.name@, d.state@, d.status@))
}

/// The configured containers found in the listing, in configuration order:
/// a configured name absent from the listing contributes nothing.
pub open spec fn spec_dockers(cfgs: Seq<SysDocker>, ls: Seq<Seq<char>>) -> Seq<
    (Seq<char>, Seq<char>, Seq<char>),
>
    decreases cfgs.len(),
{
    if cfgs.len() == 0 {
        Seq::empty()
    } else {
        let pre = spec_dockers(cfgs.drop_last(), ls);
        let c = cfgs.last();
        match spec_docker_lookup(ls, c.name@) {
            Some(ss) => pre + seq![(display_or(c.display@, c.name@), ss.0, ss.1)],
            None => pre,
        }
    }
}

/// Law: a configured container that the running listing does not name is
/// absent from the output; configuring it changes nothing.
pub proof fn lemma_docker_absent_dropped(cfgs: Seq<SysDocker>, ls: Seq<Seq<char>>, c: SysDocker)
    requires
        spec_docker_lookup(ls, c.name@) is None,
    ensures
        spec_dockers(cfgs.push(c), ls) == spec_dockers(cfgs, ls),
{
    assert(cfgs.push(c).drop_last() =~= cfgs);
    assert(cfgs.push(c).last() == c);
}

/// Finds the last listing line with three colon-separated fields whose
/// first field is `name`.
fn docker_lookup(ls: &Vec<String>, name: &String) -> (r: Option<(String, String)>)
    ensures
        match (r, spec_docker_lookup(seq_views(ls@), name@)) {
            (Some(p), Some(q)) => p.0@ == q.0 && p.1@ == q.1,
            (None, None) => true,
            _ => false,
        },
{
    let ghost gls = seq_views(ls@);
    proof {
        assert(gls.subrange(0, gls.len() as int) =~= gls);
    }
    let mut j = ls.len();
    while j > 0
        invariant
            gls == seq_views(ls@),
            0 <= j <= ls@.len(),
            spec_docker_lookup(gls, name@) == spec_docker_lookup(
                gls.subrange(0, j as int),
                name@,
            ),
        decreases j,
    {
        j -= 1;
        proof {
            assert(gls.subrange(0, j as int + 1).drop_last() =~= gls.subrange(0, j as int));
            assert(gls.subrange(0, j as int + 1).last() == gls[j as int]);
        }
        let parts = split(ls[j].as_str(), ':');
        if parts.len() == 3 && str_eq(parts[0].as_str(), name.as_str()) {
            return Some((parts[1].clone(), parts[2].clone()));
        }
    }
    proof {
        assert(gls.subrange(0, 0) =~= Seq::<Seq<char>>::empty());
    }
    None
}

/// Selects the configured containers out of the runtime's listing; a
/// failed listing command yields an empty result.
pub fn get_docker(containers: &Vec<SysDocker>, listing: Option<&String>) -> (r: Vec<Docker>)
    ensures
        ({
            let ls = match listing {
                Some(t) => spec_lines(t@),
                None => Seq::<Seq<char>>::empty(),
            };
            docker_views(r@) == spec_dockers(containers@, ls)
        }),
{
    let ghost gls = match listing {
        Some(t) => spec_lines(t@),
        None => Seq::<Seq<char>>::empty(),
    };
    let ls: Vec<String> = match listing {
        Some(t) => lines(t.as_str()),
        None => Vec::new(),
    };
    proof {
        assert(seq_views(ls@) =~= gls);
    }
    let mut dockers: Vec<Docker> = Vec::new();
    let mut i: usize = 0;
    while i < containers.len()
        invariant
            seq_views(ls@) == gls,
            0 <= i <= containers@.len(),
            docker_views(dockers@) == spec_dockers(containers@.subrange(0, i as int), gls),
        decreases containers@.len() - i,
    {
        proof {
            assert(containers@.subrange(0, i as int + 1).drop_last() =~= containers@.subrange(
                0,
                i as int,
            ));
            assert(containers@.subrange(0, i as int + 1).last() == containers@[i as int]);
        }
        let c = &containers[i];
        match docker_lookup(&ls, &c.name) {
            Some(ss) => {
                let d = Docker {
                    name: resolve_display(&c.display, &c.name),
                    state: ss.0,
                    status: ss.1,
                };
                dockers.push(d);
                proof {
                    assert(docker_views(dockers@) =~= spec_dockers(
                        containers@.subrange(0, i as int + 1),
                        gls,
                    ));
                }
            },
            None => {},
        }
        i += 1;
    }
    proof {
        assert(containers@.subrange(0, containers@.len() as int) =~= containers@);
    }
    dockers
}

/// The trimmed value of the last labeled-value line whose trimmed,
/// lower-cased key is `key`.
pub open spec fn spec_vm_field(ls: Seq<Seq<char>>, key: Seq<char>) -> Option<Seq<char>>
    decreases ls.len(),
{
    if ls.len() == 0 {
        None
    } else {
        let kv = crate::strutil::spec_split_once(ls.last(), ':');
        if kv is Some && lower_seq(spec_trim(kv->Some_0.0)) == key {
            Some(spec_trim(kv->Some_0.1))
        } else {
            spec_vm_field(ls.drop_last(), key)
        }
    }
}

/// A textual field of the machine block, defaulting to "Unknown".
pub open spec fn spec_vm_text(ls: Seq<Seq<char>>, key: Seq<char>) -> Seq<char> {
    match spec_vm_field(ls, key) {
        Some(v) => v,
        None => "Unknown"@,
    }
}

/// The CPU count of the machine block: the "cpu(s)" value if it parses.
pub open spec fn spec_vm_cpus(ls: Seq<Seq<char>>) -> u64 {
    match spec_vm_field(ls, "cpu(s)"@) {
        Some(v) => match spec_parse_u64(v) {
            Some(x) => x,
            None => 0,
        },
        None => 0,
    }
}

/// A memory field of the machine block, parsed as a byte quantity.
pub open spec fn spec_vm_mem(ls: Seq<Seq<char>>, key: Seq<char>) -> u64 {
    match spec_vm_field(ls, key) {
        Some(v) => match spec_parse_bytes(v) {
            Some(x) => x,
            None => 0,
        },
        None => 0,
    }
}

/// Finds the last labeled-value line matching `key` (already lower-case)
/// and returns its trimmed value.
fn vm_field(ls: &Vec<String>, key: &str) -> (r: Option<String>)
    requires
        lower_seq(key@) == key@,
    ensures
        match (r, spec_vm_field(seq_views(ls@), key@)) {
            (Some(p), Some(q)) => p@ == q,
            (None, None) => true,
            _ => false,
        },
{
    let ghost gls = seq_views(ls@);
    proof {
        assert(gls.subrange(0, gls.len() as int) =~= gls);
    }
    let mut j = ls.len();
    while j > 0
        invariant
            gls == seq_views(ls@),
            lower_seq(key@) == key@,
            0 <= j <= ls@.len(),
            spec_vm_field(gls, key@) == spec_vm_field(gls.subrange(0, j as int), key@),
        decreases j,
    {
        j -= 1;
        proof {
            assert(gls.subrange(0, j as int + 1).drop_last() =~= gls.subrange(0, j as int));
            assert(gls.subrange(0, j as int + 1).last() == gls[j as int]);
        }
        match split_once(ls[j].as_str(), ':') {
            Some(kv) => {
                let k = trim(kv.0.as_str());
                if str_eq_ignore_case(k.as_str(), key) {
                    return Some(trim(kv.1.as_str()));
                }
            },
            None => {},
        }
    }
    proof {
        assert(gls.subrange(0, 0) =~= Seq::<Seq<char>>::empty());
    }
    None
}

/// Builds one machine record from the management tool's labeled-value
/// block; `None` for the output means the query failed and the machine is
/// dropped.
pub fn get_vm(vm_config: &SysVm, output: Option<&String>) -> (r: Option<VmInfo>)
    ensures
        r is Some <==> output is Some,
        match (r, output) {
            (Some(v), Some(t)) => {
                let ls = spec_lines(t@);
                &&& v.name@ == display_or(vm_config.display@, vm_config.name@)
                &&& v.state@ == spec_vm_text(ls, "state"@)
                &&& v.cpus == spec_vm_cpus(ls)
                &&& v.used_mem == spec_vm_mem(ls, "used memory"@)
                &&& v.total_mem == spec_vm_mem(ls, "max memory"@)
                &&& v.autostart@ == spec_vm_text(ls, "autostart"@)
            },
            (None, None) => true,
            _ => false,
        },
{
    let text = match output {
        None => {
            return None;
        },
        Some(t) => t,
    };
    let ghost gls = spec_lines(text@);
    let ls = lines(text.as_str());
    proof {
        assert(seq_views(ls@) =~= gls);
        reveal_strlit("state");
        reveal_strlit("cpu(s)");
        reveal_strlit("used memory");
        reveal_strlit("max memory");
        reveal_strlit("autostart");
        assert(lower_seq("state"@) =~= "state"@);
        assert(lower_seq("cpu(s)"@) =~= "cpu(s)"@);
        assert(lower_seq("used memory"@) =~= "used memory"@);
        assert(lower_seq("max memory"@) =~= "max memory"@);
        assert(lower_seq("autostart"@) =~= "autostart"@);
    }
    let name = resolve_display(&vm_config.display, &vm_config.name);
    let state = match vm_field(&ls, "state") {
        Some(v) => v,
        None => String::from_str("Unknown"),
    };
    let cpus = match vm_field(&ls, "cpu(s)") {
        Some(v) => match parse_u64(v.as_str()) {
            Some(x) => x,
            None => 0,
        },
        None => 0,
    };
    let used_mem = match vm_field(&ls, "used memory") {
        Some(v) => str2byte(v.as_str()),
        None => 0,
    };
    let total_mem = match vm_field(&ls, "max memory") {
        Some(v) => str2byte(v.as_str()),
        None => 0,
    };
    let autostart = match vm_field(&ls, "autostart") {
        Some(v) => v,
        None => String::from_str("Unknown"),
    };
    Some(VmInfo { name, state, cpus, used_mem, total_mem, autostart })
}

/// The views of the produced machine records.
pub open spec fn vm_views(vs: Seq<VmInfo>) -> Seq<
    (Seq<char>, Seq<char>, u64, u64, u64, Seq<char>),
> {
    vs.map_values(
        |v: VmInfo| (v.name@, v.state@, v.cpus, v.used_mem, v.total_mem, v.autostart@),
    )
}

/// The records of the machines whose query succeeded, in configuration
/// order; a failed machine is dropped from the output.
pub open spec fn spec_vms(cfgs: Seq<SysVm>, outs: Seq<Option<String>>) -> Seq<
    (Seq<char>, Seq<char>, u64, u64, u64, Seq<char>),
>
    decreases cfgs.len(),
{
    if cfgs.len() == 0 {
        Seq::empty()
    } else {
        let pre = spec_vms(cfgs.drop_last(), outs.drop_last());
        let c = cfgs.last();
        match outs.last() {
            None => pre,
            Some(t) => {
                let ls = spec_lines(t@);
                pre + seq![
                    (
                        display_or(c.display@, c.name@),
                        spec_vm_text(ls, "state"@),
                        spec_vm_cpus(ls),
                        spec_vm_mem(ls, "used memory"@),
                        spec_vm_mem(ls, "max memory"@),
                        spec_vm_text(ls, "autostart"@),
                    ),
                ]
            },
        }
    }
}

/// Queries every configured machine; failed queries are dropped, and the
/// output keeps configuration order.
pub fn get_vms(vms_config: &Vec<SysVm>, outputs: &Vec<Option<String>>) -> (r: Vec<VmInfo>)
    requires
        outputs@.len() == vms_config@.len(),
    ensures
        vm_views(r@) == spec_vms(vms_config@, outputs@),
{
    let mut vms: Vec<VmInfo> = Vec::new();
    let mut i: usize = 0;
    while i < vms_config.len()
        invariant
            outputs@.len() == vms_config@.len(),
            0 <= i <= vms_config@.len(),
            vm_views(vms@) == spec_vms(
                vms_config@.subrange(0, i as int),
                outputs@.subrange(0, i as int),
            ),
        decreases vms_config@.len() - i,
    {
        proof {
            assert(vms_config@.subrange(0, i as int + 1).drop_last() =~= vms_config@.subrange(
                0,
                i as int,
            ));
            assert(outputs@.subrange(0, i as int + 1).drop_last() =~= outputs@.subrange(
                0,
                i as int,
            ));
        }
        match get_vm(&vms_config[i], outputs[i].as_ref()) {
            Some(vm_info) => {
                vms.push(vm_info);
                proof {
                    assert(vm_views(vms@) =~= spec_vms(
                        vms_config@.subrange(0, i as int + 1),
                        outputs@.subrange(0, i as int + 1),
                    ));
                }
            },
            None => {},
        }
        i += 1;
    }
    proof {
        assert(vms_config@.subrange(0, vms_config@.len() as int) =~= vms_config@);
        assert(outputs@.subrange(0, outputs@.len() as int) =~= outputs@);
    }
    vms
}

/// Mebibytes to bytes; a count too large to scale yields 0.
pub open spec fn spec_mib_bytes(v: u64) -> u64 {
    if v <= 17592186044415 {
        (v * 1048576) as u64
    } else {
        0
    }
}

/// The view of one GPU record drawn from the query tool's CSV output: the
/// row selected by the configured index (a non-numeric backend name selects
/// row 0) must have exactly three fields — used VRAM and total VRAM in
/// mebibytes, and a temperature; otherwise the zero record is produced.
pub open spec fn spec_gpu_row(cfg: SysGpu, text: Seq<char>) -> (
    Seq<char>,
    Seq<char>,
    u64,
    u64,
    u64,
) {
    let idx = match spec_parse_u64(cfg.command@) {
        Some(v) => v as int,
        None => 0,
    };
    let ls = spec_lines(text);
    if 0 <= idx < ls.len() {
        let parts = spec_split(ls[idx], ',');
        if parts.len() == 3 {
            (
                display_or(cfg.memdisplay@, "VRAM"@),
                display_or(cfg.tempdisplay@, "GPU Core"@),
                match spec_parse_u64(spec_trim(parts[2])) {
                    Some(x) => x,
                    None => 0,
                },
                spec_mib_bytes(
                    match spec_parse_u64(spec_trim(parts[0])) {
                        Some(x) => x,
                        None => 0,
                    },
                ),
                spec_mib_bytes(
                    match spec_parse_u64(spec_trim(parts[1])) {
                        Some(x) => x,
                        None => 0,
                    },
                ),
            )
        } else {
            ("VRAM"@, "GPU Core"@, 0, 0, 0)
        }
    } else {
        ("VRAM"@, "GPU Core"@, 0, 0, 0)
    }
}

/// Builds one GPU record from the vendor tool's CSV output.
pub fn get_nvidia_smi(gpu_config: &SysGpu, output: &String) -> (r: GpuInfo)
    ensures
        ({
            let spec = spec_gpu_row(*gpu_config, output@);
            &&& r.mem_name@ == spec.0
            &&& r.temp_name@ == spec.1
            &&& r.temp == spec.2
            &&& r.used_vram == spec.3
            &&& r.total_vram == spec.4
        }),
{
    let idx: u64 = match parse_u64(gpu_config.command.as_str()) {
        Some(v) => v,
        None => 0,
    };
    let ghost gls = spec_lines(output@);
    let ls = lines(output.as_str());
    if idx < ls.len() as u64 {
        let line = &ls[idx as usize];
        let parts = split(line.as_str(), ',');
        if parts.len() == 3 {
            let vram_label = String::from_str("VRAM");
            let core_label = String::from_str("GPU Core");
            let mem_name = resolve_display(&gpu_config.memdisplay, &vram_label);
            let temp_name = resolve_display(&gpu_config.tempdisplay, &core_label);
            let t0 = trim(parts[0].as_str());
            let t1 = trim(parts[1].as_str());
            let t2 = trim(parts[2].as_str());
            let used_mib = match parse_u64(t0.as_str()) {
                Some(x) => x,
                None => 0,
            };
            let total_mib = match parse_u64(t1.as_str()) {
                Some(x) => x,
                None => 0,
            };
            let temp = match parse_u64(t2.as_str()) {
                Some(x) => x,
                None => 0,
            };
            let used_vram = if used_mib <= 17592186044415 {
                used_mib * 1048576
            } else {
                0
            };
            let total_vram = if total_mib <= 17592186044415 {
                total_mib * 1048576
            } else {
                0
            };
            return GpuInfo { mem_name, temp_name, temp, used_vram, total_vram };
        }
    }
    GpuInfo {
        mem_name: String::from_str("VRAM"),
        temp_name: String::from_str("GPU Core"),
        temp: 0,
        used_vram: 0,
        total_vram: 0,
    }
}

/// The views of the produced GPU records.
pub open spec fn gpu_views(gs: Seq<GpuInfo>) -> Seq<(Seq<char>, Seq<char>, u64, u64, u64)> {
    gs.map_values(|g: GpuInfo| (g.mem_name@, g.temp_name@, g.temp, g.used_vram, g.total_vram))
}

/// The records of the GPUs using the supported vendor backend whose query
/// succeeded, in configuration order.
pub open spec fn spec_gpus(cfgs: Seq<SysGpu>, outs: Seq<Option<String>>) -> Seq<
    (Seq<char>, Seq<char>, u64, u64, u64),
>
    decreases cfgs.len(),
{
    if cfgs.len() == 0 {
        Seq::empty()
    } else {
        let pre = spec_gpus(cfgs.drop_last(), outs.drop_last());
        let c = cfgs.last();
        if c.command@ == "nvidia-smi"@ {
            match outs.last() {
                None => pre,
                Some(t) => pre + seq![spec_gpu_row(c, t@)],
            }
        } else {
            pre
        }
    }
}

/// Queries every configured GPU with the supported vendor backend; others
/// and failed queries are dropped, and the output keeps configuration
/// order.
pub fn get_gpus(gpus_config: &Vec<SysGpu>, outputs: &Vec<Option<String>>) -> (r: Vec<GpuInfo>)
    requires
        outputs@.len() == gpus_config@.len(),
    ensures
        gpu_views(r@) == spec_gpus(gpus_config@, outputs@),
{
    let mut gpus: Vec<GpuInfo> = Vec::new();
    let mut i: usize = 0;
    while i < gpus_config.len()
        invariant
            outputs@.len() == gpus_config@.len(),
            0 <= i <= gpus_config@.len(),
            gpu_views(gpus@) == spec_gpus(
                gpus_config@.subrange(0, i as int),
                outputs@.subrange(0, i as int),
            ),
        decreases gpus_config@.len() - i,
    {
        proof {
            assert(gpus_config@.subrange(0, i as int + 1).drop_last() =~= gpus_config@.subrange(
                0,
                i as int,
            ));
            assert(outputs@.subrange(0, i as int + 1).drop_last() =~= outputs@.subrange(
                0,
                i as int,
            ));
        }
        let gpu = &gpus_config[i];
        if str_eq(gpu.command.as_str(), "nvidia-smi") {
            match outputs[i].as_ref() {
                Some(o) => {
                    let gpu_info = get_nvidia_smi(gpu, o);
                    gpus.push(gpu_info);
                    proof {
                        assert(gpu_views(gpus@) =~= spec_gpus(
                            gpus_config@.subrange(0, i as int + 1),
                            outputs@.subrange(0, i as int + 1),
                        ));
                    }
                },
                None => {},
            }
        }
        i += 1;
    }
    proof {
        assert(gpus_config@.subrange(0, gpus_config@.len() as int) =~= gpus_config@);
        assert(outputs@.subrange(0, outputs@.len() as int) =~= outputs@);
    }
    gpus
}

/// One file of a sensor-chip directory: its name and its contents, or
/// `None` where reading the file failed.
pub struct HwmonFile {
    pub name: String,
    pub content: Option<String>,
}

/// One sensor-chip directory: the contents of its `name` file (`None`
/// where unreadable) and its files in discovery order.
pub struct HwmonChip {
    pub name: Option<String>,
    pub files: Vec<HwmonFile>,
}

/// Whether a file name is a temperature reading (`temp<N>_input`).
pub open spec fn is_temp_input(nm: Seq<char>) -> bool {
    nm.len() >= 6 && nm.len() >= 4 && nm.subrange(0, 4) == "temp"@ && nm.subrange(
        nm.len() - 6,
        nm.len() as int,
    ) == "_input"@
}

/// The label file name paired with a reading file name.
pub open spec fn label_name(nm: Seq<char>) -> Seq<char> {
    nm.subrange(0, nm.len() - 6) + "_label"@
}

/// The label for a reading: the trimmed contents of the first file under
/// the label name, "Unknown" when there is no such file, and `None` (the
/// chip aborts) when the file is there but unreadable.
pub open spec fn spec_label(files: Seq<HwmonFile>, nm: Seq<char>) -> Option<Seq<char>>
    decreases files.len(),
{
    if files.len() == 0 {
        Some("Unknown"@)
    } else if files.first().name@ == nm {
        match files.first().content {
            Some(c) => Some(spec_trim(c@)),
            None => None,
        }
    } else {
        spec_label(files.drop_first(), nm)
    }
}

/// The labelled readings of the first `i` files of a chip, in discovery
/// order; `None` when an unreadable or unparsable file aborted the chip.
pub open spec fn chip_fold(files: Seq<HwmonFile>, i: int) -> Option<Seq<(Seq<char>, u64)>>
    decreases i,
{
    if i <= 0 {
        Some(Seq::empty())
    } else {
        match chip_fold(files, i - 1) {
            None => None,
            Some(pre) => {
                let f = files[i - 1];
                if !is_temp_input(f.name@) {
                    Some(pre)
                } else {
                    match f.content {
                        None => None,
                        Some(c) => match spec_parse_u64(spec_trim(c@)) {
                            None => None,
                            Some(t) => match spec_label(files, label_name(f.name@)) {
                                None => None,
                                Some(lab) => Some(pre + seq![(lab, t)]),
                            },
                        },
                    }
                }
            },
        }
    }
}

/// The readings of the chips whose `name` file matched the selector, in
/// discovery order; a chip that aborted contributes nothing.
pub open spec fn spec_cpu_temps(pattern: Seq<char>, chips: Seq<HwmonChip>) -> Seq<
    (Seq<char>, u64),
>
    decreases chips.len(),
{
    if chips.len() == 0 {
        Seq::empty()
    } else {
        let pre = spec_cpu_temps(pattern, chips.drop_last());
        let c = chips.last();
        match c.name {
            None => pre,
            Some(nm) => if crate::backends::regex_match(pattern, spec_trim(nm@)) {
                match chip_fold(c.files@, c.files@.len() as int) {
                    None => pre,
                    Some(ts) => pre + ts,
                }
            } else {
                pre
            },
        }
    }
}

/// The views of labelled readings.
pub open spec fn pair_views(ps: Seq<(String, u64)>) -> Seq<(Seq<char>, u64)> {
    ps.map_values(|p: (String, u64)| (p.0@, p.1))
}

/// Looks up the label file for a reading file.
fn label_for(files: &Vec<HwmonFile>, nm: &String) -> (r: Option<String>)
    ensures
        match (r, spec_label(files@, nm@)) {
            (Some(l), Some(sl)) => l@ == sl,
            (None, None) => true,
            _ => false,
        },
{
    proof {
        assert(files@.subrange(0, files@.len() as int) =~= files@);
    }
    let mut i: usize = 0;
    while i < files.len()
        invariant
            0 <= i <= files@.len(),
            spec_label(files@, nm@) == spec_label(
                files@.subrange(i as int, files@.len() as int),
                nm@,
            ),
            forall|j: int| 0 <= j < i ==> (#[trigger] files@[j]).name@ != nm@,
        decreases files@.len() - i,
    {
        proof {
            let sub = files@.subrange(i as int, files@.len() as int);
            assert(sub.first() == files@[i as int]);
            assert(sub.drop_first() =~= files@.subrange(i as int + 1, files@.len() as int));
        }
        if str_eq(files[i].name.as_str(), nm.as_str()) {
            match files[i].content.as_ref() {
                Some(c) => {
                    return Some(trim(c.as_str()));
                },
                None => {
                    return None;
                },
            }
        }
        i += 1;
    }
    proof {
        assert(files@.subrange(files@.len() as int, files@.len() as int) =~= Seq::<
            HwmonFile,
        >::empty());
    }
    Some(String::from_str("Unknown"))
}

/// Once a chip aborts, it stays aborted through the rest of its files.
proof fn lemma_chip_fold_none(files: Seq<HwmonFile>, i: int, j: int)
    requires
        0 <= i <= j,
        chip_fold(files, i) is None,
    ensures
        chip_fold(files, j) is None,
    decreases j - i,
{
    if j > i {
        lemma_chip_fold_none(files, i, j - 1);
    }
}

/// Collects the labelled readings of one chip; `None` when a file error
/// aborted the chip.
fn chip_readings(files: &Vec<HwmonFile>) -> (r: Option<Vec<(String, u64)>>)
    ensures
        match (r, chip_fold(files@, files@.len() as int)) {
            (Some(v), Some(s)) => pair_views(v@) == s,
            (None, None) => true,
            _ => false,
        },
{
    let mut out: Vec<(String, u64)> = Vec::new();
    let mut i: usize = 0;
    while i < files.len()
        invariant
            0 <= i <= files@.len(),
            chip_fold(files@, i as int) == Some(pair_views(out@)),
        decreases files@.len() - i,
    {
        let f = &files[i];
        let fname = f.name.as_str();
        if crate::strutil::has_prefix(fname, "temp") && crate::strutil::has_suffix(
            fname,
            "_input",
        ) {
            proof {
                reveal_strlit("temp");
                reveal_strlit("_input");
                assert("temp"@.len() == 4 && "_input"@.len() == 6);
                assert(is_temp_input(f.name@));
            }
            let content = match f.content.as_ref() {
                Some(c) => c,
                None => {
                    proof {
                        lemma_chip_fold_none(files@, i as int + 1, files@.len() as int);
                    }
                    return None;
                },
            };
            let tstr = trim(content.as_str());
            let t = match parse_u64(tstr.as_str()) {
                Some(t) => t,
                None => {
                    proof {
                        lemma_chip_fold_none(files@, i as int + 1, files@.len() as int);
                    }
                    return None;
                },
            };
            let n = fname.unicode_len();
            let mut lname = crate::strutil::substr(fname, 0, n - 6);
            lname.append("_label");
            proof {
                reveal_strlit("_label");
                assert(lname@ =~= label_name(f.name@));
            }
            match label_for(files, &lname) {
                Some(lab) => {
                    out.push((lab, t));
                    proof {
                        assert(pair_views(out@) =~= chip_fold(
                            files@,
                            i as int + 1,
                        )->Some_0);
                    }
                },
                None => {
                    proof {
                        lemma_chip_fold_none(files@, i as int + 1, files@.len() as int);
                    }
                    return None;
                },
            }
        } else {
            proof {
                reveal_strlit("temp");
                reveal_strlit("_input");
                assert("temp"@.len() == 4 && "_input"@.len() == 6);
                assert(!is_temp_input(f.name@));
            }
        }
        i += 1;
    }
    Some(out)
}

/// Reads the temperature sensors: the selector pattern picks which chips
/// (by the trimmed contents of their `name` file) are read; `None` means
/// the selector is not a valid regular expression, which is a fatal
/// configuration error.
pub fn get_cpu_temp(cpu_restr: &str, chips: &Vec<HwmonChip>) -> (r: Option<Vec<(String, u64)>>)
    ensures
        r is Some <==> crate::backends::regex_valid(cpu_restr@),
        match r {
            Some(v) => pair_views(v@) == spec_cpu_temps(cpu_restr@, chips@),
            None => true,
        },
{
    let re = match crate::backends::CompiledRegex::compile(cpu_restr) {
        Some(re) => re,
        None => {
            return None;
        },
    };
    let mut temperatures: Vec<(String, u64)> = Vec::new();
    let mut i: usize = 0;
    while i < chips.len()
        invariant
            re.pattern() == cpu_restr@,
            0 <= i <= chips@.len(),
            pair_views(temperatures@) == spec_cpu_temps(
                cpu_restr@,
                chips@.subrange(0, i as int),
            ),
        decreases chips@.len() - i,
    {
        proof {
            assert(chips@.subrange(0, i as int + 1).drop_last() =~= chips@.subrange(
                0,
                i as int,
            ));
            assert(chips@.subrange(0, i as int + 1).last() == chips@[i as int]);
        }
        let chip = &chips[i];
        match chip.name.as_ref() {
            Some(nm) => {
                let trimmed = trim(nm.as_str());
                if re.is_match(trimmed.as_str()) {
                    match chip_readings(&chip.files) {
                        Some(mut ts) => {
                            let mut j: usize = 0;
                            let ghost base = temperatures@;
                            let ghost added = ts@;
                            while j < ts.len()
                                invariant
                                    0 <= j <= ts@.len(),
                                    ts@ == added,
                                    temperatures@ == base + added.subrange(0, j as int),
                                decreases ts@.len() - j,
                            {
                                let pair = (ts[j].0.clone(), ts[j].1);
                                temperatures.push(pair);
                                proof {
                                    assert(base + added.subrange(0, j as int + 1)
                                        =~= temperatures@);
                                }
                                j += 1;
                            }
                            proof {
                                assert(added.subrange(0, added.len() as int) =~= added);
                                assert(pair_views(base + added) =~= pair_views(base)
                                    + pair_views(added));
                                assert(pair_views(temperatures@) =~= spec_cpu_temps(
                                    cpu_restr@,
                                    chips@.subrange(0, i as int + 1),
                                ));
                            }
                        },
                        None => {},
                    }
                }
            },
            None => {},
        }
        i += 1;
    }
    proof {
        assert(chips@.subrange(0, chips@.len() as int) =~= chips@);
    }
    Some(temperatures)
}

/// Filesystem statistics, as the statistics system call reports them.
#[derive(Clone, Copy)]
pub struct DiskStat {
    pub blocks: u64,
    pub bfree: u64,
    pub frsize: u64,
}

/// The referenced bytes recorded for a path by the last matching lookup
/// entry (a rebuilt lookup keeps the later of duplicate entries).
pub open spec fn spec_subvol_find(lookup: Seq<(Seq<char>, u64)>, nm: Seq<char>) -> Option<u64>
    decreases lookup.len(),
{
    if lookup.len() == 0 {
        None
    } else if lookup.last().0 == nm {
        Some(lookup.last().1)
    } else {
        spec_subvol_find(lookup.drop_last(), nm)
    }
}

/// The configured sub-volume names found in the lookup, each with its
/// referenced bytes, in configured order; absent names are omitted.
pub open spec fn spec_select_subvols(names: Seq<String>, lookup: Seq<(Seq<char>, u64)>) -> Seq<
    (Seq<char>, u64),
>
    decreases names.len(),
{
    if names.len() == 0 {
        Seq::empty()
    } else {
        let pre = spec_select_subvols(names.drop_last(), lookup);
        match spec_subvol_find(lookup, names.last()@) {
            Some(v) => pre + seq![(names.last()@, v)],
            None => pre,
        }
    }
}

/// Law: a configured sub-volume name that the accounting lookup does not
/// carry is silently omitted; configuring it changes nothing.
pub proof fn lemma_subvol_absent_omitted(
    names: Seq<String>,
    lookup: Seq<(Seq<char>, u64)>,
    nm: String,
)
    requires
        spec_subvol_find(lookup, nm@) is None,
    ensures
        spec_select_subvols(names.push(nm), lookup) == spec_select_subvols(names, lookup),
{
    assert(names.push(nm).drop_last() =~= names);
    assert(names.push(nm).last() == nm);
}

/// Finds the referenced bytes for one sub-volume name.
fn subvol_find(lookup: &Vec<(String, u64)>, nm: &String) -> (r: Option<u64>)
    ensures
        r == spec_subvol_find(pair_views(lookup@), nm@),
{
    let ghost gl = pair_views(lookup@);
    proof {
        assert(gl.subrange(0, gl.len() as int) =~= gl);
    }
    let mut j = lookup.len();
    while j > 0
        invariant
            gl == pair_views(lookup@),
            0 <= j <= lookup@.len(),
            spec_subvol_find(gl, nm@) == spec_subvol_find(gl.subrange(0, j as int), nm@),
        decreases j,
    {
        j -= 1;
        proof {
            assert(gl.subrange(0, j as int + 1).drop_last() =~= gl.subrange(0, j as int));
            assert(gl.subrange(0, j as int + 1).last() == gl[j as int]);
        }
        if str_eq(lookup[j].0.as_str(), nm.as_str()) {
            return Some(lookup[j].1);
        }
    }
    proof {
        assert(gl.subrange(0, 0) =~= Seq::<(Seq<char>, u64)>::empty());
    }
    None
}

/// Selects the configured sub-volume names out of an accounting lookup,
/// keeping configured order and omitting absent names.
pub fn select_subvols(names: &Vec<String>, lookup: &Vec<(String, u64)>) -> (r: Vec<(String, u64)>)
    ensures
        pair_views(r@) == spec_select_subvols(names@, pair_views(lookup@)),
{
    let mut out: Vec<(String, u64)> = Vec::new();
    let mut i: usize = 0;
    while i < names.len()
        invariant
            0 <= i <= names@.len(),
            pair_views(out@) == spec_select_subvols(
                names@.subrange(0, i as int),
                pair_views(lookup@),
            ),
        decreases names@.len() - i,
    {
        proof {
            assert(names@.subrange(0, i as int + 1).drop_last() =~= names@.subrange(0, i as int));
            assert(names@.subrange(0, i as int + 1).last() == names@[i as int]);
        }
        match subvol_find(lookup, &names[i]) {
            Some(v) => {
                out.push((names[i].clone(), v));
                proof {
                    assert(pair_views(out@) =~= spec_select_subvols(
                        names@.subrange(0, i as int + 1),
                        pair_views(lookup@),
                    ));
                }
            },
            None => {},
        }
        i += 1;
    }
    proof {
        assert(names@.subrange(0, names@.len() as int) =~= names@);
    }
    out
}

/// The lookup distilled from the raw accounting entries: each entry that
/// carries both a path and a referenced count contributes a pair, in
/// entry order; entries missing either field are skipped silently.
pub open spec fn spec_qgroup_pairs(es: Seq<(Option<Seq<char>>, Option<u64>)>) -> Seq<
    (Seq<char>, u64),
>
    decreases es.len(),
{
    if es.len() == 0 {
        Seq::empty()
    } else {
        let pre = spec_qgroup_pairs(es.drop_last());
        match (es.last().0, es.last().1) {
            (Some(p), Some(v)) => pre + seq![(p, v)],
            _ => pre,
        }
    }
}

/// Reads the sub-volume accounting out of the backend's JSON output: the
/// entries of its "qgroup-show" array that carry both a "path" string and
/// a "referenced" count, in entry order; entries missing either field are
/// skipped silently, and malformed output yields an empty lookup.
pub fn qgroup_lookup(text: &str) -> (r: Vec<(String, u64)>)
    ensures
        pair_views(r@) == spec_qgroup_pairs(crate::backends::qgroup_entries_of(text@)),
{
    let raw = crate::backends::qgroup_raw_entries(text);
    let ghost es = crate::backends::opt_entry_views(raw@);
    let mut out: Vec<(String, u64)> = Vec::new();
    let mut i: usize = 0;
    while i < raw.len()
        invariant
            es == crate::backends::opt_entry_views(raw@),
            0 <= i <= raw@.len(),
            pair_views(out@) == spec_qgroup_pairs(es.subrange(0, i as int)),
        decreases raw@.len() - i,
    {
        proof {
            assert(es.subrange(0, i as int + 1).drop_last() =~= es.subrange(0, i as int));
            assert(es.subrange(0, i as int + 1).last() == es[i as int]);
        }
        let entry = &raw[i];
        match entry.0.as_ref() {
            Some(p) => match entry.1 {
                Some(v) => {
                    out.push((p.clone(), v));
                    proof {
                        assert(pair_views(out@) =~= spec_qgroup_pairs(
                            es.subrange(0, i as int + 1),
                        ));
                    }
                },
                None => {},
            },
            None => {},
        }
        i += 1;
    }
    proof {
        assert(es.subrange(0, es.len() as int) =~= es);
    }
    out
}

/// Whether the statistics of a disk can be reported: the call succeeded
/// and the byte totals fit.
pub open spec fn spec_disk_ok(st: Option<DiskStat>) -> bool {
    st is Some && (st->Some_0.blocks as nat) * (st->Some_0.frsize as nat) <= u64::MAX as nat
}

/// The used block count: free blocks never exceed total blocks on a sane
/// report, and a report where they would is clamped to zero used.
pub open spec fn spec_used_blocks(st: DiskStat) -> nat {
    if st.bfree <= st.blocks {
        (st.blocks - st.bfree) as nat
    } else {
        0
    }
}

/// The accounting lookup a disk's sub-volumes are drawn from: the
/// backend's output parsed into path/referenced pairs, consulted only
/// when sub-volume names are configured and the accounting command
/// succeeded; empty otherwise.
pub open spec fn spec_disk_lookup(names: Seq<String>, qt: Option<String>) -> Seq<
    (Seq<char>, u64),
> {
    if names.len() > 0 && qt is Some {
        spec_qgroup_pairs(crate::backends::qgroup_entries_of(qt->Some_0@))
    } else {
        Seq::empty()
    }
}

/// Law: a configured sub-volume name that the backend's accounting output
/// does not carry as a path is silently omitted from what a disk reports;
/// configuring it changes nothing.
pub proof fn lemma_subvol_absent_from_output(names: Seq<String>, qt: Option<String>, nm: String)
    requires
        qt matches Some(t) ==> spec_subvol_find(
            spec_qgroup_pairs(crate::backends::qgroup_entries_of(t@)),
            nm@,
        ) is None,
    ensures
        spec_select_subvols(names.push(nm), spec_disk_lookup(names.push(nm), qt))
            == spec_select_subvols(names, spec_disk_lookup(names, qt)),
{
    if names.len() > 0 {
        assert(spec_disk_lookup(names.push(nm), qt) == spec_disk_lookup(names, qt));
        lemma_subvol_absent_omitted(names, spec_disk_lookup(names, qt), nm);
    } else {
        let lk = spec_disk_lookup(names.push(nm), qt);
        assert(names.push(nm).drop_last() =~= names);
        assert(names.push(nm).last() == nm);
        if qt is Some {
            assert(spec_subvol_find(lk, nm@) is None);
        } else {
            assert(lk =~= Seq::<(Seq<char>, u64)>::empty());
            assert(spec_subvol_find(lk, nm@) is None);
        }
        assert(spec_select_subvols(names, lk) =~= Seq::<(Seq<char>, u64)>::empty());
        assert(spec_select_subvols(names.push(nm), lk) =~= Seq::<(Seq<char>, u64)>::empty());
        assert(spec_select_subvols(names, spec_disk_lookup(names, qt)) =~= Seq::<
            (Seq<char>, u64),
        >::empty());
    }
}

/// One disk record against its statistics and its accounting output:
/// exact name and byte figures, and exactly the configured sub-volume
/// names found in that output, in configured order.
pub open spec fn disk_matches(cfg: SysDisk, st: DiskStat, qt: Option<String>, d: DiskInfo) -> bool {
    &&& d.name@ == display_or(cfg.display@, cfg.path@)
    &&& d.total == (st.blocks as nat) * (st.frsize as nat)
    &&& d.used == spec_used_blocks(st) * (st.frsize as nat)
    &&& pair_views(d.subvol@) == spec_select_subvols(
        cfg.subvol@,
        spec_disk_lookup(cfg.subvol@, qt),
    )
}

/// Builds one disk record: the byte totals from the statistics call, the
/// sub-volumes from the accounting lookup. `None` when the call failed or
/// the figures do not fit, in which case the disk is dropped.
pub fn get_disk_usage(
    disk_config: &SysDisk,
    stat: Option<&DiskStat>,
    qgroup: &Vec<(String, u64)>,
) -> (r: Option<DiskInfo>)
    ensures
        r is Some <==> spec_disk_ok(
            match stat {
                Some(st) => Some(*st),
                None => None,
            },
        ),
        match (r, stat) {
            (Some(d), Some(st)) => {
                &&& d.name@ == display_or(disk_config.display@, disk_config.path@)
                &&& d.total == (st.blocks as nat) * (st.frsize as nat)
                &&& d.used == spec_used_blocks(*st) * (st.frsize as nat)
                &&& pair_views(d.subvol@) == spec_select_subvols(
                    disk_config.subvol@,
                    pair_views(qgroup@),
                )
            },
            (None, _) => true,
            _ => false,
        },
{
    let st = match stat {
        Some(st) => st,
        None => {
            return None;
        },
    };
    if st.frsize != 0 && st.blocks > u64::MAX / st.frsize {
        proof {
            vstd::arithmetic::div_mod::lemma_fundamental_div_mod(u64::MAX as int, st.frsize as int);
            assert((st.blocks as int) * (st.frsize as int) > u64::MAX) by (nonlinear_arith)
                requires
                    st.blocks as int >= (u64::MAX as int) / (st.frsize as int) + 1,
                    st.frsize as int >= 1,
                    (u64::MAX as int) / (st.frsize as int) * (st.frsize as int) + st.frsize as int
                        > u64::MAX,
            ;
        }
        return None;
    }
    proof {
        if st.frsize != 0 {
            vstd::arithmetic::div_mod::lemma_fundamental_div_mod(u64::MAX as int, st.frsize as int);
            assert((st.blocks as int) * (st.frsize as int) <= u64::MAX) by (nonlinear_arith)
                requires
                    st.frsize as int >= 1,
                    st.blocks as int <= (u64::MAX as int) / (st.frsize as int),
                    (u64::MAX as int) / (st.frsize as int) * (st.frsize as int) + st.frsize as int
                        - 1 >= u64::MAX,
            ;
        }
    }
    let total = st.blocks * st.frsize;
    let used_blocks = if st.bfree <= st.blocks {
        st.blocks - st.bfree
    } else {
        0
    };
    proof {
        assert((used_blocks as int) * (st.frsize as int) <= (st.blocks as int) * (
        st.frsize as int)) by (nonlinear_arith)
            requires
                0 <= used_blocks as int <= st.blocks as int,
                st.frsize as int >= 0,
        ;
    }
    let used = used_blocks * st.frsize;
    let name = resolve_display(&disk_config.display, &disk_config.path);
    let subvol = select_subvols(&disk_config.subvol, qgroup);
    Some(DiskInfo { name, total, used, subvol })
}

/// The output of the disk collector against its inputs: the reportable
/// disks in configured order, each matching its statistics.
pub open spec fn disks_shape(
    cfgs: Seq<SysDisk>,
    stats: Seq<Option<DiskStat>>,
    qts: Seq<Option<String>>,
    out: Seq<DiskInfo>,
) -> bool
    decreases cfgs.len(),
{
    if cfgs.len() == 0 {
        out.len() == 0
    } else if spec_disk_ok(stats.last()) {
        out.len() > 0 && disk_matches(cfgs.last(), stats.last()->Some_0, qts.last(), out.last())
            && disks_shape(cfgs.drop_last(), stats.drop_last(), qts.drop_last(), out.drop_last())
    } else {
        disks_shape(cfgs.drop_last(), stats.drop_last(), qts.drop_last(), out)
    }
}

/// Reports every configured disk whose statistics call succeeded, in
/// configured order; failing disks are dropped. Sub-volume accounting is
/// consulted only for disks that configure sub-volume names; a failed
/// accounting command leaves that disk's sub-volume list empty.
pub fn get_disks(
    disks_config: &Vec<SysDisk>,
    stats: &Vec<Option<DiskStat>>,
    qgroups: &Vec<Option<String>>,
) -> (r: Vec<DiskInfo>)
    requires
        stats@.len() == disks_config@.len(),
        qgroups@.len() == disks_config@.len(),
    ensures
        disks_shape(disks_config@, stats@, qgroups@, r@),
{
    let mut disks: Vec<DiskInfo> = Vec::new();
    let mut i: usize = 0;
    while i < disks_config.len()
        invariant
            stats@.len() == disks_config@.len(),
            qgroups@.len() == disks_config@.len(),
            0 <= i <= disks_config@.len(),
            disks_shape(
                disks_config@.subrange(0, i as int),
                stats@.subrange(0, i as int),
                qgroups@.subrange(0, i as int),
                disks@,
            ),
        decreases disks_config@.len() - i,
    {
        proof {
            assert(disks_config@.subrange(0, i as int + 1).drop_last() =~= disks_config@.subrange(
                0,
                i as int,
            ));
            assert(stats@.subrange(0, i as int + 1).drop_last() =~= stats@.subrange(0, i as int));
            assert(qgroups@.subrange(0, i as int + 1).drop_last() =~= qgroups@.subrange(
                0,
                i as int,
            ));
            assert(qgroups@.subrange(0, i as int + 1).last() == qgroups@[i as int]);
        }
        let cfg = &disks_config[i];
        let lookup: Vec<(String, u64)> = if cfg.subvol.len() > 0 {
            match qgroups[i].as_ref() {
                Some(t) => qgroup_lookup(t.as_str()),
                None => Vec::new(),
            }
        } else {
            Vec::new()
        };
        proof {
            if cfg.subvol@.len() > 0 && qgroups@[i as int] is Some {
                assert(pair_views(lookup@) == spec_disk_lookup(cfg.subvol@, qgroups@[i as int]));
            } else {
                assert(lookup@ =~= Seq::<(String, u64)>::empty());
                assert(pair_views(lookup@) =~= Seq::<(Seq<char>, u64)>::empty());
            }
        }
        let ghost before = disks@;
        match get_disk_usage(cfg, stats[i].as_ref(), &lookup) {
            Some(d) => {
                proof {
                    assert(stats@[i as int] is Some);
                    assert(pair_views(d.subvol@) == spec_select_subvols(
                        cfg.subvol@,
                        pair_views(lookup@),
                    ));
                    assert(disk_matches(
                        disks_config@[i as int],
                        stats@[i as int]->Some_0,
                        qgroups@[i as int],
                        d,
                    ));
                }
                disks.push(d);
                proof {
                    assert(disks@.last() == d);
                    assert(disks@.drop_last() =~= before);
                    assert(stats@.subrange(0, i as int + 1).last() == stats@[i as int]);
                    assert(disks_config@.subrange(0, i as int + 1).last() == disks_config@[
                        i as int]);
                }
            },
            None => {
                proof {
                    assert(!spec_disk_ok(stats@[i as int]));
                    assert(stats@.subrange(0, i as int + 1).last() == stats@[i as int]);
                }
            },
        }
        i += 1;
    }
    proof {
        assert(disks_config@.subrange(0, disks_config@.len() as int) =~= disks_config@);
        assert(stats@.subrange(0, stats@.len() as int) =~= stats@);
        assert(qgroups@.subrange(0, qgroups@.len() as int) =~= qgroups@);
    }
    disks
}

/// Everything the unverified edge reads from the machine for one pass:
/// pseudo-file contents, command outputs (`None` where a command failed),
/// system-call results and the sensor directory tree. One entry per
/// configured item, in configuration order.
pub struct RawInputs {
    pub meminfo: Option<String>,
    pub load_avg: Option<LoadAvgInfo>,
    pub uptime: u64,
    pub last_login: Option<String>,
    pub services: Vec<Option<String>>,
    pub docker: Option<String>,
    pub hwmon: Vec<HwmonChip>,
    pub disk_stats: Vec<Option<DiskStat>>,
    pub qgroups: Vec<Option<String>>,
    pub vms: Vec<Option<String>>,
    pub gpus: Vec<Option<String>>,
}

/// The failures that end the run: the report is meaningless without
/// memory and load figures, and a bad temperature selector is a broken
/// configuration.
#[derive(Debug)]
pub enum FatalError {
    MemoryUnavailable,
    LoadUnavailable,
    InvalidCpuTempRegex,
}

/// The complete snapshot of one collection pass.
pub struct SystemStats {
    pub memory: MemInfo,
    pub load_avg: LoadAvgInfo,
    pub cpu_temp: Vec<(String, u64)>,
    pub uptime: u64,
    pub last_login: LoginInfo,
    pub disks: Vec<DiskInfo>,
    pub services: Vec<Service>,
    pub dockers: Vec<Docker>,
    pub vms: Vec<VmInfo>,
    pub gpus: Vec<GpuInfo>,
}

impl SystemStats {
    /// Assembles one snapshot from the raw inputs, invoking each collector
    /// once. An unreadable memory pseudo-file, a missing load average or an
    /// invalid temperature selector is fatal; every other failure degrades
    /// to the collector's documented default. The temperature selector
    /// sentinel "none" disables that collector.
    pub fn new(config: &Config, inputs: &RawInputs) -> (r: Result<SystemStats, FatalError>)
        requires
            inputs.services@.len() == config.systemctl@.len(),
            inputs.disk_stats@.len() == config.disk@.len(),
            inputs.qgroups@.len() == config.disk@.len(),
            inputs.vms@.len() == config.vm@.len(),
            inputs.gpus@.len() == config.gpu@.len(),
        ensures
            r matches Err(FatalError::MemoryUnavailable) <==> inputs.meminfo is None,
            r matches Err(FatalError::LoadUnavailable) <==> inputs.meminfo is Some
                && inputs.load_avg is None,
            r matches Err(FatalError::InvalidCpuTempRegex) <==> inputs.meminfo is Some
                && inputs.load_avg is Some && config.cputemp@ != "none"@
                && !crate::backends::regex_valid(config.cputemp@),
            match r {
                Ok(st) => {
                    let mls = spec_lines(inputs.meminfo->Some_0@);
                    &&& st.memory.total_mem == spec_mem_field(mls, "MemTotal:"@)
                    &&& st.memory.free_mem == spec_mem_field(mls, "MemFree:"@)
                    &&& st.memory.available_mem == spec_mem_field(mls, "MemAvailable:"@)
                    &&& st.memory.buffer == spec_mem_field(mls, "Buffers:"@)
                    &&& st.memory.active_mem == spec_mem_field(mls, "Active:"@)
                    &&& st.memory.cache == spec_mem_field(mls, "Cached:"@)
                    &&& st.memory.total_swap == spec_mem_field(mls, "SwapTotal:"@)
                    &&& st.memory.free_swap == spec_mem_field(mls, "SwapFree:"@)
                    &&& st.load_avg == inputs.load_avg->Some_0
                    &&& st.uptime == inputs.uptime
                    &&& st.last_login.user@ == spec_last_login(opt_text(inputs.last_login)).0
                    &&& st.last_login.host@ == spec_last_login(opt_text(inputs.last_login)).1
                    &&& st.services@.len() == config.systemctl@.len()
                    &&& (forall|i: int|
                        0 <= i < st.services@.len() ==> {
                            &&& (#[trigger] st.services@[i]).name@ == display_or(
                                config.systemctl@[i].display@,
                                config.systemctl@[i].name@,
                            )
                            &&& st.services@[i].state@ == spec_service_state(
                                opt_text(inputs.services@[i]),
                                "ActiveState"@,
                            )
                            &&& st.services@[i].substate@ == spec_service_state(
                                opt_text(inputs.services@[i]),
                                "SubState"@,
                            )
                            &&& st.services@[i].memory == spec_service_memory(
                                opt_text(inputs.services@[i]),
                            )
                        })
                    &&& docker_views(st.dockers@) == spec_dockers(
                        config.docker@,
                        match inputs.docker {
                            Some(t) => spec_lines(t@),
                            None => Seq::<Seq<char>>::empty(),
                        },
                    )
                    &&& (config.cputemp@ == "none"@ ==> st.cpu_temp@.len() == 0)
                    &&& (config.cputemp@ != "none"@ ==> pair_views(st.cpu_temp@)
                        == spec_cpu_temps(config.cputemp@, inputs.hwmon@))
                    &&& disks_shape(config.disk@, inputs.disk_stats@, inputs.qgroups@, st.disks@)
                    &&& vm_views(st.vms@) == spec_vms(config.vm@, inputs.vms@)
                    &&& gpu_views(st.gpus@) == spec_gpus(config.gpu@, inputs.gpus@)
                },
                Err(_) => true,
            },
    {
        let meminfo_text = match inputs.meminfo.as_ref() {
            Some(t) => t,
            None => {
                return Err(FatalError::MemoryUnavailable);
            },
        };
        let memory = get_memory(meminfo_text.as_str());
        let load_avg = match inputs.load_avg.as_ref() {
            Some(l) => *l,
            None => {
                return Err(FatalError::LoadUnavailable);
            },
        };
        let uptime = inputs.uptime;
        let last_login = get_last_login(inputs.last_login.as_ref());
        let services = get_service_all(&config.systemctl, &inputs.services);
        let dockers = get_docker(&config.docker, inputs.docker.as_ref());
        let cpu_temp: Vec<(String, u64)> = if str_eq(config.cputemp.as_str(), "none") {
            Vec::new()
        } else {
            match get_cpu_temp(config.cputemp.as_str(), &inputs.hwmon) {
                Some(ts) => ts,
                None => {
                    return Err(FatalError::InvalidCpuTempRegex);
                },
            }
        };
        let disks = get_disks(&config.disk, &inputs.disk_stats, &inputs.qgroups);
        let vms = get_vms(&config.vm, &inputs.vms);
        let gpus = get_gpus(&config.gpu, &inputs.gpus);
        Ok(
            SystemStats {
                memory,
                load_avg,
                cpu_temp,
                uptime,
                last_login,
                disks,
                services,
                dockers,
                vms,
                gpus,
            },
        )
    }
}

} // verus!


