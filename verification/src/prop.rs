use vstd::prelude::*;
use vstd::string::StringExecFns;
use vstd::string::StringSliceAdditionalSpecFns;

use crate::types::{ModuleConfig, ModuleConfigView};
use crate::utils::{
    ascii_bytes, decimal_text, law_decimal_text_reads_back,
    duration_input_fits, duration_outcome, on_off_value, parse_duration_to_seconds, parse_on_off_to_bool,
    parse_unsigned, parse_unsigned_prefix, DEFAULT_IDLE_TIMEOUT,
};

verus! {

/// The ports that the locations of one configuration reserve, each at most once.
pub struct PortRegistry {
    ports: Vec<u16>,
}

impl View for PortRegistry {
    type V = Set<u16>;

    closed spec fn view(&self) -> Set<u16> {
        Set::new(|p: u16| self.ports@.contains(p))
    }
}

impl PortRegistry {
    /// A registry with no port reserved.
    pub fn new() -> (r: PortRegistry)
        ensures
            r@ == Set::<u16>::empty(),
    {
        let r = PortRegistry { ports: Vec::new() };
        assert(r@ =~= Set::<u16>::empty());
        r
    }

    /// Whether `port` is reserved.
    pub fn contains(&self, port: u16) -> (r: bool)
        ensures
            r == self@.contains(port),
    {
        let mut i: usize = 0;
        while i < self.ports.len()
            invariant
                i <= self.ports@.len(),
                forall|j: int| 0 <= j < i ==> self.ports@[j] != port,
            decreases self.ports.len() - i,
        {
            if self.ports[i] == port {
                assert(self.ports@.contains(port));
                return true;
            }
            i = i + 1;
        }
        false
    }

    /// Reserves `port`; a port that is reserved already is refused, and the
    /// registry stays as it was.
    pub fn reserve(&mut self, port: u16) -> (r: Result<(), &'static str>)
        ensures
            old(self)@.contains(port) ==> final(self)@ == old(self)@ && (r matches Err(e)
                && e@ == "Port already in use"@),
            !old(self)@.contains(port) ==> r is Ok && final(self)@ == old(self)@.insert(port),
    {
        if self.contains(port) {
            return Err("Port already in use");
        }
        let ghost before = self.ports@;
        self.ports.push(port);
        assert(self@ =~= old(self)@.insert(port)) by {
            assert forall|p: u16| self.ports@.contains(p) <==> before.contains(p) || p == port by {
                if before.contains(p) {
                    let j: int = choose|j: int| 0 <= j < before.len() && before[j] == p;
                    assert(self.ports@[j] == p);
                }
                if p == port {
                    assert(self.ports@[before.len() as int] == p);
                }
                if self.ports@.contains(p) && p != port {
                    let j: int = choose|j: int| 0 <= j < self.ports@.len() && self.ports@[j] == p;
                    assert(before[j] == p);
                }
            }
        }
        Ok(())
    }
}

/// The idle timeout that `summon_app_idle_timeout <text>` sets: 0, which runs
/// the application indefinitely, for a bare zero such as `0`; otherwise the
/// duration the text names, or the default when it names none.
pub open spec fn idle_timeout_setting(b: Seq<u8>) -> u64 {
    if parse_unsigned(b, u64::MAX as nat) == Some(0nat) {
        0
    } else {
        match duration_outcome(b) {
            Ok(v) => v as u64,
            Err(_) => DEFAULT_IDLE_TIMEOUT,
        }
    }
}

/// The instance count that `summon_app_min_instance <text>` sets: the number,
/// or 1 when the text is not one.
pub open spec fn min_instance_setting(b: Seq<u8>) -> u64 {
    match parse_unsigned(b, u64::MAX as nat) {
        Some(v) => v as u64,
        None => 1,
    }
}

/// The port that `summon_app_use_port <text>` sets: the port number, or 0 when
/// the text is not one.
pub open spec fn use_port_setting(b: Seq<u8>) -> u16 {
    match parse_unsigned(b, u16::MAX as nat) {
        Some(v) => v as u16,
        None => 0,
    }
}

/// The switch that `summon_app_show_crash <text>` sets: `on`, or else off.
pub open spec fn show_crash_setting(s: Seq<char>) -> bool {
    match on_off_value(s) {
        Some(b) => b,
        None => false,
    }
}

/// `summon_app_command <cmd>`: the command that starts the application.
pub fn ngx_http_summon_app_set_command(conf: &mut ModuleConfig, val: &str)
    ensures
        final(conf)@ == (ModuleConfigView { command: val@, ..old(conf)@ }),
{
    conf.command = String::from_str(val);
}

/// `summon_app_root <path>`: the directory the application runs in.
pub fn ngx_http_summon_app_set_root(conf: &mut ModuleConfig, val: &str)
    ensures
        final(conf)@ == (ModuleConfigView { root: val@, ..old(conf)@ }),
{
    conf.root = String::from_str(val);
}

/// `summon_app_user <user>`: the user the application runs as.
pub fn ngx_http_summon_app_set_user(conf: &mut ModuleConfig, val: &str)
    ensures
        final(conf)@ == (ModuleConfigView { user: val@, ..old(conf)@ }),
{
    conf.user = String::from_str(val);
}

/// `summon_app_log <path>`: where the application's output goes.
pub fn ngx_http_summon_app_set_log(conf: &mut ModuleConfig, val: &str)
    ensures
        final(conf)@ == (ModuleConfigView { log: val@, ..old(conf)@ }),
{
    conf.log = String::from_str(val);
}

/// `summon_app_idle_timeout <duration>`: the idle time after which the
/// application is stopped; `0` runs it indefinitely, and 15 minutes is kept
/// when the text is not a duration.
pub fn ngx_http_summon_app_set_idle_timeout(conf: &mut ModuleConfig, val: &str)
    requires
        duration_input_fits(val.spec_bytes()),
    ensures
        final(conf)@ == (ModuleConfigView {
            idle_timeout: idle_timeout_setting(val.spec_bytes()),
            ..old(conf)@
        }),
{
    let bytes = val.as_bytes();
    assert(bytes@.take(bytes@.len() as int) =~= bytes@);
    let bare = parse_unsigned_prefix(bytes, bytes.len(), u64::MAX);
    conf.idle_timeout = if bare == Some(0u64) {
        0
    } else {
        match parse_duration_to_seconds(val) {
            Ok(v) => v,
            Err(_) => DEFAULT_IDLE_TIMEOUT,
        }
    };
}

/// `summon_app_min_instance <number>`: how many instances to start; 1 when the
/// text is not a number.
pub fn ngx_http_summon_app_set_min_instance(conf: &mut ModuleConfig, val: &str)
    ensures
        final(conf)@ == (ModuleConfigView {
            min_instance: min_instance_setting(val.spec_bytes()),
            ..old(conf)@
        }),
{
    let bytes = val.as_bytes();
    assert(bytes@.take(bytes@.len() as int) =~= bytes@);
    conf.min_instance = match parse_unsigned_prefix(bytes, bytes.len(), u64::MAX) {
        Some(v) => v,
        None => 1,
    };
}

/// `summon_app_use_port <number>`: the reserved port to start the application
/// on; 0, which lets a free port be picked, when the text is not a port number.
/// A port that another location already reserves is refused, and the settings
/// stay as they were.
pub fn ngx_http_summon_app_set_use_port(
    conf: &mut ModuleConfig,
    val: &str,
    registry: &mut PortRegistry,
) -> (r: Result<(), &'static str>)
    ensures
        match parse_unsigned(val.spec_bytes(), 65535) {
            Some(p) => p > 0 && !old(registry)@.contains(p as u16) ==> {
                &&& r is Ok
                &&& final(conf).use_port == p
                &&& final(registry)@.contains(p as u16)
            },
            None => true,
        },
        ({
            let port = use_port_setting(val.spec_bytes());
            if port > 0 && old(registry)@.contains(port) {
                &&& r matches Err(e) && e@ == "Port already in use"@
                &&& final(conf)@ == old(conf)@
                &&& final(registry)@ == old(registry)@
            } else {
                &&& r is Ok
                &&& final(conf)@ == (ModuleConfigView { use_port: port, ..old(conf)@ })
                &&& final(registry)@ == if port > 0 {
                    old(registry)@.insert(port)
                } else {
                    old(registry)@
                }
            }
        }),
{
    let bytes = val.as_bytes();
    assert(bytes@.take(bytes@.len() as int) =~= bytes@);
    let port: u16 = match parse_unsigned_prefix(bytes, bytes.len(), 65535) {
        Some(v) => v as u16,
        None => 0,
    };
    if port > 0 {
        match registry.reserve(port) {
            Ok(()) => {},
            Err(e) => return Err(e),
        }
    }
    conf.use_port = port;
    Ok(())
}

/// `summon_app_show_crash on|off`: whether a crash is shown to the client;
/// off when the text is neither.
pub fn ngx_http_summon_app_set_show_crash(conf: &mut ModuleConfig, val: &str)
    ensures
        final(conf)@ == (ModuleConfigView { show_crash: show_crash_setting(val@), ..old(conf)@ }),
{
    conf.show_crash = match parse_on_off_to_bool(val) {
        Ok(b) => b,
        Err(_) => false,
    };
}

/// Law: every port number from 1 to 65535, written in decimal, is the port that
/// `summon_app_use_port` sets.
pub proof fn law_port_text_sets_port(p: u16)
    requires
        p >= 1,
    ensures
        use_port_setting(ascii_bytes(decimal_text(p as nat))) == p,
{
    law_decimal_text_reads_back(p as nat, 65535);
}

} // verus!
