use vstd::prelude::*;
use vstd::string::StringExecFns;

use crate::types::{ModuleConfig, SafeModuleCtx};
use crate::utils::{
    ascii_bytes, decimal_string, decimal_text, law_decimal_text_reads_back, parse_unsigned,
};

verus! {

/// A location summons an application exactly when its command is set; the
/// other settings have defaults.
pub open spec fn summons(co: ModuleConfig) -> bool {
    co.command@.len() > 0
}

/// Whether requests to a location with these settings start an application.
pub fn should_summon(co: &ModuleConfig) -> (r: bool)
    ensures
        r == summons(*co),
        r == (co.command@.len() > 0),
{
    !co.command.as_str().is_empty()
}

/// How the access phase answers a request.
#[derive(Clone, Copy, Debug, PartialEq, Eq, Structural)]
pub enum AccessOutcome {
    /// An application serves the request.
    Summon,
    /// The module does not handle the request.
    Decline,
}

/// The access phase answers a request by summoning an application when the
/// location asks for one and the request names a host; otherwise it declines.
pub fn access_outcome(co: &ModuleConfig, has_host: bool) -> (r: AccessOutcome)
    ensures
        r is Summon <==> summons(*co) && has_host,
        r is Summon <==> co.command@.len() > 0 && has_host,
{
    if should_summon(co) && has_host {
        AccessOutcome::Summon
    } else {
        AccessOutcome::Decline
    }
}

/// The key under which the table keeps the application of `command` for `host`.
pub open spec fn key_of(host: Seq<char>, command: Seq<char>) -> Seq<char> {
    host + seq![':'] + command
}

/// The table key of the application of `command` for `host`: `host:command`.
pub fn process_key(host: &str, command: &str) -> (k: String)
    ensures
        k@ == key_of(host@, command@),
{
    let mut k = String::from_str(host);
    proof {
        reveal_strlit(":");
    }
    k.append(":");
    k.append(command);
    k
}

/// What a request does about the application it needs.
#[derive(Clone, Copy, Debug, PartialEq, Eq, Structural)]
pub enum Summoned {
    /// The application runs: use it, with its entry refreshed to this one.
    Reuse(SafeModuleCtx),
    /// Start the application.
    Spawn,
}

/// Decides, from the table's entry for the application (if any) and whether
/// its process still runs, whether a request at time `now` reuses it or starts
/// it anew. A reused entry records `now` as its last request.
pub fn summon_decision(found: Option<SafeModuleCtx>, running: bool, now: u64) -> (r: Summoned)
    ensures
        match found {
            Some(ctx) if running => r == Summoned::Reuse(SafeModuleCtx { lastreq: now, ..ctx }),
            _ => r is Spawn,
        },
{
    match found {
        Some(ctx) => {
            if running {
                Summoned::Reuse(SafeModuleCtx { lastreq: now, ..ctx })
            } else {
                Summoned::Spawn
            }
        },
        None => Summoned::Spawn,
    }
}

/// The table entry of an application just started as `pid` on `port` at time
/// `now`, with the idle timeout of its location.
pub fn new_entry(pid: usize, port: u16, co: &ModuleConfig, now: u64) -> (e: SafeModuleCtx)
    ensures
        e == (SafeModuleCtx { pid, port, timeout: co.idle_timeout, lastreq: now }),
{
    SafeModuleCtx { pid, port, timeout: co.idle_timeout, lastreq: now }
}

/// How many copies of the application a location starts: its
/// `summon_app_min_instance`, and at least one.
pub open spec fn instances_of(co: ModuleConfig) -> u64 {
    if co.min_instance == 0 {
        1
    } else {
        co.min_instance
    }
}

/// The number of copies of the application that a start of location `co` spawns.
pub fn instance_count(co: &ModuleConfig) -> (r: u64)
    ensures
        r == instances_of(*co),
{
    if co.min_instance == 0 {
        1
    } else {
        co.min_instance
    }
}

/// The table key of copy `i` of the application of `command` for `host`: the
/// application's key for the first copy, followed by `#i` for the others.
pub open spec fn instance_key_of(host: Seq<char>, command: Seq<char>, i: nat) -> Seq<char> {
    if i == 0 {
        key_of(host, command)
    } else {
        key_of(host, command) + seq!['#'] + decimal_text(i)
    }
}

/// The table key of copy `i` of the application of `command` for `host`.
pub fn instance_key(host: &str, command: &str, i: u64) -> (k: String)
    ensures
        k@ == instance_key_of(host@, command@, i as nat),
{
    let mut k = process_key(host, command);
    if i > 0 {
        proof {
            reveal_strlit("#");
        }
        k.append("#");
        let d = decimal_string(i);
        k.append(d.as_str());
    }
    k
}

/// Law: different copies of one application are kept under different keys.
pub proof fn law_instance_keys_distinct(host: Seq<char>, command: Seq<char>, i: nat, j: nat)
    requires
        i != j,
    ensures
        instance_key_of(host, command, i) != instance_key_of(host, command, j),
{
    let base = key_of(host, command);
    let m: nat = if i < j { j } else { i };
    law_decimal_text_reads_back(i, m);
    law_decimal_text_reads_back(j, m);
    if i != 0 && j != 0 && instance_key_of(host, command, i) == instance_key_of(host, command, j) {
        let ki = instance_key_of(host, command, i);
        let kj = instance_key_of(host, command, j);
        let b: int = base.len() as int + 1;
        assert(ki.subrange(b, ki.len() as int) =~= decimal_text(i));
        assert(kj.subrange(b, kj.len() as int) =~= decimal_text(j));
        assert(ascii_bytes(decimal_text(i)) == ascii_bytes(decimal_text(j)));
    }
    if i == 0 || j == 0 {
        law_decimal_text_reads_back(if i == 0 { j } else { i }, m);
        assert(ascii_bytes(decimal_text(if i == 0 { j } else { i })).len() > 0);
    }
}

/// Which port a start uses.
#[derive(Clone, Copy, Debug, PartialEq, Eq, Structural)]
pub enum PortChoice {
    /// The location's reserved port: whatever listens on it is killed first.
    Reserved(u16),
    /// A port that the system finds free.
    Free,
}

/// The port a start of location `co` uses: its `summon_app_use_port` when one
/// is set, else a free one.
pub fn port_choice(co: &ModuleConfig) -> (r: PortChoice)
    ensures
        co.use_port > 0 ==> r == PortChoice::Reserved(co.use_port),
        co.use_port == 0 ==> r is Free,
{
    if co.use_port > 0 {
        PortChoice::Reserved(co.use_port)
    } else {
        PortChoice::Free
    }
}

/// Law: whether a location summons depends on its command alone: every
/// location with a command summons, whatever its other settings, and no
/// location without one does.
pub proof fn law_command_alone_summons(co: ModuleConfig)
    ensures
        co.command@.len() > 0 ==> summons(co),
        co.command@.len() == 0 ==> !summons(co),
        forall|other: ModuleConfig| other.command@ == co.command@ ==> summons(other) == summons(co),
{
}

} // verus!
