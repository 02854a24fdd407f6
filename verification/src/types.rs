use vstd::prelude::*;
use vstd::string::StringExecFns;

use crate::utils::{DEFAULT_IDLE_TIMEOUT, ascii_bytes, decimal_string, decimal_text, law_decimal_text_reads_back, parse_unsigned};

verus! {

/// The HTTP module itself.
pub struct Module;

/// The settings of one `location`, read from the `summon_app_*` directives.
pub struct ModuleConfig {
    /// The shell command that starts the application.
    pub command: String,
    /// The directory the application runs in.
    pub root: String,
    /// The user the application runs as.
    pub user: String,
    /// Where the application's output goes.
    pub log: String,
    /// Seconds without requests before the application is stopped; 0 keeps it running.
    pub idle_timeout: u64,
    /// How many instances to start.
    pub min_instance: u64,
    /// A reserved port to start the application on; 0 picks a free one.
    pub use_port: u16,
    /// Whether a crash of the application is shown to the client.
    pub show_crash: bool,
}

/// The settings of a `location` as plain values.
pub struct ModuleConfigView {
    pub command: Seq<char>,
    pub root: Seq<char>,
    pub user: Seq<char>,
    pub log: Seq<char>,
    pub idle_timeout: u64,
    pub min_instance: u64,
    pub use_port: u16,
    pub show_crash: bool,
}

impl View for ModuleConfig {
    type V = ModuleConfigView;

    open spec fn view(&self) -> ModuleConfigView {
        ModuleConfigView {
            command: self.command@,
            root: self.root@,
            user: self.user@,
            log: self.log@,
            idle_timeout: self.idle_timeout,
            min_instance: self.min_instance,
            use_port: self.use_port,
            show_crash: self.show_crash,
        }
    }
}

/// The settings of a location without `summon_app_*` directives: no command,
/// a 15-minute idle timeout, one instance, a free port, crashes not shown.
impl Default for ModuleConfig {
    fn default() -> (c: ModuleConfig)
        ensures
            c.command@ == Seq::<char>::empty(),
            c.root@ == Seq::<char>::empty(),
            c.user@ == Seq::<char>::empty(),
            c.log@ == Seq::<char>::empty(),
            c.idle_timeout == DEFAULT_IDLE_TIMEOUT,
            c.min_instance == 1,
            c.use_port == 0,
            !c.show_crash,
    {
        ModuleConfig {
            command: String::new(),
            root: String::new(),
            user: String::new(),
            log: String::new(),
            idle_timeout: DEFAULT_IDLE_TIMEOUT,
            min_instance: 1,
            use_port: 0,
            show_crash: false,
        }
    }
}

/// What a request keeps of the application that serves it: the process id,
/// and the port as the text that the `$summon_port` variable gives.
pub struct ModuleCtx {
    pub pid: usize,
    pub port: String,
}

impl Default for ModuleCtx {
    fn default() -> (c: ModuleCtx)
        ensures
            c.pid == 0,
            c.port@ == Seq::<char>::empty(),
    {
        ModuleCtx { pid: 0, port: String::new() }
    }
}

impl ModuleCtx {
    /// Records the application's process and the port it listens on.
    pub fn save(&mut self, pid: usize, port: u16)
        ensures
            final(self).pid == pid,
            final(self).port@ == decimal_text(port as nat),
    {
        self.pid = pid;
        self.port = decimal_string(port as u64);
    }

    /// The value of the `$summon_port` variable: the port text, or nothing when
    /// no port has been saved.
    pub fn bind_port(&self) -> (v: Option<&str>)
        ensures
            self.port@.len() == 0 ==> v is None,
            self.port@.len() != 0 ==> (v matches Some(s) && s@ == self.port@),
    {
        let p = self.port.as_str();
        if p.is_empty() {
            None
        } else {
            Some(p)
        }
    }
}

/// An application that runs, as the table of running applications keeps it.
#[derive(Clone, Copy, Debug, PartialEq, Eq, Structural)]
pub struct SafeModuleCtx {
    pub pid: usize,
    pub port: u16,
    /// Seconds without requests before the application is stopped; 0 keeps it running.
    pub timeout: u64,
    /// When the application last served a request, in seconds since the Unix epoch.
    pub lastreq: u64,
}

/// Law: once `save` has recorded a port, `bind_port` gives a value for
/// `$summon_port`, and that text reads back as the same port number.
pub proof fn law_saved_port_reads_back(port: u16)
    ensures
        decimal_text(port as nat).len() != 0,
        parse_unsigned(ascii_bytes(decimal_text(port as nat)), u16::MAX as nat) == Some(port as nat),
{
    law_decimal_text_reads_back(port as nat, u16::MAX as nat);
    assert(ascii_bytes(decimal_text(port as nat)).len() == decimal_text(port as nat).len());
}

} // verus!
