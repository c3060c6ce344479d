//! Launch configuration and the server settings shared with clients.

use vstd::prelude::*;

use crate::messages::ServerMessage;

verus! {

/// The command-line arguments the server starts with.
pub struct MainCommand {
    pub ip: String,
    pub port: String,
    pub logs: String,
    pub resources_path: Option<String>,
    pub server_data_path: Option<String>,
    pub send_tps: bool,
}

/// The launch settings resource: the parsed arguments.
pub struct LaunchSettings {
    args: MainCommand,
}

impl LaunchSettings {
    pub closed spec fn spec_args(self) -> MainCommand {
        self.args
    }

    pub fn new(args: MainCommand) -> (r: LaunchSettings)
        ensures
            r.spec_args() == args,
    {
        LaunchSettings { args }
    }

    pub fn get_args(&self) -> (r: &MainCommand)
        ensures
            r == self.spec_args(),
    {
        &self.args
    }
}

/// The log levels the `--logs` flag can name.
#[derive(Clone, Copy, PartialEq, Eq, Structural, Debug)]
pub enum LogLevel {
    Off,
    Error,
    Warn,
    Info,
    Debug,
    Trace,
}

/// Whether a string names a log level, in any ASCII case. The six level
/// names hold only ASCII letters, so folding ASCII case decides the
/// match.
pub open spec fn spec_is_log_level(s: Seq<char>) -> bool {
    ||| crate::strutil::str_eq_ci(s, "off"@)
    ||| crate::strutil::str_eq_ci(s, "error"@)
    ||| crate::strutil::str_eq_ci(s, "warn"@)
    ||| crate::strutil::str_eq_ci(s, "info"@)
    ||| crate::strutil::str_eq_ci(s, "debug"@)
    ||| crate::strutil::str_eq_ci(s, "trace"@)
}

/// Whether a flag value names a log level, in any ASCII case.
pub fn is_log_level(level: &String) -> (r: bool)
    ensures
        r == spec_is_log_level(level@),
{
    let s = level.as_str();
    crate::strutil::str_eq_ignore_ascii_case(s, "off") || crate::strutil::str_eq_ignore_ascii_case(
        s,
        "error",
    ) || crate::strutil::str_eq_ignore_ascii_case(s, "warn")
        || crate::strutil::str_eq_ignore_ascii_case(s, "info")
        || crate::strutil::str_eq_ignore_ascii_case(s, "debug")
        || crate::strutil::str_eq_ignore_ascii_case(s, "trace")
}

/// The log level a flag value names, in any ASCII case. Values outside
/// the six level names are rejected before this is asked.
pub fn get_log_level(level: &String) -> (r: LogLevel)
    requires
        spec_is_log_level(level@),
    ensures
        crate::strutil::str_eq_ci(level@, "off"@) ==> r is Off,
        crate::strutil::str_eq_ci(level@, "error"@) ==> r is Error,
        crate::strutil::str_eq_ci(level@, "warn"@) ==> r is Warn,
        crate::strutil::str_eq_ci(level@, "info"@) ==> r is Info,
        crate::strutil::str_eq_ci(level@, "debug"@) ==> r is Debug,
        crate::strutil::str_eq_ci(level@, "trace"@) ==> r is Trace,
{
    proof {
        reveal_strlit("off");
        reveal_strlit("error");
        reveal_strlit("warn");
        reveal_strlit("info");
        reveal_strlit("debug");
        reveal_strlit("trace");
        assert("off"@.len() == 3 && "error"@.len() == 5 && "warn"@.len() == 4 && "info"@.len()
            == 4 && "debug"@.len() == 5 && "trace"@.len() == 5);
    }
    let s = level.as_str();
    if crate::strutil::str_eq_ignore_ascii_case(s, "off") {
        LogLevel::Off
    } else if crate::strutil::str_eq_ignore_ascii_case(s, "error") {
        proof {
            assert(!crate::strutil::str_eq_ci(level@, "debug"@)) by {
                if crate::strutil::str_eq_ci(level@, "debug"@) {
                    assert(crate::strutil::spec_fold_ascii(level@[0])
                        == crate::strutil::spec_fold_ascii("error"@[0]));
                    assert(crate::strutil::spec_fold_ascii(level@[0])
                        == crate::strutil::spec_fold_ascii("debug"@[0]));
                    assert("error"@[0] == 'e' && "debug"@[0] == 'd');
                }
            };
            assert(!crate::strutil::str_eq_ci(level@, "trace"@)) by {
                if crate::strutil::str_eq_ci(level@, "trace"@) {
                    assert(crate::strutil::spec_fold_ascii(level@[0])
                        == crate::strutil::spec_fold_ascii("error"@[0]));
                    assert(crate::strutil::spec_fold_ascii(level@[0])
                        == crate::strutil::spec_fold_ascii("trace"@[0]));
                    assert("error"@[0] == 'e' && "trace"@[0] == 't');
                }
            };
        }
        LogLevel::Error
    } else if crate::strutil::str_eq_ignore_ascii_case(s, "warn") {
        proof {
            assert(!crate::strutil::str_eq_ci(level@, "info"@)) by {
                if crate::strutil::str_eq_ci(level@, "info"@) {
                    assert(crate::strutil::spec_fold_ascii(level@[0])
                        == crate::strutil::spec_fold_ascii("warn"@[0]));
                    assert(crate::strutil::spec_fold_ascii(level@[0])
                        == crate::strutil::spec_fold_ascii("info"@[0]));
                    assert("warn"@[0] == 'w' && "info"@[0] == 'i');
                }
            };
        }
        LogLevel::Warn
    } else if crate::strutil::str_eq_ignore_ascii_case(s, "info") {
        LogLevel::Info
    } else if crate::strutil::str_eq_ignore_ascii_case(s, "debug") {
        proof {
            assert(!crate::strutil::str_eq_ci(level@, "trace"@)) by {
                if crate::strutil::str_eq_ci(level@, "trace"@) {
                    assert(crate::strutil::spec_fold_ascii(level@[0])
                        == crate::strutil::spec_fold_ascii("debug"@[0]));
                    assert(crate::strutil::spec_fold_ascii(level@[0])
                        == crate::strutil::spec_fold_ascii("trace"@[0]));
                    assert("debug"@[0] == 'd' && "trace"@[0] == 't');
                }
            };
        }
        LogLevel::Debug
    } else {
        assert(crate::strutil::str_eq_ci(level@, "trace"@));
        LogLevel::Trace
    }
}

/// The block schema and other settings streamed to clients on login.
pub struct ServerSettings {
    pub block_id_map: Vec<(u32, String)>,
}

impl ServerSettings {
    pub fn new() -> (r: ServerSettings)
        ensures
            r.block_id_map@.len() == 0,
    {
        ServerSettings { block_id_map: Vec::new() }
    }

    /// Registers one block type under its numeric id.
    pub fn add_block(&mut self, id: u32, slug: String)
        ensures
            final(self).block_id_map@ == old(self).block_id_map@.push((id, slug)),
    {
        self.block_id_map.push((id, slug));
    }

    /// The settings envelope for the wire: the block id map, content
    /// for content.
    pub fn get_network_settings(&self) -> (r: ServerMessage)
        ensures
            r matches ServerMessage::ServerSettings { block_id_map } && block_id_map@.len()
                == self.block_id_map@.len() && forall|i: int|
                0 <= i < block_id_map@.len() ==> (#[trigger] block_id_map@[i]).0
                    == self.block_id_map@[i].0 && block_id_map@[i].1@
                    == self.block_id_map@[i].1@,
    {
        let n = self.block_id_map.len();
        let mut out: Vec<(u32, String)> = Vec::new();
        let mut i: usize = 0;
        while i < n
            invariant
                n == self.block_id_map@.len(),
                i <= n,
                out@.len() == i,
                forall|j: int|
                    0 <= j < i ==> (#[trigger] out@[j]).0 == self.block_id_map@[j].0
                        && out@[j].1@ == self.block_id_map@[j].1@,
            decreases n - i,
        {
            out.push(
                (self.block_id_map[i].0, crate::clients::clone_string(&self.block_id_map[i].1)),
            );
            i = i + 1;
        }
        ServerMessage::ServerSettings { block_id_map: out }
    }
}

} // verus!
