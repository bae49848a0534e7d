//! The command line of the program.

use vstd::prelude::*;
use vstd::string::*;

use crate::text::{str_eq, strings};

verus! {

/// What the program is asked to do.
#[derive(Debug)]
pub enum CliCommand {
    /// Show the sessions.
    Tui,
    DaemonStart,
    DaemonStop,
    DaemonStatus,
    /// Be the daemon.
    DaemonRun,
    Approve { session_id: String },
    ScanLocal,
    ScanRemote { host: String },
    SshCheck { host: String },
    OcClient { url: String },
    IpcRoundtrip,
    InjectEvent { session_id: String, state: String },
    /// Something that it does not know.
    Unknown,
}

/// What the program is asked to do, as values.
#[verifier::ext_equal]
pub enum CliView {
    Tui,
    DaemonStart,
    DaemonStop,
    DaemonStatus,
    DaemonRun,
    Approve { session_id: Seq<char> },
    ScanLocal,
    ScanRemote { host: Seq<char> },
    SshCheck { host: Seq<char> },
    OcClient { url: Seq<char> },
    IpcRoundtrip,
    InjectEvent { session_id: Seq<char>, state: Seq<char> },
    Unknown,
}

impl View for CliCommand {
    type V = CliView;

    open spec fn view(&self) -> CliView {
        match *self {
            CliCommand::Tui => CliView::Tui,
            CliCommand::DaemonStart => CliView::DaemonStart,
            CliCommand::DaemonStop => CliView::DaemonStop,
            CliCommand::DaemonStatus => CliView::DaemonStatus,
            CliCommand::DaemonRun => CliView::DaemonRun,
            CliCommand::Approve { session_id } => CliView::Approve { session_id: session_id@ },
            CliCommand::ScanLocal => CliView::ScanLocal,
            CliCommand::ScanRemote { host } => CliView::ScanRemote { host: host@ },
            CliCommand::SshCheck { host } => CliView::SshCheck { host: host@ },
            CliCommand::OcClient { url } => CliView::OcClient { url: url@ },
            CliCommand::IpcRoundtrip => CliView::IpcRoundtrip,
            CliCommand::InjectEvent { session_id, state } => CliView::InjectEvent {
                session_id: session_id@,
                state: state@,
            },
            CliCommand::Unknown => CliView::Unknown,
        }
    }
}

/// What arguments ask for.
pub open spec fn cli_of(args: Seq<Seq<char>>) -> CliView {
    if args.len() == 0 {
        CliView::Tui
    } else if args.len() == 2 && args[0] == "daemon"@ {
        if args[1] == "start"@ {
            CliView::DaemonStart
        } else if args[1] == "stop"@ {
            CliView::DaemonStop
        } else if args[1] == "status"@ {
            CliView::DaemonStatus
        } else if args[1] == "run"@ {
            CliView::DaemonRun
        } else {
            CliView::Unknown
        }
    } else if args.len() == 2 && args[0] == "approve"@ {
        CliView::Approve { session_id: args[1] }
    } else if args.len() >= 2 && args[0] == "debug"@ {
        if args.len() == 2 && args[1] == "scan-local"@ {
            CliView::ScanLocal
        } else if args.len() == 2 && args[1] == "ipc-roundtrip"@ {
            CliView::IpcRoundtrip
        } else if args.len() == 3 && args[1] == "scan-remote"@ {
            CliView::ScanRemote { host: args[2] }
        } else if args.len() == 3 && args[1] == "ssh-check"@ {
            CliView::SshCheck { host: args[2] }
        } else if args.len() == 3 && args[1] == "oc-client"@ {
            CliView::OcClient { url: args[2] }
        } else if args.len() == 4 && args[1] == "inject-event"@ {
            CliView::InjectEvent { session_id: args[2], state: args[3] }
        } else {
            CliView::Unknown
        }
    } else {
        CliView::Unknown
    }
}

/// What arguments ask for; the name of the program is not among them.
pub fn parse_cli(args: &Vec<String>) -> (r: CliCommand)
    ensures
        r@ == cli_of(strings(args@)),
{
    let n: usize = args.len();
    let ghost all = strings(args@);
    if n == 0 {
        return CliCommand::Tui;
    }
    assert(all[0] == args@[0]@);
    if n < 2 {
        return CliCommand::Unknown;
    }
    assert(all[1] == args@[1]@);
    let first = args[0].as_str();
    let second = args[1].as_str();
    if n == 2 && str_eq(first, "daemon") {
        if str_eq(second, "start") {
            return CliCommand::DaemonStart;
        }
        if str_eq(second, "stop") {
            return CliCommand::DaemonStop;
        }
        if str_eq(second, "status") {
            return CliCommand::DaemonStatus;
        }
        if str_eq(second, "run") {
            return CliCommand::DaemonRun;
        }
        return CliCommand::Unknown;
    }
    if n == 2 && str_eq(first, "approve") {
        return CliCommand::Approve { session_id: args[1].clone() };
    }
    if !str_eq(first, "debug") {
        return CliCommand::Unknown;
    }
    if n == 2 && str_eq(second, "scan-local") {
        return CliCommand::ScanLocal;
    }
    if n == 2 && str_eq(second, "ipc-roundtrip") {
        return CliCommand::IpcRoundtrip;
    }
    if n == 3 && str_eq(second, "scan-remote") {
        return CliCommand::ScanRemote { host: args[2].clone() };
    }
    if n == 3 && str_eq(second, "ssh-check") {
        return CliCommand::SshCheck { host: args[2].clone() };
    }
    if n == 3 && str_eq(second, "oc-client") {
        return CliCommand::OcClient { url: args[2].clone() };
    }
    if n == 4 && str_eq(second, "inject-event") {
        return CliCommand::InjectEvent { session_id: args[2].clone(), state: args[3].clone() };
    }
    CliCommand::Unknown
}

/// The commands by their words; without words the interface is shown, and whatever
/// is none of them is unknown.
pub proof fn law_commands_by_their_words(x: Seq<char>, y: Seq<char>)
    ensures
        cli_of(Seq::empty()) == CliView::Tui,
        cli_of(seq!["daemon"@, "start"@]) == CliView::DaemonStart,
        cli_of(seq!["daemon"@, "stop"@]) == CliView::DaemonStop,
        cli_of(seq!["daemon"@, "status"@]) == CliView::DaemonStatus,
        cli_of(seq!["daemon"@, "run"@]) == CliView::DaemonRun,
        cli_of(seq!["approve"@, x]) == (CliView::Approve { session_id: x }),
        cli_of(seq!["debug"@, "scan-local"@]) == CliView::ScanLocal,
        cli_of(seq!["debug"@, "ipc-roundtrip"@]) == CliView::IpcRoundtrip,
        cli_of(seq!["debug"@, "scan-remote"@, x]) == (CliView::ScanRemote { host: x }),
        cli_of(seq!["debug"@, "ssh-check"@, x]) == (CliView::SshCheck { host: x }),
        cli_of(seq!["debug"@, "oc-client"@, x]) == (CliView::OcClient { url: x }),
        cli_of(seq!["debug"@, "inject-event"@, x, y]) == (CliView::InjectEvent {
            session_id: x,
            state: y,
        }),
{
    reveal_strlit("daemon");
    reveal_strlit("start");
    reveal_strlit("stop");
    reveal_strlit("status");
    reveal_strlit("run");
    reveal_strlit("approve");
    reveal_strlit("debug");
    reveal_strlit("scan-local");
    reveal_strlit("ipc-roundtrip");
    reveal_strlit("scan-remote");
    reveal_strlit("ssh-check");
    reveal_strlit("oc-client");
    reveal_strlit("inject-event");
    assert("daemon"@.len() == 6 && "approve"@.len() == 7 && "debug"@.len() == 5);
    assert("start"@.len() == 5 && "stop"@.len() == 4 && "status"@.len() == 6 && "run"@.len() == 3);
    assert("scan-local"@.len() == 10 && "ipc-roundtrip"@.len() == 13);
    assert("scan-remote"@.len() == 11 && "ssh-check"@.len() == 9 && "oc-client"@.len() == 9);
    assert("ssh-check"@[0] == 's' && "oc-client"@[0] == 'o');
}

/// Words that do not begin a command, and words too few or too many for one, are
/// unknown.
pub proof fn law_other_words_are_unknown(args: Seq<Seq<char>>)
    ensures
        args.len() == 1 || args.len() > 4 ==> cli_of(args) == CliView::Unknown,
        args.len() > 0 && args[0] != "daemon"@ && args[0] != "approve"@ && args[0] != "debug"@
            ==> cli_of(args) == CliView::Unknown,
        args.len() > 2 && args[0] != "debug"@ ==> cli_of(args) == CliView::Unknown,
        cli_of(args) == CliView::Tui <==> args.len() == 0,
{
}

} // verus!
