//! Power actions offered by the launcher's power menu.
use vstd::prelude::*;

verus! {

#[derive(Debug, Clone, Copy, PartialEq, Eq, Structural)]
pub enum PowerAction {
    Shutdown,
    Restart,
    Sleep,
}

/// The entries of the power menu, in the order shown.
pub const ACTIONS: [PowerAction; 3] = [
    PowerAction::Shutdown,
    PowerAction::Restart,
    PowerAction::Sleep,
];

/// A program and its arguments.
#[derive(Debug, PartialEq, Eq)]
pub struct CommandLine {
    pub program: String,
    pub args: Vec<String>,
}

/// The texts of a list of strings.
pub open spec fn texts(v: Seq<String>) -> Seq<Seq<char>> {
    v.map_values(|s: String| s@)
}

impl PowerAction {
    pub open spec fn label_text(self) -> Seq<char> {
        match self {
            PowerAction::Shutdown => "Shutdown"@,
            PowerAction::Restart => "Restart"@,
            PowerAction::Sleep => "Sleep"@,
        }
    }

    /// The program that carries the action out.
    pub open spec fn program_text(self) -> Seq<char> {
        match self {
            PowerAction::Shutdown => "shutdown.exe"@,
            PowerAction::Restart => "shutdown.exe"@,
            PowerAction::Sleep => "rundll32.exe"@,
        }
    }

    /// The program's arguments.
    pub open spec fn arg_texts(self) -> Seq<Seq<char>> {
        match self {
            PowerAction::Shutdown => seq!["/s"@, "/t"@, "0"@],
            PowerAction::Restart => seq!["/r"@, "/t"@, "0"@],
            PowerAction::Sleep => seq!["powrprof.dll,SetSuspendState"@, "0"@, "1"@, "0"@],
        }
    }

    pub fn label(self) -> (r: &'static str)
        ensures
            r@ == self.label_text(),
    {
        match self {
            PowerAction::Shutdown => "Shutdown",
            PowerAction::Restart => "Restart",
            PowerAction::Sleep => "Sleep",
        }
    }

    /// What to start in order to carry the action out.
    pub fn command(self) -> (r: CommandLine)
        ensures
            r.program@ == self.program_text(),
            texts(r.args@) == self.arg_texts(),
    {
        let mut args: Vec<String> = Vec::new();
        let program = match self {
            PowerAction::Shutdown => {
                args.push("/s".to_owned());
                args.push("/t".to_owned());
                args.push("0".to_owned());
                "shutdown.exe".to_owned()
            },
            PowerAction::Restart => {
                args.push("/r".to_owned());
                args.push("/t".to_owned());
                args.push("0".to_owned());
                "shutdown.exe".to_owned()
            },
            PowerAction::Sleep => {
                args.push("powrprof.dll,SetSuspendState".to_owned());
                args.push("0".to_owned());
                args.push("1".to_owned());
                args.push("0".to_owned());
                "rundll32.exe".to_owned()
            },
        };
        assert(texts(args@) =~= self.arg_texts());
        CommandLine { program, args }
    }
}

/// What each action is called, and what carries it out.
pub proof fn actions_and_their_commands(a: PowerAction)
    ensures
        match a {
            PowerAction::Shutdown => a.label_text() == "Shutdown"@ && a.program_text()
                == "shutdown.exe"@ && a.arg_texts() == seq!["/s"@, "/t"@, "0"@],
            PowerAction::Restart => a.label_text() == "Restart"@ && a.program_text()
                == "shutdown.exe"@ && a.arg_texts() == seq!["/r"@, "/t"@, "0"@],
            PowerAction::Sleep => a.label_text() == "Sleep"@ && a.program_text()
                == "rundll32.exe"@ && a.arg_texts() == seq![
                "powrprof.dll,SetSuspendState"@,
                "0"@,
                "1"@,
                "0"@,
            ],
        },
        ACTIONS@ == seq![PowerAction::Shutdown, PowerAction::Restart, PowerAction::Sleep],
{
    assert(ACTIONS@ =~= seq![PowerAction::Shutdown, PowerAction::Restart, PowerAction::Sleep]);
}
} // verus!
