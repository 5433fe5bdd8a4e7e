//! The command line.
use crate::state::AppEntry;
#[allow(unused_imports)]
use crate::state::{models, EntryModel};
use crate::text::{join2, push_decimal, same};
#[allow(unused_imports)]
use crate::text::decimal;
use vstd::prelude::*;
use vstd::string::*;

verus! {

/// As many apps are listed.
pub const LISTED_APPS: usize = 20;

/// What the command line asks for.
#[derive(Debug, Clone, Copy, PartialEq, Eq, Structural)]
pub enum Command {
    /// Hide the taskbar once.
    Hide,
    /// Show the taskbar once.
    Show,
    /// Write a list of the indexed apps.
    List,
    InstallRemap,
    RemoveRemap,
    /// Run. A demo shows the launcher at once, and leaves keyboard and taskbar alone.
    Run { demo: bool },
}

/// The flag is among the arguments.
pub open spec fn given(args: Seq<String>, flag: Seq<char>) -> bool {
    exists|i: int| 0 <= i < args.len() && (#[trigger] args[i])@ == flag
}

/// What the arguments ask for. The first flag of this list that is given decides.
pub open spec fn command_of(args: Seq<String>) -> Command {
    if given(args, "--hide"@) {
        Command::Hide
    } else if given(args, "--show"@) {
        Command::Show
    } else if given(args, "--list"@) {
        Command::List
    } else if given(args, "--install-win-remap"@) {
        Command::InstallRemap
    } else if given(args, "--remove-win-remap"@) {
        Command::RemoveRemap
    } else {
        Command::Run { demo: given(args, "--demo"@) }
    }
}

fn has_flag(args: &Vec<String>, flag: &str) -> (r: bool)
    ensures
        r == given(args@, flag@),
{
    let mut i: usize = 0;
    while i < args.len()
        invariant
            i <= args@.len(),
            forall|k: int| 0 <= k < i ==> (#[trigger] args@[k])@ != flag@,
        decreases args@.len() - i,
    {
        if same(args[i].as_str(), flag) {
            return true;
        }
        i = i + 1;
    }
    false
}

/// Reads the arguments.
pub fn parse(args: &Vec<String>) -> (r: Command)
    ensures
        r == command_of(args@),
{
    if has_flag(args, "--hide") {
        Command::Hide
    } else if has_flag(args, "--show") {
        Command::Show
    } else if has_flag(args, "--list") {
        Command::List
    } else if has_flag(args, "--install-win-remap") {
        Command::InstallRemap
    } else if has_flag(args, "--remove-win-remap") {
        Command::RemoveRemap
    } else {
        Command::Run { demo: has_flag(args, "--demo") }
    }
}

/// The line of an app.
pub open spec fn listed_app(a: EntryModel) -> Seq<char> {
    "["@ + (if a.icon is Some {
        "icon"@
    } else {
        "    "@
    }) + "] "@ + a.name + "\n"@
}

/// The lines of some apps.
pub open spec fn listed_apps(list: Seq<EntryModel>) -> Seq<char>
    decreases list.len(),
{
    if list.len() == 0 {
        Seq::empty()
    } else {
        listed_apps(list.drop_last()) + listed_app(list.last())
    }
}

/// The list of the indexed apps: their number, and the first of them.
pub open spec fn report(list: Seq<EntryModel>) -> Seq<char> {
    "indexed "@ + decimal(list.len()) + " apps\n"@ + listed_apps(
        list.take(
            if list.len() < LISTED_APPS {
                list.len() as int
            } else {
                LISTED_APPS as int
            },
        ),
    )
}

/// The list of the indexed apps.
pub fn list_report(list: &Vec<AppEntry>) -> (r: String)
    ensures
        r@ == report(models(list@)),
{
    let ghost all = models(list@);
    let mut out: String = "indexed ".to_owned();
    push_decimal(&mut out, list.len() as u64);
    out.append(" apps\n");
    let ghost head = out@;
    let n: usize = if list.len() < LISTED_APPS {
        list.len()
    } else {
        LISTED_APPS
    };
    let mut i: usize = 0;
    assert(out@ =~= head + listed_apps(all.take(0)));
    while i < n
        invariant
            i <= n <= list@.len(),
            all == models(list@),
            out@ == head + listed_apps(all.take(i as int)),
        decreases n - i,
    {
        out.append("[");
        if list[i].icon.is_some() {
            out.append("icon");
        } else {
            out.append("    ");
        }
        out.append("] ");
        out.append(list[i].name.as_str());
        out.append("\n");
        proof {
            assert(all.take(i + 1).drop_last() =~= all.take(i as int));
            assert(all.take(i + 1).last() == list@[i as int]@);
            assert(out@ =~= head + listed_apps(all.take(i + 1)));
        }
        i = i + 1;
    }
    out
}

/// What is said after the remap of the Win keys was installed, or could not be.
pub open spec fn install_text(ok: bool) -> Seq<char> {
    "install Win-key scancode remap: "@ + (if ok {
        "ok"@
    } else {
        "failed (run as Administrator)"@
    }) + ". Reboot or sign out/in for it to take effect."@
}

/// What is said after the remap of the Win keys was removed, or could not be.
pub open spec fn remove_text(ok: bool) -> Seq<char> {
    "remove Win-key scancode remap: "@ + (if ok {
        "ok"@
    } else {
        "failed (run as Administrator or value missing)"@
    }) + ". Reboot or sign out/in for it to take effect."@
}

/// The message on the installation of the remap of the Win keys.
pub fn install_message(ok: bool) -> (r: String)
    ensures
        r@ == install_text(ok),
{
    let m = join2(
        "install Win-key scancode remap: ",
        if ok {
            "ok"
        } else {
            "failed (run as Administrator)"
        },
    );
    join2(m.as_str(), ". Reboot or sign out/in for it to take effect.")
}

/// The message on the removal of the remap of the Win keys.
pub fn remove_message(ok: bool) -> (r: String)
    ensures
        r@ == remove_text(ok),
{
    let m = join2(
        "remove Win-key scancode remap: ",
        if ok {
            "ok"
        } else {
            "failed (run as Administrator or value missing)"
        },
    );
    join2(m.as_str(), ". Reboot or sign out/in for it to take effect.")
}

/// Which flag decides: each of the list before those after it, wherever they stand.
pub proof fn flags_decide_in_order(args: Seq<String>, i: int)
    requires
        0 <= i < args.len(),
    ensures
        args[i]@ == "--hide"@ ==> command_of(args) is Hide,
        args[i]@ == "--show"@ ==> command_of(args) is Show || command_of(args) is Hide,
        command_of(args) is Hide ==> exists|k: int|
            0 <= k < args.len() && (#[trigger] args[k])@ == "--hide"@,
        command_of(args) is Show ==> exists|k: int|
            0 <= k < args.len() && (#[trigger] args[k])@ == "--show"@,
        args[i]@ == "--list"@ ==> command_of(args) is List || command_of(args) is Show
            || command_of(args) is Hide,
        command_of(args) is List ==> exists|k: int|
            0 <= k < args.len() && (#[trigger] args[k])@ == "--list"@,
        args[i]@ == "--install-win-remap"@ ==> !(command_of(args) is RemoveRemap) && !(command_of(
            args,
        ) is Run),
        command_of(args) is InstallRemap ==> exists|k: int|
            0 <= k < args.len() && (#[trigger] args[k])@ == "--install-win-remap"@,
        args[i]@ == "--remove-win-remap"@ ==> !(command_of(args) is Run),
        command_of(args) is RemoveRemap ==> exists|k: int|
            0 <= k < args.len() && (#[trigger] args[k])@ == "--remove-win-remap"@,
        command_of(args) is Run ==> (command_of(args)->demo <==> exists|k: int|
            0 <= k < args.len() && (#[trigger] args[k])@ == "--demo"@),
{
}

/// Without arguments, we run.
pub proof fn no_arguments_run()
    ensures
        command_of(Seq::empty()) == (Command::Run { demo: false }),
{
}

/// The order of the arguments does not matter.
pub proof fn order_of_arguments_does_not_matter(a: Seq<String>, b: Seq<String>)
    ensures
        command_of(a + b) == command_of(b + a),
{
    lemma_given_anywhere(a, b, "--hide"@);
    lemma_given_anywhere(a, b, "--show"@);
    lemma_given_anywhere(a, b, "--list"@);
    lemma_given_anywhere(a, b, "--install-win-remap"@);
    lemma_given_anywhere(a, b, "--remove-win-remap"@);
    lemma_given_anywhere(a, b, "--demo"@);
}

proof fn lemma_given_anywhere(a: Seq<String>, b: Seq<String>, flag: Seq<char>)
    ensures
        given(a + b, flag) == given(b + a, flag),
{
    if given(a + b, flag) {
        let i = choose|i: int| 0 <= i < (a + b).len() && (#[trigger] (a + b)[i])@ == flag;
        let k = if i < a.len() {
            b.len() + i
        } else {
            i - a.len()
        };
        assert((b + a)[k] == (a + b)[i]);
    }
    if given(b + a, flag) {
        let i = choose|i: int| 0 <= i < (b + a).len() && (#[trigger] (b + a)[i])@ == flag;
        let k = if i < b.len() {
            a.len() + i
        } else {
            i - b.len()
        };
        assert((a + b)[k] == (b + a)[i]);
    }
}

/// The report says how many apps there are, and has a line for each of the first twenty: in
/// brackets whether it has an icon, and its name.
pub proof fn report_has_a_line_for_each_app(list: Seq<EntryModel>, a: EntryModel)
    ensures
        list.len() < 20 ==> report(list) == "indexed "@ + decimal(list.len()) + " apps\n"@
            + listed_apps(list),
        list.len() >= 20 ==> report(list) == "indexed "@ + decimal(list.len()) + " apps\n"@
            + listed_apps(list.take(20)),
        listed_apps(Seq::empty()).len() == 0,
        a.icon is Some ==> listed_apps(list.push(a)) == listed_apps(list) + "[icon] "@ + a.name
            + seq!['\n'],
        a.icon is None ==> listed_apps(list.push(a)) == listed_apps(list) + "[    ] "@ + a.name
            + seq!['\n'],
{
    reveal_strlit("[");
    reveal_strlit("icon");
    reveal_strlit("    ");
    reveal_strlit("] ");
    reveal_strlit("\n");
    reveal_strlit("[icon] ");
    reveal_strlit("[    ] ");
    assert(list.push(a).drop_last() =~= list);
    assert("\n"@ =~= seq!['\n']);
    assert("["@ + "icon"@ + "] "@ =~= "[icon] "@);
    assert("["@ + "    "@ + "] "@ =~= "[    ] "@);
    if list.len() < 20 {
        assert(list.take(list.len() as int) =~= list);
    }
    if a.icon is Some {
        assert(listed_apps(list.push(a)) =~= listed_apps(list) + "[icon] "@ + a.name + seq!['\n']);
    } else {
        assert(listed_apps(list.push(a)) =~= listed_apps(list) + "[    ] "@ + a.name + seq!['\n']);
    }
}

/// The messages tell success from failure.
pub proof fn remap_messages_tell_success()
    ensures
        install_text(true) == "install Win-key scancode remap: "@ + "ok"@
            + ". Reboot or sign out/in for it to take effect."@,
        install_text(false) == "install Win-key scancode remap: "@ + "failed (run as Administrator)"@
            + ". Reboot or sign out/in for it to take effect."@,
        remove_text(true) == "remove Win-key scancode remap: "@ + "ok"@
            + ". Reboot or sign out/in for it to take effect."@,
        remove_text(false) == "remove Win-key scancode remap: "@
            + "failed (run as Administrator or value missing)"@
            + ". Reboot or sign out/in for it to take effect."@,
{
}
} // verus!
