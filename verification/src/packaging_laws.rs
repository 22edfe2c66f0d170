//! What the packaging tasks are asked for by, and what is said of each player.

use vstd::prelude::*;

use crate::packaging::{Platform, Task};

verus! {

/// Whether a word is among the arguments.
pub open spec fn is_given(args: Seq<String>, word: Seq<char>) -> bool {
    exists|i: int| 0 <= i < args.len() && (#[trigger] args[i])@ == word
}

/// The first word says what to do; no word at all asks for help. A release is built only where
/// `--release` is given, and only the host's library is packaged only where `--host` is.
pub proof fn law_the_first_word_says_what_to_do(args: Seq<String>, task: Task)
    requires
        crate::packaging::asks_for(args, task),
    ensures
        task == Task::Help <==> args.len() == 0 || args[0]@ == "help"@ || args[0]@ == "--help"@
            || args[0]@ == "-h"@,
        task == Task::Bindings <==> args.len() > 0 && args[0]@ == "bindings"@,
        task is Sandbox <==> args.len() > 0 && args[0]@ == "sandbox"@,
        task is TestCsharp <==> args.len() > 0 && args[0]@ == "test-csharp"@,
        task is Dist <==> args.len() > 0 && args[0]@ == "dist"@,
        task matches Task::Sandbox { release } ==> release == is_given(args, "--release"@),
        task matches Task::TestCsharp { release } ==> release == is_given(args, "--release"@),
        task matches Task::Dist { host_only } ==> host_only == is_given(args, "--host"@),
        task matches Task::Unknown(name) ==> name@ == args[0]@,
{
    reveal_strlit("help");
    reveal_strlit("--help");
    reveal_strlit("-h");
    reveal_strlit("bindings");
    reveal_strlit("sandbox");
    reveal_strlit("test-csharp");
    reveal_strlit("dist");
    assert("help"@.len() == 4 && "--help"@.len() == 6 && "-h"@.len() == 2);
    assert("bindings"@.len() == 8 && "sandbox"@.len() == 7 && "test-csharp"@.len() == 11);
    assert("dist"@.len() == 4 && "dist"@[0] != "help"@[0]);
    assert(is_given(args, "--release"@) == crate::packaging::has_flag(args, "--release"@));
    assert(is_given(args, "--host"@) == crate::packaging::has_flag(args, "--host"@));
}

/// The player that each platform's library is for.
pub open spec fn own_player(p: Platform) -> Seq<char> {
    match p {
        Platform::MacOs => "OSXUniversal"@,
        Platform::Linux => "Linux64"@,
        Platform::Windows => "Win64"@,
    }
}

/// A platform's library is left in for its own player, with its processor, and out for all others.
pub proof fn law_libraries_go_into_their_own_player(p: Platform, player: Seq<char>)
    ensures
        p.standalone_text() == own_player(p),
        p == Platform::MacOs ==> p.cpu_text() == "AnyCPU"@ && p.editor_text() == "OSX"@,
        p == Platform::Linux ==> p.cpu_text() == "x86_64"@ && p.editor_text() == "Linux"@,
        p == Platform::Windows ==> p.cpu_text() == "x86_64"@ && p.editor_text() == "Windows"@,
        crate::packaging::exclude_line(player, p.standalone_text()) == "        Exclude "@ + player
            + ": "@ + (if player == own_player(p) {
            "0"@
        } else {
            "1"@
        }) + "\n"@,
        crate::packaging::player_lines(player, p.standalone_text(), p.cpu_text())
            == "  - first:\n      Standalone: "@ + player + "\n    second:\n      enabled: "@ + (
        if player == own_player(p) {
            "1"@
        } else {
            "0"@
        }) + "\n      settings:\n        CPU: "@ + (if player == own_player(p) {
            p.cpu_text()
        } else {
            "None"@
        }) + "\n"@,
{
}

} // verus!
