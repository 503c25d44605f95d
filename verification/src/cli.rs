//! What the command line asks for.

use vstd::prelude::*;
use crate::pvesh::string_views;
use crate::text::same_text;

verus! {

/// What to do, by the command-line arguments.
pub enum CliAction {
    /// Print the help text and stop.
    Help,
    /// Run the menu; in a dry run nothing is created, written or downloaded.
    Run { dry_run: bool },
    /// Some arguments are not understood: report them, print the help and exit with status 2.
    Unknown(Vec<String>),
}

pub open spec fn is_help_flag(a: Seq<char>) -> bool {
    a == "--help"@ || a == "-h"@
}

pub open spec fn is_dry_run_flag(a: Seq<char>) -> bool {
    a == "--dry-run"@ || a == "-n"@
}

/// The arguments that are neither a help flag nor a dry-run flag, in order.
pub open spec fn unknown_args(args: Seq<Seq<char>>) -> Seq<Seq<char>>
    decreases args.len(),
{
    if args.len() == 0 {
        Seq::empty()
    } else {
        let prev = unknown_args(args.drop_last());
        let a = args.last();
        if is_help_flag(a) || is_dry_run_flag(a) {
            prev
        } else {
            prev.push(a)
        }
    }
}

/// A help flag anywhere wins; otherwise any unknown argument is an error;
/// otherwise the menu runs, as a dry run when a dry-run flag is given.
pub open spec fn cli_action_spec(args: Seq<Seq<char>>, r: CliAction) -> bool {
    if exists|i: int| 0 <= i < args.len() && is_help_flag(#[trigger] args[i]) {
        r is Help
    } else if unknown_args(args).len() > 0 {
        r matches CliAction::Unknown(u) && string_views(u@) == unknown_args(args)
    } else {
        r matches CliAction::Run { dry_run } && dry_run == exists|i: int|
            0 <= i < args.len() && is_dry_run_flag(#[trigger] args[i])
    }
}

fn copy_string(s: &String) -> (r: String)
    ensures
        r@ == s@,
{
    s.clone()
}

/// Reads the command-line arguments (without the program name).
pub fn parse_args(args: &Vec<String>) -> (r: CliAction)
    ensures
        cli_action_spec(string_views(args@), r),
{
    let ghost views = string_views(args@);
    let mut help = false;
    let mut dry_run = false;
    let mut unknown: Vec<String> = Vec::new();
    let mut i: usize = 0;
    assert(views.take(0) =~= Seq::<Seq<char>>::empty());
    while i < args.len()
        invariant
            i <= args.len(),
            views == string_views(args@),
            help == exists|j: int| 0 <= j < i && is_help_flag(#[trigger] views[j]),
            dry_run == exists|j: int| 0 <= j < i && is_dry_run_flag(#[trigger] views[j]),
            string_views(unknown@) == unknown_args(views.take(i as int)),
        decreases args.len() - i,
    {
        let a = args[i].as_str();
        let is_help = same_text(a, "--help") || same_text(a, "-h");
        let is_dry = same_text(a, "--dry-run") || same_text(a, "-n");
        let ghost before = string_views(unknown@);
        assert(views[i as int] == a@);
        assert(views.take(i + 1).drop_last() =~= views.take(i as int));
        if is_help {
            help = true;
        }
        if is_dry {
            dry_run = true;
        }
        if !is_help && !is_dry {
            unknown.push(copy_string(&args[i]));
            assert(string_views(unknown@) =~= before.push(a@));
        }
        i = i + 1;
    }
    assert(views.take(args.len() as int) =~= views);
    if help {
        CliAction::Help
    } else if unknown.len() > 0 {
        CliAction::Unknown(unknown)
    } else {
        CliAction::Run { dry_run }
    }
}

/// Arguments that are all `--dry-run` or `-n` leave nothing unknown.
proof fn lemma_no_unknown_among_dry_run_flags(args: Seq<Seq<char>>)
    requires
        forall|i: int| 0 <= i < args.len() ==> #[trigger] args[i] == "--dry-run"@ || args[i] == "-n"@,
    ensures
        unknown_args(args).len() == 0,
    decreases args.len(),
{
    if args.len() > 0 {
        assert(args.last() == args[args.len() - 1]);
        assert forall|i: int| 0 <= i < args.drop_last().len() implies #[trigger] args.drop_last()[i]
            == "--dry-run"@ || args.drop_last()[i] == "-n"@ by {
            assert(args.drop_last()[i] == args[i]);
        }
        lemma_no_unknown_among_dry_run_flags(args.drop_last());
    }
}

/// `--help` or `-h` anywhere asks for the help text, whatever else is given.
pub proof fn lemma_help_wins(args: Seq<Seq<char>>, r: CliAction)
    requires
        cli_action_spec(args, r),
        exists|i: int| 0 <= i < args.len() && (#[trigger] args[i] == "--help"@ || args[i] == "-h"@),
    ensures
        r is Help,
{
    let i = choose|i: int| 0 <= i < args.len() && (#[trigger] args[i] == "--help"@ || args[i] == "-h"@);
    assert(is_help_flag(args[i]));
}

/// Given only `--dry-run` and `-n`, in any number and mix, the tool runs its
/// menu, as a dry run exactly when at least one of them is given: both
/// spellings turn the dry run on.
pub proof fn lemma_dry_run_spellings(args: Seq<Seq<char>>, r: CliAction)
    requires
        cli_action_spec(args, r),
        forall|i: int| 0 <= i < args.len() ==> #[trigger] args[i] == "--dry-run"@ || args[i] == "-n"@,
    ensures
        r matches CliAction::Run { dry_run } && dry_run == (args.len() > 0),
{
    lemma_no_unknown_among_dry_run_flags(args);
    if exists|i: int| 0 <= i < args.len() && is_help_flag(#[trigger] args[i]) {
        let i = choose|i: int| 0 <= i < args.len() && is_help_flag(#[trigger] args[i]);
        assert(args[i] == "--dry-run"@ || args[i] == "-n"@);
        reveal_strlit("--dry-run");
        reveal_strlit("-n");
        reveal_strlit("--help");
        reveal_strlit("-h");
        assert(args[i].len() == 9 || args[i].len() == 2);
        if args[i] == "--help"@ {
            assert(args[i].len() == 6);
        } else {
            assert(args[i] == "-h"@);
            assert(args[i][1] == 'h');
            assert("-n"@[1] == 'n');
            assert("--dry-run"@.len() == 9);
        }
        assert(false);
    }
    if args.len() > 0 {
        assert(is_dry_run_flag(args[0]));
    }
}

} // verus!
