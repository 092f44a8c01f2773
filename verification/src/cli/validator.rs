//! Checks on the command-line arguments before anything runs.
use vstd::prelude::*;
use crate::cli::args::{Args, Commands};
use crate::text::{alphabetic, concat, is_alphanumeric, lemma_views_push, numeric, str_to_string, views};

verus! {

/// A character allowed in a group name: a letter, a digit, `_` or `-`.
pub open spec fn group_char(c: char) -> bool {
    alphabetic(c) || numeric(c) || c == '_' || c == '-'
}

/// The errors of one group name, in the order they are reported.
pub open spec fn group_errors(g: Seq<char>) -> Seq<Seq<char>> {
    (if g.len() == 0 {
        seq!["Group name cannot be empty"@]
    } else {
        Seq::empty()
    }) + (if !(forall|i: int| 0 <= i < g.len() ==> group_char(#[trigger] g[i])) {
        seq!["Invalid group name '"@ + g + "': only letters, numbers, _ and - allowed"@]
    } else {
        Seq::empty()
    })
}

/// The errors of the group names, one name after the other.
pub open spec fn groups_errors(gs: Seq<Seq<char>>) -> Seq<Seq<char>>
    decreases gs.len(),
{
    if gs.len() == 0 {
        Seq::empty()
    } else {
        groups_errors(gs.drop_last()) + group_errors(gs.last())
    }
}

/// An error for each empty package name.
pub open spec fn package_errors(ps: Seq<Seq<char>>) -> Seq<Seq<char>>
    decreases ps.len(),
{
    if ps.len() == 0 {
        Seq::empty()
    } else {
        package_errors(ps.drop_last()) + (if ps.last().len() == 0 {
            seq!["Package name cannot be empty"@]
        } else {
            Seq::empty()
        })
    }
}

/// The errors of a subcommand.
pub open spec fn command_errors(cmd: Commands) -> Seq<Seq<char>> {
    match cmd {
        Commands::List(a) => if a.aur && a.pacman {
            seq!["Cannot use --aur and --pacman together"@]
        } else {
            Seq::empty()
        },
        Commands::Install(a) => (if a.packages@.len() == 0 {
            seq!["No packages specified for installation"@]
        } else {
            Seq::empty()
        }) + package_errors(views(a.packages@)),
        Commands::Remove(a) => if a.packages@.len() == 0 {
            seq!["No packages specified for removal"@]
        } else {
            Seq::empty()
        },
        Commands::Init(a) => if a.path@.len() == 0 {
            seq!["Path cannot be empty"@]
        } else {
            Seq::empty()
        },
    }
}

/// All errors of the arguments, in order: the configuration path, the group
/// names, then the subcommand.
pub open spec fn arg_errors(args: Args) -> Seq<Seq<char>> {
    (match args.config {
        Some(p) => if p@.len() == 0 {
            seq!["Config path cannot be empty"@]
        } else {
            Seq::empty()
        },
        None => Seq::empty(),
    }) + groups_errors(views(args.groups@)) + (match args.command {
        Some(c) => command_errors(c),
        None => Seq::empty(),
    })
}

/// A group name is accepted when it is not empty and made only of letters,
/// digits, `_` and `-`.
pub open spec fn group_ok(g: Seq<char>) -> bool {
    g.len() > 0 && forall|i: int| 0 <= i < g.len() ==> group_char(#[trigger] g[i])
}

/// A subcommand is accepted when `list` is not asked for AUR and official
/// packages at once, `install` names packages and none of them is empty,
/// `remove` names packages, and `init` has a path.
pub open spec fn command_ok(cmd: Commands) -> bool {
    match cmd {
        Commands::List(a) => !(a.aur && a.pacman),
        Commands::Install(a) => a.packages@.len() > 0 && forall|i: int|
            0 <= i < a.packages@.len() ==> (#[trigger] a.packages@[i])@.len() > 0,
        Commands::Remove(a) => a.packages@.len() > 0,
        Commands::Init(a) => a.path@.len() > 0,
    }
}

proof fn lemma_groups_errors_empty(gs: Seq<Seq<char>>)
    ensures
        groups_errors(gs).len() == 0 <==> forall|i: int| 0 <= i < gs.len() ==> group_ok(#[trigger] gs[i]),
    decreases gs.len(),
{
    if gs.len() > 0 {
        let d = gs.drop_last();
        lemma_groups_errors_empty(d);
        if forall|i: int| 0 <= i < gs.len() ==> group_ok(#[trigger] gs[i]) {
            assert forall|i: int| 0 <= i < d.len() implies group_ok(#[trigger] d[i]) by {
                assert(d[i] == gs[i]);
            }
            assert(group_ok(gs[gs.len() - 1]));
        } else {
            let i = choose|i: int| 0 <= i < gs.len() && !group_ok(#[trigger] gs[i]);
            if i < d.len() {
                assert(d[i] == gs[i]);
            }
        }
    }
}

proof fn lemma_package_errors_empty(ps: Seq<Seq<char>>)
    ensures
        package_errors(ps).len() == 0 <==> forall|i: int| 0 <= i < ps.len() ==> (#[trigger] ps[i]).len() > 0,
    decreases ps.len(),
{
    if ps.len() > 0 {
        let d = ps.drop_last();
        lemma_package_errors_empty(d);
        if forall|i: int| 0 <= i < ps.len() ==> (#[trigger] ps[i]).len() > 0 {
            assert forall|i: int| 0 <= i < d.len() implies (#[trigger] d[i]).len() > 0 by {
                assert(d[i] == ps[i]);
            }
            assert(ps[ps.len() - 1].len() > 0);
        } else {
            let i = choose|i: int| 0 <= i < ps.len() && !((#[trigger] ps[i]).len() > 0);
            if i < d.len() {
                assert(d[i] == ps[i]);
            }
        }
    }
}

/// The arguments are accepted exactly when a configuration path, if given, is
/// not empty, every group name is accepted, and the subcommand, if any, is
/// accepted.
pub proof fn law_arguments_accepted(args: Args)
    ensures
        arg_errors(args).len() == 0 <==> ({
            &&& (args.config matches Some(p) ==> p@.len() > 0)
            &&& forall|i: int| 0 <= i < args.groups@.len() ==> group_ok(#[trigger] args.groups@[i]@)
            &&& (args.command matches Some(c) ==> command_ok(c))
        }),
{
    let gs = views(args.groups@);
    lemma_groups_errors_empty(gs);
    assert forall|i: int| 0 <= i < args.groups@.len() implies gs[i] == args.groups@[i]@ by {}
    if forall|i: int| 0 <= i < args.groups@.len() ==> group_ok(#[trigger] args.groups@[i]@) {
        assert forall|i: int| 0 <= i < gs.len() implies group_ok(#[trigger] gs[i]) by {
            assert(gs[i] == args.groups@[i]@);
        }
    }
    if forall|i: int| 0 <= i < gs.len() ==> group_ok(#[trigger] gs[i]) {
        assert forall|i: int| 0 <= i < args.groups@.len() implies group_ok(#[trigger] args.groups@[i]@) by {
            assert(gs[i] == args.groups@[i]@);
        }
    }
    match args.command {
        Some(Commands::Install(a)) => {
            let ps = views(a.packages@);
            lemma_package_errors_empty(ps);
            assert forall|i: int| 0 <= i < a.packages@.len() implies ps[i] == (#[trigger] a.packages@[i])@ by {}
        },
        _ => {},
    }
}

fn push_error(errors: &mut Vec<String>, msg: String)
    ensures
        views(final(errors)@) == views(old(errors)@).push(msg@),
{
    let ghost before = errors@;
    errors.push(msg);
    proof {
        lemma_views_push(before, msg);
    }
}

fn all_group_chars(g: &str) -> (r: bool)
    ensures
        r == forall|i: int| 0 <= i < g@.len() ==> group_char(#[trigger] g@[i]),
{
    let v = crate::text::chars_of(g);
    let mut i: usize = 0;
    while i < v.len()
        invariant
            v@ == g@,
            i <= v@.len(),
            forall|k: int| 0 <= k < i ==> group_char(#[trigger] g@[k]),
        decreases v.len() - i,
    {
        let c = v[i];
        if !(is_alphanumeric(c) || c == '_' || c == '-') {
            assert(!group_char(g@[i as int]));
            return false;
        }
        i = i + 1;
    }
    true
}

/// Adds the errors of a subcommand.
fn validate_command(cmd: &Commands, errors: &mut Vec<String>)
    ensures
        views(final(errors)@) == views(old(errors)@) + command_errors(*cmd),
{
    let ghost e0 = views(errors@);
    match cmd {
        Commands::List(list_args) => {
            if list_args.aur && list_args.pacman {
                push_error(errors, str_to_string("Cannot use --aur and --pacman together"));
            }
        },
        Commands::Install(install_args) => {
            if install_args.packages.len() == 0 {
                push_error(errors, str_to_string("No packages specified for installation"));
            }
            let ghost e1 = views(errors@);
            let ghost ps = views(install_args.packages@);
            let mut i: usize = 0;
            assert(ps.subrange(0, 0) =~= Seq::<Seq<char>>::empty());
            while i < install_args.packages.len()
                invariant
                    i <= ps.len(),
                    ps == views(install_args.packages@),
                    views(errors@) == e1 + package_errors(ps.subrange(0, i as int)),
                decreases ps.len() - i,
            {
                assert(ps.subrange(0, i + 1).drop_last() =~= ps.subrange(0, i as int));
                if install_args.packages[i].as_str().is_empty() {
                    proof {
                        assert(ps[i as int].len() == 0);
                    }
                    push_error(errors, str_to_string("Package name cannot be empty"));
                }
                i = i + 1;
            }
            assert(ps.subrange(0, ps.len() as int) =~= ps);
        },
        Commands::Remove(remove_args) => {
            if remove_args.packages.len() == 0 {
                push_error(errors, str_to_string("No packages specified for removal"));
            }
        },
        Commands::Init(init_args) => {
            if init_args.path.as_str().is_empty() {
                push_error(errors, str_to_string("Path cannot be empty"));
            }
        },
    }
    assert(views(errors@) =~= e0 + command_errors(*cmd));
}

/// Checks the arguments: `Ok` when there is no error, else every error message in order.
pub fn validate_args(args: &Args) -> (r: Result<(), Vec<String>>)
    ensures
        arg_errors(*args).len() == 0 ==> r is Ok,
        arg_errors(*args).len() > 0 ==> r is Err,
        r matches Err(v) ==> views(v@) == arg_errors(*args),
{
    let mut errors: Vec<String> = Vec::new();
    assert(views(errors@) =~= Seq::<Seq<char>>::empty());
    match &args.config {
        Some(path) => {
            if path.as_str().is_empty() {
                push_error(&mut errors, str_to_string("Config path cannot be empty"));
            }
        },
        None => {},
    }
    let ghost e1 = views(errors@);
    let ghost gs = views(args.groups@);
    let mut i: usize = 0;
    assert(gs.subrange(0, 0) =~= Seq::<Seq<char>>::empty());
    while i < args.groups.len()
        invariant
            i <= gs.len(),
            gs == views(args.groups@),
            views(errors@) == e1 + groups_errors(gs.subrange(0, i as int)),
        decreases gs.len() - i,
    {
        let group = &args.groups[i];
        let ghost before = views(errors@);
        assert(gs.subrange(0, i + 1).drop_last() =~= gs.subrange(0, i as int));
        assert(gs[i as int] == group@);
        if group.as_str().is_empty() {
            push_error(&mut errors, str_to_string("Group name cannot be empty"));
        }
        if !all_group_chars(group.as_str()) {
            let a = concat("Invalid group name '", group.as_str());
            let m = concat(a.as_str(), "': only letters, numbers, _ and - allowed");
            push_error(&mut errors, m);
        }
        assert(views(errors@) =~= before + group_errors(group@));
        i = i + 1;
    }
    assert(gs.subrange(0, gs.len() as int) =~= gs);
    match &args.command {
        Some(cmd) => validate_command(cmd, &mut errors),
        None => {},
    }
    assert(views(errors@) =~= arg_errors(*args));
    if errors.len() == 0 {
        Ok(())
    } else {
        Err(errors)
    }
}

} // verus!
