//! What the subcommands compute before they print.
use vstd::prelude::*;
use crate::assoc::Table;
use crate::config::settings::{GroupView, PackageGroup};
use crate::cli::args::Commands;
use crate::dotfiles::{expand_tilde, replace_home};
use crate::text::{
    concat, contains_str, copy_string, debug_quoted, debug_str, has_sub, join, join_seq,
    lemma_views_push, views,
};

verus! {

/// A package that looks like an AUR build: its name holds `-bin` or `-git`.
pub open spec fn looks_aur(p: Seq<char>) -> bool {
    has_sub(p, "-bin"@) || has_sub(p, "-git"@)
}

/// How many packages `list` counts: with `--aur` those that look like AUR
/// builds, with `--pacman` the others, else all of them.
pub open spec fn counted(ps: Seq<Seq<char>>, aur: bool, pacman: bool) -> nat
    decreases ps.len(),
{
    if ps.len() == 0 {
        0
    } else {
        counted(ps.drop_last(), aur, pacman) + (if aur {
            if looks_aur(ps.last()) {
                1nat
            } else {
                0nat
            }
        } else if pacman {
            if !looks_aur(ps.last()) {
                1nat
            } else {
                0nat
            }
        } else {
            1nat
        })
    }
}

/// A line of the `list` table.
pub struct ListRow {
    pub name: String,
    pub package_count: usize,
    pub dependencies: String,
}

/// The row of one group: its name, the packages counted, its dependencies
/// joined with `, `.
pub open spec fn row_of(name: Seq<char>, g: GroupView, aur: bool, pacman: bool, r: ListRow) -> bool {
    &&& r.name@ == name
    &&& r.package_count == counted(g.packages, aur, pacman)
    &&& r.dependencies@ == join_seq(g.dependencies, ", "@)
}

fn count_packages(packages: &Vec<String>, aur: bool, pacman: bool) -> (n: usize)
    ensures
        n == counted(views(packages@), aur, pacman),
{
    let ghost ps = views(packages@);
    let mut n: usize = 0;
    let mut i: usize = 0;
    assert(ps.subrange(0, 0) =~= Seq::<Seq<char>>::empty());
    while i < packages.len()
        invariant
            i <= ps.len(),
            ps == views(packages@),
            n == counted(ps.subrange(0, i as int), aur, pacman),
            n <= i,
        decreases ps.len() - i,
    {
        assert(ps.subrange(0, i + 1).drop_last() =~= ps.subrange(0, i as int));
        let p = packages[i].as_str();
        let a = contains_str(p, "-bin") || contains_str(p, "-git");
        if aur {
            if a {
                n = n + 1;
            }
        } else if pacman {
            if !a {
                n = n + 1;
            }
        } else {
            n = n + 1;
        }
        i = i + 1;
    }
    assert(ps.subrange(0, ps.len() as int) =~= ps);
    n
}

/// The rows of `list`, one per group in the table's order.
pub fn list_rows(groups: &Table<PackageGroup>, aur: bool, pacman: bool) -> (r: Vec<ListRow>)
    ensures
        r@.len() == groups@.len(),
        forall|i: int| 0 <= i < r@.len() ==> row_of(groups@[i].0, groups@[i].1, aur, pacman, #[trigger] r@[i]),
{
    let mut rows: Vec<ListRow> = Vec::new();
    let mut i: usize = 0;
    while i < groups.len()
        invariant
            i <= groups@.len(),
            rows@.len() == i,
            forall|k: int| 0 <= k < i ==> row_of(groups@[k].0, groups@[k].1, aur, pacman, #[trigger] rows@[k]),
        decreases groups@.len() - i,
    {
        let name = groups.key_at(i);
        let group = groups.value_at(i);
        let row = ListRow {
            name: copy_string(name),
            package_count: count_packages(&group.packages, aur, pacman),
            dependencies: join(&group.dependencies, ", "),
        };
        rows.push(row);
        i = i + 1;
    }
    rows
}

/// A list of texts as `{:?}` shows it: each text quoted, separated by `, `,
/// in square brackets.
pub open spec fn debug_list(v: Seq<Seq<char>>) -> Seq<char> {
    "["@ + join_seq(v.map_values(|s: Seq<char>| debug_quoted(s)), ", "@) + "]"@
}

/// A list of texts as `{:?}` shows it.
pub fn debug_strings(v: &Vec<String>) -> (r: String)
    ensures
        r@ == debug_list(views(v@)),
{
    let mut q: Vec<String> = Vec::new();
    let mut i: usize = 0;
    while i < v.len()
        invariant
            i <= v@.len(),
            views(q@) == views(v@).subrange(0, i as int).map_values(|s: Seq<char>| debug_quoted(s)),
        decreases v.len() - i,
    {
        let ghost before = q@;
        let d = debug_str(v[i].as_str());
        q.push(d);
        proof {
            lemma_views_push(before, d);
        }
        assert(views(q@) =~= views(v@).subrange(0, i + 1).map_values(|s: Seq<char>| debug_quoted(s)));
        i = i + 1;
    }
    assert(views(v@).subrange(0, v@.len() as int) =~= views(v@));
    let j = join(&q, ", ");
    let a = concat("[", j.as_str());
    concat(a.as_str(), "]")
}

/// What a subcommand does: print a line, or list the package groups of the
/// configuration at a path.
pub enum SubcommandPlan {
    Print(String),
    List { config_path: String, aur: bool, pacman: bool },
    /// Print the message, then write the example configuration to the path.
    CreateConfig { message: String, path: String, contents: String },
}

/// The example configuration that `init` writes: every setting the installer
/// reads, in the configuration language.
pub open spec fn example_config() -> Seq<char> {
    "// Example configuration of dotfiles-installer\n\n// The dotfiles repository\ngit.repo = \"https://github.com/user/dotfiles\"\ngit.branch = \"main\"\ngit.dotfiles_path = \"~/.dotfiles\"\n\n// Laptop services\nlaptop.enable_tlp = \"true\"\nlaptop.enable_auto_cpufreq = \"false\"\n\n// Package groups; a group whose dependencies reach the group `aur` is built from the AUR\npackages.base = [\"git\", \"stow\", \"neovim\"]\npackages.aur = [\"paru-bin\"]\npackages.desktop = [\"hyprland\", \"waybar\"]\ndependencies.desktop = [\"base\"]\n\n// More files to read; this file wins over them\ninclude = []\n"@
}

/// The text of the example configuration.
pub fn example_config_text() -> (r: String)
    ensures
        r@ == example_config(),
{
    crate::text::str_to_string(
        "// Example configuration of dotfiles-installer\n\n// The dotfiles repository\ngit.repo = \"https://github.com/user/dotfiles\"\ngit.branch = \"main\"\ngit.dotfiles_path = \"~/.dotfiles\"\n\n// Laptop services\nlaptop.enable_tlp = \"true\"\nlaptop.enable_auto_cpufreq = \"false\"\n\n// Package groups; a group whose dependencies reach the group `aur` is built from the AUR\npackages.base = [\"git\", \"stow\", \"neovim\"]\npackages.aur = [\"paru-bin\"]\npackages.desktop = [\"hyprland\", \"waybar\"]\ndependencies.desktop = [\"base\"]\n\n// More files to read; this file wins over them\ninclude = []\n",
    )
}

/// The configuration file that `list` reads.
pub open spec fn list_config_path() -> Seq<char> {
    "~/.config/dotfiles-installer/config.toml"@
}

/// The work of a subcommand. `init` writes the example configuration to its
/// path; `install` and `remove` print what they would do; `list` reads the configuration under the home directory, and
/// fails (`None`) when the home directory is unknown.
pub fn handle_subcommand(cmd: &Commands, home: Option<&str>) -> (r: Option<SubcommandPlan>)
    ensures
        match cmd {
            Commands::Init(a) => r matches Some(
                SubcommandPlan::CreateConfig { message: m, path: p, contents: c },
            ) && m@ == "Creating example config at: "@ + a.path@ && p@ == a.path@ && c@
                == example_config(),
            Commands::Install(a) => r matches Some(SubcommandPlan::Print(m)) && m@
                == "Installing packages: "@ + debug_list(views(a.packages@)),
            Commands::Remove(a) => r matches Some(SubcommandPlan::Print(m)) && m@
                == "Removing packages: "@ + debug_list(views(a.packages@)),
            Commands::List(a) => match home {
                Some(h) => r matches Some(SubcommandPlan::List { config_path: p, aur, pacman })
                    && p@ == replace_home(list_config_path(), h@) && aur == a.aur && pacman
                    == a.pacman,
                None => r is None,
            },
        },
{
    match cmd {
        Commands::Init(a) => Some(
            SubcommandPlan::CreateConfig {
                message: concat("Creating example config at: ", a.path.as_str()),
                path: copy_string(&a.path),
                contents: example_config_text(),
            },
        ),
        Commands::Install(a) => {
            let l = debug_strings(&a.packages);
            Some(SubcommandPlan::Print(concat("Installing packages: ", l.as_str())))
        },
        Commands::Remove(a) => {
            let l = debug_strings(&a.packages);
            Some(SubcommandPlan::Print(concat("Removing packages: ", l.as_str())))
        },
        Commands::List(a) => {
            proof {
                reveal_strlit("~/.config/dotfiles-installer/config.toml");
                reveal_strlit("~/");
                assert(list_config_path().subrange(0, 2) =~= "~/"@);
            }
            match expand_tilde("~/.config/dotfiles-installer/config.toml", home) {
                Some(p) => Some(SubcommandPlan::List { config_path: p, aur: a.aur, pacman: a.pacman }),
                None => None,
            }
        },
    }
}

/// `s` filled up with `fill` to `width` characters, as `{:<width}` does.
pub open spec fn pad_right(s: Seq<char>, width: nat, fill: char) -> Seq<char> {
    if s.len() >= width {
        s
    } else {
        s + Seq::new((width - s.len()) as nat, |i: int| fill)
    }
}

/// A text filled up to a width.
pub fn pad(s: &str, width: usize, fill: char) -> (r: String)
    ensures
        r@ == pad_right(s@, width as nat, fill),
{
    let mut r = crate::text::str_to_string(s);
    let n = s.unicode_len();
    if n >= width {
        return r;
    }
    let mut k: usize = n;
    while k < width
        invariant
            n == s@.len(),
            n <= k <= width,
            r@ == s@ + Seq::new((k - n) as nat, |i: int| fill),
        decreases width - k,
    {
        crate::text::push_char(&mut r, fill);
        assert(s@ + Seq::new((k + 1 - n) as nat, |i: int| fill) =~= (s@ + Seq::new(
            (k - n) as nat,
            |i: int| fill,
        )).push(fill));
        k = k + 1;
    }
    r
}

/// The lines of the `list` table: a header, a rule, then one line per row
/// (name in 15 columns, count in 10, then the dependencies).
pub open spec fn table_line(a: Seq<char>, b: Seq<char>, c: Seq<char>) -> Seq<char> {
    pad_right(a, 15, ' ') + " "@ + pad_right(b, 10, ' ') + " "@ + c
}

/// The header and the rule of the `list` table.
pub fn table_head() -> (r: (String, String))
    ensures
        r.0@ == table_line("Group"@, "Packages"@, "Dependencies"@),
        r.1@ == pad_right(Seq::empty(), 15, '-') + " "@ + pad_right(Seq::empty(), 10, '-') + " "@
            + pad_right(Seq::empty(), 20, '-'),
{
    let a = pad("Group", 15, ' ');
    let b = concat(a.as_str(), " ");
    let c = pad("Packages", 10, ' ');
    let d = concat(b.as_str(), c.as_str());
    let e = concat(d.as_str(), " ");
    let head = concat(e.as_str(), "Dependencies");
    let x = pad("", 15, '-');
    let y = concat(x.as_str(), " ");
    let z = pad("", 10, '-');
    let w = concat(y.as_str(), z.as_str());
    let u = concat(w.as_str(), " ");
    let t = pad("", 20, '-');
    let rule = concat(u.as_str(), t.as_str());
    proof {
        reveal_strlit("");
    }
    (head, rule)
}

/// The line of one row of the `list` table.
pub fn table_row(row: &ListRow) -> (r: String)
    ensures
        r@ == table_line(row.name@, crate::text::decimal(row.package_count as nat), row.dependencies@),
{
    let a = pad(row.name.as_str(), 15, ' ');
    let b = concat(a.as_str(), " ");
    let n = crate::text::usize_to_string(row.package_count);
    let c = pad(n.as_str(), 10, ' ');
    let d = concat(b.as_str(), c.as_str());
    let e = concat(d.as_str(), " ");
    concat(e.as_str(), row.dependencies.as_str())
}

} // verus!
