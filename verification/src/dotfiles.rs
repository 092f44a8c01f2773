//! Where the dotfiles repository is cloned and stowed from, how clone progress
//! is reported, and the laptop set-up.
use vstd::prelude::*;
use crate::config::settings::{opt_view, Settings};
use crate::hardware::modules::{lemma_line_after_break, lines_of, split_lines};
use crate::text::{
    chars_of, concat, copy_string, is_prefix, is_ws, str_eq, str_to_string, string_from_range,
    trim, trim_end, trim_start, trim_str,
};

verus! {

// ---------------------------------------------------------------------------
// Paths
// ---------------------------------------------------------------------------

/// `base` joined with `rest` as `Path::join` does it: an absolute `rest`
/// replaces `base`; otherwise a `/` goes between them unless `base` is empty or
/// already ends with one.
pub open spec fn path_join(base: Seq<char>, rest: Seq<char>) -> Seq<char> {
    if rest.len() > 0 && rest[0] == '/' {
        rest
    } else if base.len() > 0 && base.last() != '/' {
        base + "/"@ + rest
    } else {
        base + rest
    }
}

/// `Path::join` on texts.
pub fn join_path(base: &str, rest: &str) -> (r: String)
    ensures
        r@ == path_join(base@, rest@),
{
    let b = chars_of(base);
    let x = chars_of(rest);
    if x.len() > 0 && x[0] == '/' {
        str_to_string(rest)
    } else if b.len() > 0 && b[b.len() - 1] != '/' {
        let t = concat(base, "/");
        concat(t.as_str(), rest)
    } else {
        concat(base, rest)
    }
}

/// A path under the home directory when it starts with `~/`: the rest joined
/// to `home`.
pub open spec fn expand_home(path: Seq<char>, home: Seq<char>) -> Seq<char> {
    if is_prefix("~/"@, path) {
        path_join(home, path.skip(2))
    } else {
        path
    }
}

/// The path with a leading `~/` resolved against `home`; `None` when it needs
/// the home directory and none is known.
pub fn expand_path(path: &str, home: Option<&str>) -> (r: Option<String>)
    ensures
        match r {
            Some(p) => home is Some && p@ == expand_home(path@, home.unwrap()@) || !is_prefix(
                "~/"@,
                path@,
            ) && p@ == path@,
            None => is_prefix("~/"@, path@) && home is None,
        },
{
    if crate::text::starts_with(path, "~/") {
        match home {
            Some(h) => {
                proof {
                    reveal_strlit("~/");
                }
                let v = chars_of(path);
                let rest = string_from_range(&v, 2, v.len());
                assert(rest@ == path@.skip(2));
                Some(join_path(h, rest.as_str()))
            },
            None => None,
        }
    } else {
        Some(str_to_string(path))
    }
}

/// A path with its leading `~` replaced by `home` when it starts with `~/`
/// (`str::replacen` of the first `~`).
pub open spec fn replace_home(path: Seq<char>, home: Seq<char>) -> Seq<char> {
    if is_prefix("~/"@, path) {
        home + path.skip(1)
    } else {
        path
    }
}

/// The path with a leading `~` replaced by `home` when it starts with `~/`;
/// `None` when that needs the home directory and none is known.
pub fn expand_tilde(path: &str, home: Option<&str>) -> (r: Option<String>)
    ensures
        match r {
            Some(p) => home is Some && p@ == replace_home(path@, home.unwrap()@) || !is_prefix(
                "~/"@,
                path@,
            ) && p@ == path@,
            None => is_prefix("~/"@, path@) && home is None,
        },
{
    if crate::text::starts_with(path, "~/") {
        match home {
            Some(h) => {
                proof {
                    reveal_strlit("~/");
                }
                let v = chars_of(path);
                let rest = string_from_range(&v, 1, v.len());
                assert(rest@ == path@.skip(1));
                Some(concat(h, rest.as_str()))
            },
            None => None,
        }
    } else {
        Some(str_to_string(path))
    }
}

// ---------------------------------------------------------------------------
// Cloning
// ---------------------------------------------------------------------------

/// What to clone, which branch, and where to.
pub struct CloneTarget {
    pub url: String,
    pub branch: String,
    pub path: String,
}

/// Why there is nothing to clone.
#[derive(Debug, PartialEq, Eq, Clone, Copy)]
pub enum CloneError {
    /// The configuration names no repository.
    NoRepository,
    /// The path starts with `~/` and the home directory is unknown.
    NoHome,
}

/// The message of an error that the library words itself.
pub fn no_repository_message() -> (r: String)
    ensures
        r@ == "No dotfiles repository configured"@,
{
    str_to_string("No dotfiles repository configured")
}

/// The branch to clone: the configured one, or `main`.
pub open spec fn branch_of(s: Settings) -> Seq<char> {
    match opt_view(s.git.branch) {
        Some(b) => b,
        None => "main"@,
    }
}

/// The configured dotfiles path, or `~/.dotfiles`.
pub open spec fn clone_path_of(s: Settings) -> Seq<char> {
    match opt_view(s.git.dotfiles_path) {
        Some(p) => p,
        None => "~/.dotfiles"@,
    }
}

/// The clone of the configured repository: the URL, the branch (default
/// `main`) and the path (default `~/.dotfiles`, a leading `~/` resolved against
/// `home`).
pub fn clone_target(s: &Settings, home: Option<&str>) -> (r: Result<CloneTarget, CloneError>)
    ensures
        s.git.repo is None ==> r == Err::<CloneTarget, CloneError>(CloneError::NoRepository),
        s.git.repo is Some ==> match r {
            Ok(t) => {
                &&& t.url@ == s.git.repo.unwrap()@
                &&& t.branch@ == branch_of(*s)
                &&& (home is Some ==> t.path@ == expand_home(clone_path_of(*s), home.unwrap()@))
                &&& (!is_prefix("~/"@, clone_path_of(*s)) ==> t.path@ == clone_path_of(*s))
            },
            Err(e) => e == CloneError::NoHome && is_prefix("~/"@, clone_path_of(*s)) && home is None,
        },
        s.git.repo is Some && is_prefix("~/"@, clone_path_of(*s)) && home is None ==> r
            == Err::<CloneTarget, CloneError>(CloneError::NoHome),
{
    let url = match &s.git.repo {
        Some(u) => copy_string(u),
        None => return Err(CloneError::NoRepository),
    };
    let branch = match &s.git.branch {
        Some(b) => copy_string(b),
        None => str_to_string("main"),
    };
    let path_str = match &s.git.dotfiles_path {
        Some(p) => copy_string(p),
        None => str_to_string("~/.dotfiles"),
    };
    match expand_path(path_str.as_str(), home) {
        Some(path) => Ok(CloneTarget { url, branch, path }),
        None => Err(CloneError::NoHome),
    }
}

/// Whether the percentage of `received` objects can be computed without
/// overflow (the condition of [`transfer_percent`]).
pub fn percent_fits(received: usize) -> (r: bool)
    ensures
        r == (received * 100 <= usize::MAX),
{
    received <= usize::MAX / 100
}

/// The percentage of objects received, `0` while the total is unknown.
pub fn transfer_percent(received: usize, total: usize) -> (r: u64)
    requires
        received * 100 <= usize::MAX,
    ensures
        total > 0 ==> r as int == (received * 100) as int / (total as int),
        total == 0 ==> r == 0,
{
    if total > 0 {
        let p = received * 100 / total;
        p as u64
    } else {
        0
    }
}

/// The message shown for a progress line from the server: the text trimmed,
/// or nothing when that leaves it empty.
pub fn sideband_message(text: &str) -> (r: Option<String>)
    ensures
        match r {
            Some(m) => m@ == trim(text@) && m@.len() > 0,
            None => trim(text@).len() == 0,
        },
{
    let t = trim_str(text);
    if t.as_str().unicode_len() == 0 {
        None
    } else {
        Some(t)
    }
}

/// The ways the repository is cloned.
#[derive(Debug, PartialEq, Eq, Clone, Copy)]
pub enum CloneKind {
    /// A clone of the configured branch.
    Full,
    /// A clone of the last commit only.
    Shallow,
    /// A clone with a user name and password.
    Private,
}

/// What the progress bar says while a clone starts, when it ends, after a
/// success, and before the error of a failure.
pub open spec fn clone_texts(kind: CloneKind) -> (Seq<char>, Seq<char>, Seq<char>, Seq<char>) {
    match kind {
        CloneKind::Full => (
            "Cloning repository..."@,
            "Clone completed"@,
            "Repository cloned successfully on branch: "@,
            "Error while cloning dotfiles repository: "@,
        ),
        CloneKind::Shallow => (
            "Cloning repository (shallow clone)..."@,
            "Clone completed"@,
            "Repository cloned successfully (shallow clone)"@,
            "Failed to clone: "@,
        ),
        CloneKind::Private => (
            "Cloning private repository..."@,
            "Private clone completed"@,
            "Private repository cloned successfully"@,
            "Failed to clone private repo: "@,
        ),
    }
}

/// The progress message when a clone starts.
pub fn clone_start_message(kind: CloneKind) -> (r: String)
    ensures
        r@ == clone_texts(kind).0,
{
    match kind {
        CloneKind::Full => str_to_string("Cloning repository..."),
        CloneKind::Shallow => str_to_string("Cloning repository (shallow clone)..."),
        CloneKind::Private => str_to_string("Cloning private repository..."),
    }
}

/// The progress message when a clone ends.
pub fn clone_done_message(kind: CloneKind) -> (r: String)
    ensures
        r@ == clone_texts(kind).1,
{
    match kind {
        CloneKind::Private => str_to_string("Private clone completed"),
        _ => str_to_string("Clone completed"),
    }
}

/// The message after a successful clone; a full clone names its branch.
pub fn clone_success_message(kind: CloneKind, branch: &str) -> (r: String)
    ensures
        kind == CloneKind::Full ==> r@ == clone_texts(kind).2 + branch@,
        kind != CloneKind::Full ==> r@ == clone_texts(kind).2,
{
    match kind {
        CloneKind::Full => concat("Repository cloned successfully on branch: ", branch),
        CloneKind::Shallow => str_to_string("Repository cloned successfully (shallow clone)"),
        CloneKind::Private => str_to_string("Private repository cloned successfully"),
    }
}

/// The error of a failed clone, with the message of the cause.
pub fn clone_error_message(kind: CloneKind, cause: &str) -> (r: String)
    ensures
        r@ == clone_texts(kind).3 + cause@,
{
    match kind {
        CloneKind::Full => concat("Error while cloning dotfiles repository: ", cause),
        CloneKind::Shallow => concat("Failed to clone: ", cause),
        CloneKind::Private => concat("Failed to clone private repo: ", cause),
    }
}

/// The message naming the branch the clone is on.
pub fn current_branch_message(name: &str) -> (r: String)
    ensures
        r@ == "Current branch: "@ + name@,
{
    concat("Current branch: ", name)
}

/// The progress message while objects arrive: `Receiving objects: RECEIVED/TOTAL`.
pub fn receiving_message(received: usize, total: usize) -> (r: String)
    ensures
        r@ == "Receiving objects: "@ + crate::text::decimal(received as nat) + "/"@
            + crate::text::decimal(total as nat),
{
    let a = crate::text::usize_to_string(received);
    let b = concat("Receiving objects: ", a.as_str());
    let c = concat(b.as_str(), "/");
    let d = crate::text::usize_to_string(total);
    concat(c.as_str(), d.as_str())
}

// ---------------------------------------------------------------------------
// Stowing
// ---------------------------------------------------------------------------

/// Where `stow` runs and where it links to.
pub struct StowPlan {
    pub stow_dir: String,
    pub target_dir: String,
}

/// Why `stow` cannot run.
#[derive(Debug, PartialEq, Eq, Clone, Copy)]
pub enum StowError {
    /// The home directory is unknown.
    NoHome,
    /// The configuration names no dotfiles path.
    NotConfigured,
}

/// The message when no dotfiles path is configured.
pub fn not_configured_message() -> (r: String)
    ensures
        r@ == "Dotfiles path not configured"@,
{
    str_to_string("Dotfiles path not configured")
}

/// The directories of `stow`: the configured dotfiles path, a leading `~/`
/// resolved against `home`, linked into `home`. The home directory is needed
/// first, then the path.
pub fn stow_config(s: &Settings, home: Option<&str>) -> (r: Result<StowPlan, StowError>)
    ensures
        home is None ==> r == Err::<StowPlan, StowError>(StowError::NoHome),
        home is Some && s.git.dotfiles_path is None ==> r == Err::<StowPlan, StowError>(
            StowError::NotConfigured,
        ),
        home is Some && s.git.dotfiles_path is Some ==> match r {
            Ok(p) => p.stow_dir@ == expand_home(s.git.dotfiles_path.unwrap()@, home.unwrap()@)
                && p.target_dir@ == home.unwrap()@,
            Err(_) => false,
        },
{
    let h = match home {
        Some(h) => h,
        None => return Err(StowError::NoHome),
    };
    let p = match &s.git.dotfiles_path {
        Some(p) => p,
        None => return Err(StowError::NotConfigured),
    };
    match expand_path(p.as_str(), Some(h)) {
        Some(dir) => Ok(StowPlan { stow_dir: dir, target_dir: str_to_string(h) }),
        None => Err(StowError::NoHome),
    }
}

/// The line shown before `stow` runs.
pub fn stow_message(plan: &StowPlan) -> (r: String)
    ensures
        r@ == "Stowing dotfiles from "@ + plan.stow_dir@ + " to "@ + plan.target_dir@,
{
    let a = concat("Stowing dotfiles from ", plan.stow_dir.as_str());
    let b = concat(a.as_str(), " to ");
    concat(b.as_str(), plan.target_dir.as_str())
}

// ---------------------------------------------------------------------------
// Laptop set-up
// ---------------------------------------------------------------------------

/// The line that loads the laptop module of the Hyprland configuration.
pub open spec fn source_line() -> Seq<char> {
    "source = ./modules/laptop.conf"@
}

/// The Hyprland configuration file, under the home directory.
pub fn hyprland_config_path(home: &str) -> (r: String)
    ensures
        r@ == path_join(home@, ".config/hypr/hyprland.conf"@),
{
    join_path(home, ".config/hypr/hyprland.conf")
}

/// Some line of the text, trimmed, is the source line.
pub open spec fn has_source_line(content: Seq<char>) -> bool {
    exists|i: int| 0 <= i < split_lines(content).len() && trim(#[trigger] split_lines(content)[i]) == source_line()
}

/// What to append to the Hyprland configuration (its text, when the file
/// exists): nothing when a line already loads the laptop module; else the
/// source line and a line break, after a line break when the file is not empty.
pub open spec fn laptop_append(existing: Option<Seq<char>>) -> Option<Seq<char>> {
    match existing {
        Some(c) => if has_source_line(c) {
            None
        } else if c.len() > 0 {
            Some("\n"@ + source_line() + "\n"@)
        } else {
            Some(source_line() + "\n"@)
        },
        None => Some(source_line() + "\n"@),
    }
}

/// The characters of an optional text.
pub open spec fn opt_str_view(o: Option<&str>) -> Option<Seq<char>> {
    match o {
        Some(c) => Some(c@),
        None => None,
    }
}

/// The text to append to the Hyprland configuration, if any.
pub fn laptop_mode(existing: Option<&str>) -> (r: Option<String>)
    ensures
        match r {
            Some(t) => laptop_append(opt_str_view(existing)) == Some(t@),
            None => laptop_append(opt_str_view(existing)) is None,
        },
{
    let line = "source = ./modules/laptop.conf";
    match existing {
        Some(c) => {
            let lines = lines_of(c);
            let mut i: usize = 0;
            while i < lines.len()
                invariant
                    i <= lines@.len(),
                    crate::text::views(lines@) == split_lines(c@),
                    line@ == source_line(),
                    opt_str_view(existing) == Some(c@),
                    forall|k: int| 0 <= k < i ==> trim(#[trigger] split_lines(c@)[k]) != source_line(),
                decreases lines.len() - i,
            {
                let t = trim_str(lines[i].as_str());
                assert(lines@[i as int]@ == split_lines(c@)[i as int]);
                if str_eq(t.as_str(), line) {
                    assert(trim(split_lines(c@)[i as int]) == source_line());
                    assert(has_source_line(c@));
                    return None;
                }
                i = i + 1;
            }
            let l = concat(line, "\n");
            if c.unicode_len() > 0 {
                Some(concat("\n", l.as_str()))
            } else {
                Some(l)
            }
        },
        None => Some(concat(line, "\n")),
    }
}

/// A step of the laptop set-up.
#[derive(Debug, PartialEq, Eq, Clone, Copy)]
pub enum LaptopStep {
    /// Enable the TLP service.
    EnableTlp,
    /// Install the auto-cpufreq service.
    EnableAutoCpufreq,
    /// Load the laptop module of the Hyprland configuration.
    LaptopMode,
}

/// The steps of the laptop set-up, in order: TLP if enabled, auto-cpufreq if
/// enabled, then the Hyprland laptop module.
pub open spec fn laptop_steps(tlp: bool, cpufreq: bool) -> Seq<LaptopStep> {
    (if tlp {
        seq![LaptopStep::EnableTlp]
    } else {
        Seq::empty()
    }) + (if cpufreq {
        seq![LaptopStep::EnableAutoCpufreq]
    } else {
        Seq::empty()
    }) + seq![LaptopStep::LaptopMode]
}

/// The steps of the laptop set-up for the settings.
pub fn configure_laptop(s: &Settings) -> (r: Vec<LaptopStep>)
    ensures
        r@ == laptop_steps(s.laptop.enable_tlp, s.laptop.enable_auto_cpufreq),
{
    let mut v: Vec<LaptopStep> = Vec::new();
    if s.laptop.enable_tlp {
        v.push(LaptopStep::EnableTlp);
    }
    if s.laptop.enable_auto_cpufreq {
        v.push(LaptopStep::EnableAutoCpufreq);
    }
    v.push(LaptopStep::LaptopMode);
    assert(v@ =~= laptop_steps(s.laptop.enable_tlp, s.laptop.enable_auto_cpufreq));
    v
}

/// The laptop set-up is idempotent: once the text it appends is in the file,
/// it appends nothing more.
pub proof fn law_laptop_mode_idempotent(existing: Option<Seq<char>>)
    requires
        laptop_append(existing) is Some,
    ensures
        laptop_append(
            Some(
                match existing {
                    Some(c) => c,
                    None => Seq::empty(),
                } + laptop_append(existing).unwrap(),
            ),
        ) is None,
{
    let c = match existing {
        Some(c) => c,
        None => Seq::empty(),
    };
    let t = laptop_append(existing).unwrap();
    let l = source_line();
    let s = c + t;
    reveal_strlit("source = ./modules/laptop.conf");
    reveal_strlit("\n");
    // the start of the appended line
    let j: int = if t.len() == l.len() + 1 { c.len() as int } else { c.len() + 1int };
    assert(t.len() == l.len() + 1 || t.len() == l.len() + 2);
    assert(s.subrange(j, j + l.len()) =~= l);
    assert(s[j + l.len()] == '\n');
    assert(j == 0 || s[j - 1] == '\n');
    assert(forall|k: int| 0 <= k < l.len() ==> l[k] != '\n');
    lemma_line_after_break(s, j, l.len() as int);
    let i = choose|i: int| 0 <= i < split_lines(s).len() && split_lines(s)[i] == l;
    assert(l.len() > 0 && !is_ws(l[0]));
    assert(trim_start(l) == l);
    assert(trim_end(l) == l);
    assert(trim(split_lines(s)[i]) == l);
}

} // verus!
