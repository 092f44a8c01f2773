//! Turning the assignments of a configuration into settings.
use vstd::prelude::*;
use crate::assoc::{assoc_insert, has_key, lemma_lookup, lookup, unique_keys, Duplicate, Table};
use crate::config::parser::{ConfigMap, Value, ValueView};
use crate::config::settings::{
    opt_view, GitSettings, GroupView, LaptopSettings, PackageGroup, Settings, SystemSettings,
};
use crate::text::{
    concat, copy_string, copy_strings, debug_quoted, debug_str, is_prefix, join, join_seq,
    lemma_views_push, starts_with, str_eq, trim_prefix_all, trim_start_matches, views,
};

verus! {

// ---------------------------------------------------------------------------
// The meaning of the assignments
// ---------------------------------------------------------------------------

/// How a value prints with `{:?}`.
pub open spec fn value_debug(v: ValueView) -> Seq<char> {
    match v {
        ValueView::Str(x) => "String("@ + debug_quoted(x) + ")"@,
        ValueView::List(xs) => "List(["@ + join_seq(
            Seq::new(xs.len(), |i: int| debug_quoted(xs[i])),
            ", "@,
        ) + "])"@,
    }
}

/// A value read where a text is expected.
pub open spec fn string_of(v: ValueView) -> Result<Seq<char>, Seq<char>> {
    match v {
        ValueView::Str(x) => Ok(x),
        _ => Err("Expected string, got "@ + value_debug(v)),
    }
}

/// A value read where a boolean is expected: the text `true` or `false`.
pub open spec fn bool_of(v: ValueView) -> Result<bool, Seq<char>> {
    match v {
        ValueView::Str(x) => if x == "true"@ {
            Ok(true)
        } else if x == "false"@ {
            Ok(false)
        } else {
            Err("Expected boolean, got "@ + value_debug(v))
        },
        _ => Err("Expected boolean, got "@ + value_debug(v)),
    }
}

/// A value read where a list is expected.
pub open spec fn list_of(v: ValueView) -> Result<Seq<Seq<char>>, Seq<char>> {
    match v {
        ValueView::List(xs) => Ok(xs),
        _ => Err("Expected list, got "@ + value_debug(v)),
    }
}

/// What the assignments read so far have set.
pub struct BuildState {
    pub repo: Option<Seq<char>>,
    pub branch: Option<Seq<char>>,
    pub dotfiles_path: Option<Seq<char>>,
    pub enable_tlp: bool,
    pub enable_auto_cpufreq: bool,
    pub packages: Seq<(Seq<char>, Seq<Seq<char>>)>,
    pub dependencies: Seq<(Seq<char>, Seq<Seq<char>>)>,
}

/// Nothing set yet.
pub open spec fn initial_build() -> BuildState {
    BuildState {
        repo: None,
        branch: None,
        dotfiles_path: None,
        enable_tlp: false,
        enable_auto_cpufreq: false,
        packages: Seq::empty(),
        dependencies: Seq::empty(),
    }
}

/// The effect of one assignment. Keys under `git.` and `laptop.` set those
/// settings; `packages.NAME` and `dependencies.NAME` set a group's packages and
/// dependencies (every leading `packages.` or `dependencies.` is removed from the
/// name); other keys are ignored. A value of the wrong kind is an error.
pub open spec fn apply_entry(st: BuildState, key: Seq<char>, v: ValueView) -> Result<
    BuildState,
    Seq<char>,
> {
    if is_prefix("git."@, key) {
        if key == "git.repo"@ {
            match string_of(v) {
                Ok(x) => Ok(BuildState { repo: Some(x), ..st }),
                Err(m) => Err(m),
            }
        } else if key == "git.branch"@ {
            match string_of(v) {
                Ok(x) => Ok(BuildState { branch: Some(x), ..st }),
                Err(m) => Err(m),
            }
        } else if key == "git.dotfiles_path"@ {
            match string_of(v) {
                Ok(x) => Ok(BuildState { dotfiles_path: Some(x), ..st }),
                Err(m) => Err(m),
            }
        } else {
            Ok(st)
        }
    } else if is_prefix("laptop."@, key) {
        if key == "laptop.enable_tlp"@ {
            match bool_of(v) {
                Ok(b) => Ok(BuildState { enable_tlp: b, ..st }),
                Err(m) => Err(m),
            }
        } else if key == "laptop.enable_auto_cpufreq"@ {
            match bool_of(v) {
                Ok(b) => Ok(BuildState { enable_auto_cpufreq: b, ..st }),
                Err(m) => Err(m),
            }
        } else {
            Ok(st)
        }
    } else if is_prefix("packages."@, key) {
        match list_of(v) {
            Ok(l) => Ok(
                BuildState {
                    packages: assoc_insert(st.packages, trim_prefix_all(key, "packages."@), l),
                    ..st
                },
            ),
            Err(m) => Err(m),
        }
    } else if is_prefix("dependencies."@, key) {
        match list_of(v) {
            Ok(l) => Ok(
                BuildState {
                    dependencies: assoc_insert(
                        st.dependencies,
                        trim_prefix_all(key, "dependencies."@),
                        l,
                    ),
                    ..st
                },
            ),
            Err(m) => Err(m),
        }
    } else {
        Ok(st)
    }
}

/// The effect of the assignments in order; the first error stops.
pub open spec fn apply_all(e: Seq<(Seq<char>, ValueView)>) -> Result<BuildState, Seq<char>>
    decreases e.len(),
{
    if e.len() == 0 {
        Ok(initial_build())
    } else {
        match apply_all(e.drop_last()) {
            Ok(st) => apply_entry(st, e.last().0, e.last().1),
            Err(m) => Err(m),
        }
    }
}

/// The groups that have packages, in order, each with the dependencies given for
/// it (none if none were given).
pub open spec fn paired_groups(
    pk: Seq<(Seq<char>, Seq<Seq<char>>)>,
    dp: Seq<(Seq<char>, Seq<Seq<char>>)>,
) -> Seq<(Seq<char>, GroupView)> {
    Seq::new(
        pk.len(),
        |i: int|
            (
                pk[i].0,
                GroupView {
                    packages: pk[i].1,
                    dependencies: match lookup(dp, pk[i].0) {
                        Some(d) => d,
                        None => Seq::empty(),
                    },
                },
            ),
    )
}

/// The groups that only have dependencies, in order, with no packages.
pub open spec fn orphan_groups(
    pk: Seq<(Seq<char>, Seq<Seq<char>>)>,
    dp: Seq<(Seq<char>, Seq<Seq<char>>)>,
) -> Seq<(Seq<char>, GroupView)>
    decreases dp.len(),
{
    if dp.len() == 0 {
        Seq::empty()
    } else {
        let rest = orphan_groups(pk, dp.drop_last());
        if has_key(pk, dp.last().0) {
            rest
        } else {
            rest.push((dp.last().0, GroupView { packages: Seq::empty(), dependencies: dp.last().1 }))
        }
    }
}

/// All groups: first those with packages, then those with dependencies only.
pub open spec fn combine_groups(
    pk: Seq<(Seq<char>, Seq<Seq<char>>)>,
    dp: Seq<(Seq<char>, Seq<Seq<char>>)>,
) -> Seq<(Seq<char>, GroupView)> {
    paired_groups(pk, dp) + orphan_groups(pk, dp)
}

/// `s` holds what `st` describes, with no system settings.
pub open spec fn settings_from(s: Settings, st: BuildState) -> bool {
    &&& opt_view(s.git.repo) == st.repo
    &&& opt_view(s.git.branch) == st.branch
    &&& opt_view(s.git.dotfiles_path) == st.dotfiles_path
    &&& s.laptop.enable_tlp == st.enable_tlp
    &&& s.laptop.enable_auto_cpufreq == st.enable_auto_cpufreq
    &&& s.groups@ == combine_groups(st.packages, st.dependencies)
    &&& s.system.hostname is None
    &&& s.system.locale is None
    &&& s.system.localtime is None
    &&& s.system.sudoers is None
    &&& s.system.hosts is None
}

/// The keys that set one git or laptop setting each.
pub open spec fn setting_key(key: Seq<char>) -> bool {
    ||| key == "git.repo"@
    ||| key == "git.branch"@
    ||| key == "git.dotfiles_path"@
    ||| key == "laptop.enable_tlp"@
    ||| key == "laptop.enable_auto_cpufreq"@
}

/// The text that a setting holds: the configured text of a git setting, or
/// `true`/`false` for a laptop setting.
pub open spec fn setting_text(st: BuildState, key: Seq<char>) -> Option<Seq<char>> {
    if key == "git.repo"@ {
        st.repo
    } else if key == "git.branch"@ {
        st.branch
    } else if key == "git.dotfiles_path"@ {
        st.dotfiles_path
    } else if key == "laptop.enable_tlp"@ {
        Some(if st.enable_tlp { "true"@ } else { "false"@ })
    } else if key == "laptop.enable_auto_cpufreq"@ {
        Some(if st.enable_auto_cpufreq { "true"@ } else { "false"@ })
    } else {
        None
    }
}

proof fn lemma_setting_keys_differ()
    ensures
        "git.repo"@ != "git.branch"@,
        "git.repo"@ != "git.dotfiles_path"@,
        "git.repo"@ != "laptop.enable_tlp"@,
        "git.repo"@ != "laptop.enable_auto_cpufreq"@,
        "git.branch"@ != "git.dotfiles_path"@,
        "git.branch"@ != "laptop.enable_tlp"@,
        "git.branch"@ != "laptop.enable_auto_cpufreq"@,
        "git.dotfiles_path"@ != "laptop.enable_tlp"@,
        "git.dotfiles_path"@ != "laptop.enable_auto_cpufreq"@,
        "laptop.enable_tlp"@ != "laptop.enable_auto_cpufreq"@,
        "true"@ != "false"@,
        is_prefix("git."@, "git.repo"@),
        is_prefix("git."@, "git.branch"@),
        is_prefix("git."@, "git.dotfiles_path"@),
        !is_prefix("git."@, "laptop.enable_tlp"@),
        !is_prefix("git."@, "laptop.enable_auto_cpufreq"@),
        is_prefix("laptop."@, "laptop.enable_tlp"@),
        is_prefix("laptop."@, "laptop.enable_auto_cpufreq"@),
{
    reveal_strlit("git.repo");
    reveal_strlit("git.branch");
    reveal_strlit("git.dotfiles_path");
    reveal_strlit("laptop.enable_tlp");
    reveal_strlit("laptop.enable_auto_cpufreq");
    reveal_strlit("true");
    reveal_strlit("false");
    reveal_strlit("git.");
    reveal_strlit("laptop.");
    assert("git.repo"@.len() != "git.branch"@.len());
    assert("git.repo"@[0] != "laptop.enable_tlp"@[0]);
    assert("git.repo"@[0] != "laptop.enable_auto_cpufreq"@[0]);
    assert("git.branch"@.len() != "git.dotfiles_path"@.len());
    assert("git.branch"@[0] != "laptop.enable_tlp"@[0]);
    assert("git.branch"@[0] != "laptop.enable_auto_cpufreq"@[0]);
    assert("git.dotfiles_path"@[0] != "laptop.enable_tlp"@[0]);
    assert("git.dotfiles_path"@[0] != "laptop.enable_auto_cpufreq"@[0]);
    assert("git.repo"@.len() != "git.dotfiles_path"@.len());
    assert("laptop.enable_tlp"@.len() != "laptop.enable_auto_cpufreq"@.len());
    assert("true"@.len() != "false"@.len());
    assert("git.repo"@.subrange(0, 4) =~= "git."@);
    assert("git.branch"@.subrange(0, 4) =~= "git."@);
    assert("git.dotfiles_path"@.subrange(0, 4) =~= "git."@);
    assert("laptop.enable_tlp"@.subrange(0, 4)[0] != "git."@[0]);
    assert("laptop.enable_auto_cpufreq"@.subrange(0, 4)[0] != "git."@[0]);
    assert("laptop.enable_tlp"@.subrange(0, 7) =~= "laptop."@);
    assert("laptop.enable_auto_cpufreq"@.subrange(0, 7) =~= "laptop."@);
}

/// One assignment to a setting key sets that setting to the value assigned
/// (a `true`/`false` text for a laptop setting) and leaves every other
/// setting as it was.
proof fn lemma_entry_sets(st: BuildState, k: Seq<char>, v: ValueView, key: Seq<char>)
    requires
        setting_key(key),
        apply_entry(st, k, v) is Ok,
    ensures
        k == key ==> v == ValueView::Str(setting_text(apply_entry(st, k, v)->Ok_0, key).unwrap())
            && setting_text(apply_entry(st, k, v)->Ok_0, key) is Some,
        k != key ==> setting_text(apply_entry(st, k, v)->Ok_0, key) == setting_text(st, key),
{
    lemma_setting_keys_differ();
}

/// A setting holds the value of the last assignment to its key (a `true` or
/// `false` text for a laptop setting); with no assignment to its key it keeps
/// its initial value (none for a git setting, `false` for a laptop one).
pub proof fn law_setting_is_last_assignment(e: Seq<(Seq<char>, ValueView)>, key: Seq<char>)
    requires
        setting_key(key),
        apply_all(e) is Ok,
    ensures
        (forall|i: int| 0 <= i < e.len() ==> #[trigger] e[i].0 != key) ==> setting_text(
            apply_all(e)->Ok_0,
            key,
        ) == setting_text(initial_build(), key),
        forall|i: int|
            0 <= i < e.len() && #[trigger] e[i].0 == key && (forall|j: int| i < j < e.len() ==> e[j].0 != key)
                ==> e[i].1 == ValueView::Str(setting_text(apply_all(e)->Ok_0, key).unwrap())
                && setting_text(apply_all(e)->Ok_0, key) is Some,
    decreases e.len(),
{
    if e.len() > 0 {
        let d = e.drop_last();
        assert(apply_all(d) is Ok);
        law_setting_is_last_assignment(d, key);
        let st = apply_all(d)->Ok_0;
        lemma_entry_sets(st, e.last().0, e.last().1, key);
        assert forall|i: int|
            0 <= i < e.len() && #[trigger] e[i].0 == key && (forall|j: int| i < j < e.len() ==> e[j].0 != key)
                implies e[i].1 == ValueView::Str(setting_text(apply_all(e)->Ok_0, key).unwrap())
                && setting_text(apply_all(e)->Ok_0, key) is Some by {
            if i < e.len() - 1 {
                assert(e[e.len() - 1].0 != key);
                assert(d[i] == e[i]);
                assert forall|j: int| i < j < d.len() implies d[j].0 != key by {
                    assert(d[j] == e[j]);
                }
            }
        }
        if forall|i: int| 0 <= i < e.len() ==> #[trigger] e[i].0 != key {
            assert forall|i: int| 0 <= i < d.len() implies #[trigger] d[i].0 != key by {
                assert(d[i] == e[i]);
            }
            assert(e[e.len() - 1].0 != key);
        }
    }
}

/// Once an assignment is refused, the whole configuration is refused with its message.
pub proof fn lemma_apply_all_err(e: Seq<(Seq<char>, ValueView)>, i: int)
    requires
        0 <= i <= e.len(),
        apply_all(e.subrange(0, i)) is Err,
    ensures
        apply_all(e) == apply_all(e.subrange(0, i)),
    decreases e.len() - i,
{
    if i < e.len() {
        assert(e.subrange(0, i + 1).drop_last() =~= e.subrange(0, i));
        lemma_apply_all_err(e, i + 1);
    } else {
        assert(e.subrange(0, i) =~= e);
    }
}

// ---------------------------------------------------------------------------
// Executable conversion
// ---------------------------------------------------------------------------

/// A list of names.
pub struct Names(pub Vec<String>);

impl View for Names {
    type V = Seq<Seq<char>>;

    open spec fn view(&self) -> Seq<Seq<char>> {
        views(self.0@)
    }
}

impl Duplicate for Names {
    fn duplicate(&self) -> (r: Names) {
        Names(copy_strings(&self.0))
    }
}

/// The `{:?}` text of a value.
pub(crate) fn value_debug_text(v: &Value) -> (r: String)
    ensures
        r@ == value_debug(v@),
{
    match v {
        Value::String(s) => {
            let d = debug_str(s.as_str());
            let a = concat("String(", d.as_str());
            concat(a.as_str(), ")")
        },
        Value::List(xs) => {
            let ghost xv = views(xs@);
            let mut ds: Vec<String> = Vec::new();
            let mut i: usize = 0;
            while i < xs.len()
                invariant
                    i <= xs@.len(),
                    xv == views(xs@),
                    views(ds@) == Seq::new(i as nat, |k: int| debug_quoted(xv[k])),
                decreases xs.len() - i,
            {
                let ghost before = ds@;
                let d = debug_str(xs[i].as_str());
                ds.push(d);
                proof {
                    lemma_views_push(before, d);
                }
                assert(views(ds@) =~= Seq::new((i + 1) as nat, |k: int| debug_quoted(xv[k])));
                i = i + 1;
            }
            let j = join(&ds, ", ");
            let a = concat("List([", j.as_str());
            concat(a.as_str(), "])")
        },
    }
}

/// The text of a value that must be a text (`git.*` keys).
pub(crate) fn extract_optional_string(value: &Value) -> (r: Result<Option<String>, String>)
    ensures
        match string_of(value@) {
            Ok(x) => r matches Ok(Some(s)) && s@ == x,
            Err(m) => r matches Err(e) && e@ == m,
        },
{
    match value {
        Value::String(s) => Ok(Some(copy_string(s))),
        _ => {
            let d = value_debug_text(value);
            Err(concat("Expected string, got ", d.as_str()))
        },
    }
}

/// The boolean of a value that must be the text `true` or `false`.
pub(crate) fn extract_bool(value: &Value) -> (r: Result<bool, String>)
    ensures
        match bool_of(value@) {
            Ok(b) => r == Ok::<bool, String>(b),
            Err(m) => r matches Err(e) && e@ == m,
        },
{
    match value {
        Value::String(s) => {
            if str_eq(s.as_str(), "true") {
                return Ok(true);
            }
            if str_eq(s.as_str(), "false") {
                return Ok(false);
            }
        },
        _ => {},
    }
    let d = value_debug_text(value);
    Err(concat("Expected boolean, got ", d.as_str()))
}

/// The list of a value that must be a list.
pub(crate) fn extract_list(value: &Value) -> (r: Result<Vec<String>, String>)
    ensures
        match list_of(value@) {
            Ok(l) => r matches Ok(v) && views(v@) == l,
            Err(m) => r matches Err(e) && e@ == m,
        },
{
    match value {
        Value::List(v) => Ok(copy_strings(v)),
        _ => {
            let d = value_debug_text(value);
            Err(concat("Expected list, got ", d.as_str()))
        },
    }
}

/// The settings that an empty configuration gives: nothing configured, no groups.
pub fn init() -> (r: Settings)
    ensures
        settings_from(r, initial_build()),
{
    let groups: Table<PackageGroup> = Table::new();
    let r = Settings {
        git: GitSettings::default(),
        groups,
        laptop: LaptopSettings::default(),
        system: SystemSettings::default(),
    };
    assert(combine_groups(Seq::empty(), Seq::empty()) =~= Seq::empty());
    r
}

/// The current build state, read off the values being built.
spec fn state_of(git: GitSettings, laptop: LaptopSettings, pk: Table<Names>, dp: Table<Names>) -> BuildState {
    BuildState {
        repo: opt_view(git.repo),
        branch: opt_view(git.branch),
        dotfiles_path: opt_view(git.dotfiles_path),
        enable_tlp: laptop.enable_tlp,
        enable_auto_cpufreq: laptop.enable_auto_cpufreq,
        packages: pk@,
        dependencies: dp@,
    }
}

/// The git and laptop settings and the package and dependency tables that the
/// assignments give, going through them in order; the first value of the wrong
/// kind stops with its message.
fn build_tables(raw: &ConfigMap) -> (r: Result<(GitSettings, LaptopSettings, Table<Names>, Table<Names>), String>)
    ensures
        match apply_all(raw@) {
            Ok(st) => r matches Ok((g, l, p, d)) && state_of(g, l, p, d) == st,
            Err(m) => r matches Err(e) && e@ == m,
        },
{
    let mut git = GitSettings::default();
    let mut laptop = LaptopSettings::default();
    let mut packages: Table<Names> = Table::new();
    let mut dependencies: Table<Names> = Table::new();
    let ghost e = raw@;
    let mut i: usize = 0;
    assert(e.subrange(0, 0) =~= Seq::<(Seq<char>, ValueView)>::empty());
    assert(state_of(git, laptop, packages, dependencies) == initial_build());
    while i < raw.len()
        invariant
            i <= e.len(),
            e == raw@,
            apply_all(e.subrange(0, i as int)) == Ok::<BuildState, Seq<char>>(
                state_of(git, laptop, packages, dependencies),
            ),
        decreases e.len() - i,
    {
        let key = raw.key_at(i);
        let value = raw.value_at(i);
        let ghost st = state_of(git, laptop, packages, dependencies);
        assert(e.subrange(0, i + 1).drop_last() =~= e.subrange(0, i as int));
        assert(e.subrange(0, i + 1).last() == e[i as int]);
        let ghost next = apply_entry(st, key@, value@);
        if starts_with(key.as_str(), "git.") {
            if str_eq(key.as_str(), "git.repo") {
                match extract_optional_string(value) {
                    Ok(x) => {
                        git.repo = x;
                    },
                    Err(m) => {
                        proof {
                            lemma_apply_all_err(e, i + 1);
                        }
                        return Err(m);
                    },
                }
            } else if str_eq(key.as_str(), "git.branch") {
                match extract_optional_string(value) {
                    Ok(x) => {
                        git.branch = x;
                    },
                    Err(m) => {
                        proof {
                            lemma_apply_all_err(e, i + 1);
                        }
                        return Err(m);
                    },
                }
            } else if str_eq(key.as_str(), "git.dotfiles_path") {
                match extract_optional_string(value) {
                    Ok(x) => {
                        git.dotfiles_path = x;
                    },
                    Err(m) => {
                        proof {
                            lemma_apply_all_err(e, i + 1);
                        }
                        return Err(m);
                    },
                }
            }
        } else if starts_with(key.as_str(), "laptop.") {
            if str_eq(key.as_str(), "laptop.enable_tlp") {
                match extract_bool(value) {
                    Ok(b) => {
                        laptop.enable_tlp = b;
                    },
                    Err(m) => {
                        proof {
                            lemma_apply_all_err(e, i + 1);
                        }
                        return Err(m);
                    },
                }
            } else if str_eq(key.as_str(), "laptop.enable_auto_cpufreq") {
                match extract_bool(value) {
                    Ok(b) => {
                        laptop.enable_auto_cpufreq = b;
                    },
                    Err(m) => {
                        proof {
                            lemma_apply_all_err(e, i + 1);
                        }
                        return Err(m);
                    },
                }
            }
        } else if starts_with(key.as_str(), "packages.") {
            match extract_list(value) {
                Ok(l) => {
                    let name = trim_start_matches(key.as_str(), "packages.");
                    packages.insert(name, Names(l));
                },
                Err(m) => {
                    proof {
                        lemma_apply_all_err(e, i + 1);
                    }
                    return Err(m);
                },
            }
        } else if starts_with(key.as_str(), "dependencies.") {
            match extract_list(value) {
                Ok(l) => {
                    let name = trim_start_matches(key.as_str(), "dependencies.");
                    dependencies.insert(name, Names(l));
                },
                Err(m) => {
                    proof {
                        lemma_apply_all_err(e, i + 1);
                    }
                    return Err(m);
                },
            }
        }
        assert(next == Ok::<BuildState, Seq<char>>(state_of(git, laptop, packages, dependencies)));
        i = i + 1;
    }
    assert(e.subrange(0, e.len() as int) =~= e);
    Ok((git, laptop, packages, dependencies))
}

/// Turns the assignments of a configuration into settings, going through them in
/// order; the first value of the wrong kind stops with its message.
pub fn build_settings(raw: &ConfigMap) -> (r: Result<Settings, String>)
    ensures
        match apply_all(raw@) {
            Ok(st) => r matches Ok(s) && settings_from(s, st),
            Err(m) => r matches Err(e) && e@ == m,
        },
{
    match build_tables(raw) {
        Ok((git, laptop, packages, dependencies)) => {
            let groups = combine_tables(&packages, &dependencies);
            Ok(Settings { git, groups, laptop, system: SystemSettings::default() })
        },
        Err(m) => Err(m),
    }
}

// ---------------------------------------------------------------------------
// Warnings
// ---------------------------------------------------------------------------

/// The warning for a key that is not used, if any: an unknown key under `git.`
/// or `laptop.` (or, where `system_keys`, under `system.`), or a key under no
/// known prefix.
pub open spec fn key_warning(key: Seq<char>, system_keys: bool) -> Option<Seq<char>> {
    if is_prefix("git."@, key) {
        if key == "git.repo"@ || key == "git.branch"@ || key == "git.dotfiles_path"@ {
            None
        } else {
            Some("Warning: unknown git key: "@ + key)
        }
    } else if is_prefix("laptop."@, key) {
        if key == "laptop.enable_tlp"@ || key == "laptop.enable_auto_cpufreq"@ {
            None
        } else {
            Some("Warning: unknown laptop key: "@ + key)
        }
    } else if system_keys && is_prefix("system."@, key) {
        if key == "system.hostname"@ || key == "system.timezone"@ || key == "system.locale"@ {
            None
        } else {
            Some("Warning: unknown system key: "@ + key)
        }
    } else if is_prefix("packages."@, key) || is_prefix("dependencies."@, key) {
        None
    } else {
        Some("Warning: unknown key: "@ + key)
    }
}

/// The warnings of the keys of the assignments, in order.
pub open spec fn key_warnings(e: Seq<(Seq<char>, ValueView)>, system_keys: bool) -> Seq<Seq<char>>
    decreases e.len(),
{
    if e.len() == 0 {
        Seq::empty()
    } else {
        key_warnings(e.drop_last(), system_keys) + match key_warning(e.last().0, system_keys) {
            Some(w) => seq![w],
            None => Seq::empty(),
        }
    }
}

/// A warning for each group that only has dependencies, in order.
pub open spec fn orphan_warnings(
    pk: Seq<(Seq<char>, Seq<Seq<char>>)>,
    dp: Seq<(Seq<char>, Seq<Seq<char>>)>,
) -> Seq<Seq<char>>
    decreases dp.len(),
{
    if dp.len() == 0 {
        Seq::empty()
    } else {
        let rest = orphan_warnings(pk, dp.drop_last());
        if has_key(pk, dp.last().0) {
            rest
        } else {
            rest.push("Warning: dependencies for unknown group '"@ + dp.last().0 + "'"@)
        }
    }
}

/// The warning for one key, if any.
pub fn key_warning_text(key: &str, system_keys: bool) -> (r: Option<String>)
    ensures
        match r {
            Some(w) => key_warning(key@, system_keys) == Some(w@),
            None => key_warning(key@, system_keys) is None,
        },
{
    if starts_with(key, "git.") {
        if str_eq(key, "git.repo") || str_eq(key, "git.branch") || str_eq(key, "git.dotfiles_path") {
            None
        } else {
            Some(concat("Warning: unknown git key: ", key))
        }
    } else if starts_with(key, "laptop.") {
        if str_eq(key, "laptop.enable_tlp") || str_eq(key, "laptop.enable_auto_cpufreq") {
            None
        } else {
            Some(concat("Warning: unknown laptop key: ", key))
        }
    } else if system_keys && starts_with(key, "system.") {
        if str_eq(key, "system.hostname") || str_eq(key, "system.timezone") || str_eq(
            key,
            "system.locale",
        ) {
            None
        } else {
            Some(concat("Warning: unknown system key: ", key))
        }
    } else if starts_with(key, "packages.") || starts_with(key, "dependencies.") {
        None
    } else {
        Some(concat("Warning: unknown key: ", key))
    }
}

/// The warnings of the keys of the assignments that nothing uses, in order.
pub fn unknown_key_warnings(raw: &ConfigMap, system_keys: bool) -> (r: Vec<String>)
    ensures
        views(r@) == key_warnings(raw@, system_keys),
{
    let ghost e = raw@;
    let mut w: Vec<String> = Vec::new();
    let mut i: usize = 0;
    assert(views(w@) =~= key_warnings(e.subrange(0, 0), system_keys));
    while i < raw.len()
        invariant
            i <= e.len(),
            e == raw@,
            views(w@) == key_warnings(e.subrange(0, i as int), system_keys),
        decreases e.len() - i,
    {
        assert(e.subrange(0, i + 1).drop_last() =~= e.subrange(0, i as int));
        assert(e.subrange(0, i + 1).last() == e[i as int]);
        let ghost before = w@;
        match key_warning_text(raw.key_at(i).as_str(), system_keys) {
            Some(x) => {
                w.push(x);
                proof {
                    lemma_views_push(before, x);
                }
            },
            None => {},
        }
        i = i + 1;
    }
    assert(e.subrange(0, e.len() as int) =~= e);
    w
}

/// The warnings that reading the settings gives: each unused key, in order,
/// and, when the configuration is accepted, each group that only has
/// dependencies.
pub fn settings_warnings(raw: &ConfigMap) -> (r: Vec<String>)
    ensures
        views(r@) == key_warnings(raw@, false) + match apply_all(raw@) {
            Ok(st) => orphan_warnings(st.packages, st.dependencies),
            Err(_) => Seq::empty(),
        },
{
    let mut w = unknown_key_warnings(raw, false);
    let ghost kw = views(w@);
    match build_tables(raw) {
        Ok((_, _, packages, dependencies)) => {
            let ghost pk = packages@;
            let ghost dp = dependencies@;
            let mut j: usize = 0;
            assert(views(w@) =~= kw + orphan_warnings(pk, dp.subrange(0, 0)));
            while j < dependencies.len()
                invariant
                    j <= dp.len(),
                    pk == packages@,
                    dp == dependencies@,
                    views(w@) == kw + orphan_warnings(pk, dp.subrange(0, j as int)),
                decreases dp.len() - j,
            {
                assert(dp.subrange(0, j + 1).drop_last() =~= dp.subrange(0, j as int));
                assert(dp.subrange(0, j + 1).last() == dp[j as int]);
                let name = dependencies.key_at(j);
                if !packages.contains_key(name.as_str()) {
                    let ghost before = w@;
                    let a = concat("Warning: dependencies for unknown group '", name.as_str());
                    let x = concat(a.as_str(), "'");
                    w.push(x);
                    proof {
                        lemma_views_push(before, x);
                    }
                    assert(views(w@) =~= kw + orphan_warnings(pk, dp.subrange(0, j + 1)));
                }
                j = j + 1;
            }
            assert(dp.subrange(0, dp.len() as int) =~= dp);
        },
        Err(_) => {
            assert(views(w@) =~= kw + Seq::<Seq<char>>::empty());
        },
    }
    w
}



/// The group table made of the package lists and the dependency lists.
fn combine_tables(packages: &Table<Names>, dependencies: &Table<Names>) -> (r: Table<PackageGroup>)
    ensures
        r@ == combine_groups(packages@, dependencies@),
{
    packages.keys_unique_proof();
    dependencies.keys_unique_proof();
    let ghost pk = packages@;
    let ghost dp = dependencies@;
    let mut groups: Table<PackageGroup> = Table::new();
    let mut i: usize = 0;
    while i < packages.len()
        invariant
            i <= pk.len(),
            pk == packages@,
            dp == dependencies@,
            unique_keys(pk),
            unique_keys(dp),
            groups@ == paired_groups(pk, dp).subrange(0, i as int),
        decreases pk.len() - i,
    {
        let name = packages.key_at(i);
        let pkgs = copy_strings(&packages.value_at(i).0);
        let deps = match dependencies.get(name.as_str()) {
            Some(d) => copy_strings(&d.0),
            None => Vec::new(),
        };
        proof {
            lemma_lookup(dp, name@);
        }
        assert(views(deps@) == paired_groups(pk, dp)[i as int].1.dependencies) by {
            if lookup(dp, name@) is None {
                assert(views(deps@) =~= Seq::<Seq<char>>::empty());
            }
        }
        let ghost before = groups@;
        assert(!has_key(before, name@)) by {
            if has_key(before, name@) {
                let j = choose|j: int| 0 <= j < before.len() && before[j].0 == name@;
                assert(pk[j].0 == pk[i as int].0);
            }
        }
        groups.insert(copy_string(name), PackageGroup { packages: pkgs, dependencies: deps });
        assert(groups@ =~= paired_groups(pk, dp).subrange(0, i + 1));
        i = i + 1;
    }
    let ghost paired = groups@;
    assert(paired =~= paired_groups(pk, dp));
    let mut j: usize = 0;
    assert(orphan_groups(pk, dp.subrange(0, 0)) =~= Seq::empty());
    assert(paired + Seq::<(Seq<char>, GroupView)>::empty() =~= paired);
    while j < dependencies.len()
        invariant
            j <= dp.len(),
            pk == packages@,
            dp == dependencies@,
            unique_keys(pk),
            unique_keys(dp),
            paired == paired_groups(pk, dp),
            groups@ == paired + orphan_groups(pk, dp.subrange(0, j as int)),
        decreases dp.len() - j,
    {
        let name = dependencies.key_at(j);
        assert(dp.subrange(0, j + 1).drop_last() =~= dp.subrange(0, j as int));
        assert(dp.subrange(0, j + 1).last() == dp[j as int]);
        if !packages.contains_key(name.as_str()) {
            let ghost before = groups@;
            let ghost orph = orphan_groups(pk, dp.subrange(0, j as int));
            assert(!has_key(before, name@)) by {
                if has_key(before, name@) {
                    let k = choose|k: int| 0 <= k < before.len() && before[k].0 == name@;
                    if k < paired.len() {
                        assert(pk[k].0 == name@);
                    } else {
                        lemma_orphan_keys(pk, dp.subrange(0, j as int), k - paired.len());
                        let m = choose|m: int|
                            0 <= m < j && dp.subrange(0, j as int)[m].0 == orph[k - paired.len()].0;
                        assert(dp[m].0 == dp[j as int].0);
                    }
                }
            }
            let deps = copy_strings(&dependencies.value_at(j).0);
            let empty: Vec<String> = Vec::new();
            assert(views(empty@) =~= Seq::<Seq<char>>::empty());
            groups.insert(copy_string(name), PackageGroup { packages: empty, dependencies: deps });
            assert(groups@ =~= paired + orphan_groups(pk, dp.subrange(0, j + 1)));
        }
        j = j + 1;
    }
    assert(dp.subrange(0, dp.len() as int) =~= dp);
    groups
}

/// Every orphan group is named after one of the dependency entries.
proof fn lemma_orphan_keys(
    pk: Seq<(Seq<char>, Seq<Seq<char>>)>,
    dp: Seq<(Seq<char>, Seq<Seq<char>>)>,
    k: int,
)
    requires
        0 <= k < orphan_groups(pk, dp).len(),
    ensures
        exists|m: int| 0 <= m < dp.len() && dp[m].0 == orphan_groups(pk, dp)[k].0,
    decreases dp.len(),
{
    let d = dp.drop_last();
    let rest = orphan_groups(pk, d);
    if k < rest.len() {
        lemma_orphan_keys(pk, d, k);
        let m = choose|m: int| 0 <= m < d.len() && d[m].0 == rest[k].0;
        assert(dp[m].0 == orphan_groups(pk, dp)[k].0);
    } else {
        assert(dp[dp.len() - 1].0 == orphan_groups(pk, dp)[k].0);
    }
}

} // verus!
