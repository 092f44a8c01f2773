//! The configuration as one record: git, laptop and system settings, and the
//! package and dependency lists of each group.
use vstd::prelude::*;
use crate::assoc::{assoc_insert, Table};
use crate::config::convert::{
    bool_of, extract_bool, extract_list, list_of, string_of, value_debug_text, Names,
};
use crate::config::parser::{ConfigMap, Value, ValueView};
use crate::config::settings::opt_view;
use crate::text::{concat, copy_string, is_prefix, starts_with, str_eq, trim_prefix_all, trim_start_matches};

verus! {

/// The dotfiles repository.
pub struct GitConfig {
    pub repo: String,
    pub branch: String,
    pub dotfiles_path: String,
}

/// The laptop services.
pub struct LaptopConfig {
    pub enable_tlp: bool,
    pub enable_auto_cpufreq: bool,
}

/// The system files.
pub struct SystemConfig {
    pub hostname: Option<String>,
    pub timezone: Option<String>,
    pub locale: Option<String>,
}

/// The package list of each group.
pub struct Packages {
    pub groups: Table<Names>,
}

/// The dependency list of each group.
pub struct Dependencies {
    pub groups: Table<Names>,
}

/// The whole configuration.
pub struct Config {
    pub git: GitConfig,
    pub laptop: LaptopConfig,
    pub system: SystemConfig,
    pub packages: Packages,
    pub dependencies: Dependencies,
}

impl Default for GitConfig {
    /// Empty repository, branch and path.
    fn default() -> (r: GitConfig)
        ensures
            r.repo@ == Seq::<char>::empty(),
            r.branch@ == Seq::<char>::empty(),
            r.dotfiles_path@ == Seq::<char>::empty(),
    {
        GitConfig { repo: String::new(), branch: String::new(), dotfiles_path: String::new() }
    }
}

impl Default for LaptopConfig {
    /// Neither service.
    fn default() -> (r: LaptopConfig)
        ensures
            !r.enable_tlp,
            !r.enable_auto_cpufreq,
    {
        LaptopConfig { enable_tlp: false, enable_auto_cpufreq: false }
    }
}

impl Default for SystemConfig {
    /// No system file.
    fn default() -> (r: SystemConfig)
        ensures
            r.hostname is None,
            r.timezone is None,
            r.locale is None,
    {
        SystemConfig { hostname: None, timezone: None, locale: None }
    }
}

impl Default for Config {
    /// Nothing configured, no groups.
    fn default() -> (r: Config)
        ensures
            config_holds(r, initial_config()),
    {
        Config {
            git: GitConfig::default(),
            laptop: LaptopConfig::default(),
            system: SystemConfig::default(),
            packages: Packages { groups: Table::new() },
            dependencies: Dependencies { groups: Table::new() },
        }
    }
}

/// What the assignments read so far have set.
pub struct ConfigState {
    pub repo: Seq<char>,
    pub branch: Seq<char>,
    pub dotfiles_path: Seq<char>,
    pub enable_tlp: bool,
    pub enable_auto_cpufreq: bool,
    pub hostname: Option<Seq<char>>,
    pub timezone: Option<Seq<char>>,
    pub locale: Option<Seq<char>>,
    pub packages: Seq<(Seq<char>, Seq<Seq<char>>)>,
    pub dependencies: Seq<(Seq<char>, Seq<Seq<char>>)>,
}

/// Nothing set yet.
pub open spec fn initial_config() -> ConfigState {
    ConfigState {
        repo: Seq::empty(),
        branch: Seq::empty(),
        dotfiles_path: Seq::empty(),
        enable_tlp: false,
        enable_auto_cpufreq: false,
        hostname: None,
        timezone: None,
        locale: None,
        packages: Seq::empty(),
        dependencies: Seq::empty(),
    }
}

/// The effect of one assignment: `git.`, `laptop.` and `system.` keys set
/// those settings; `packages.NAME` and `dependencies.NAME` set a group's lists
/// (every leading `packages.` or `dependencies.` removed from the name); other
/// keys are ignored. A value of the wrong kind is an error.
pub open spec fn config_entry(st: ConfigState, key: Seq<char>, v: ValueView) -> Result<
    ConfigState,
    Seq<char>,
> {
    if is_prefix("git."@, key) {
        if key == "git.repo"@ {
            match string_of(v) {
                Ok(x) => Ok(ConfigState { repo: x, ..st }),
                Err(m) => Err(m),
            }
        } else if key == "git.branch"@ {
            match string_of(v) {
                Ok(x) => Ok(ConfigState { branch: x, ..st }),
                Err(m) => Err(m),
            }
        } else if key == "git.dotfiles_path"@ {
            match string_of(v) {
                Ok(x) => Ok(ConfigState { dotfiles_path: x, ..st }),
                Err(m) => Err(m),
            }
        } else {
            Ok(st)
        }
    } else if is_prefix("laptop."@, key) {
        if key == "laptop.enable_tlp"@ {
            match bool_of(v) {
                Ok(b) => Ok(ConfigState { enable_tlp: b, ..st }),
                Err(m) => Err(m),
            }
        } else if key == "laptop.enable_auto_cpufreq"@ {
            match bool_of(v) {
                Ok(b) => Ok(ConfigState { enable_auto_cpufreq: b, ..st }),
                Err(m) => Err(m),
            }
        } else {
            Ok(st)
        }
    } else if is_prefix("system."@, key) {
        if key == "system.hostname"@ {
            match string_of(v) {
                Ok(x) => Ok(ConfigState { hostname: Some(x), ..st }),
                Err(m) => Err(m),
            }
        } else if key == "system.timezone"@ {
            match string_of(v) {
                Ok(x) => Ok(ConfigState { timezone: Some(x), ..st }),
                Err(m) => Err(m),
            }
        } else if key == "system.locale"@ {
            match string_of(v) {
                Ok(x) => Ok(ConfigState { locale: Some(x), ..st }),
                Err(m) => Err(m),
            }
        } else {
            Ok(st)
        }
    } else if is_prefix("packages."@, key) {
        match list_of(v) {
            Ok(l) => Ok(
                ConfigState {
                    packages: assoc_insert(st.packages, trim_prefix_all(key, "packages."@), l),
                    ..st
                },
            ),
            Err(m) => Err(m),
        }
    } else if is_prefix("dependencies."@, key) {
        match list_of(v) {
            Ok(l) => Ok(
                ConfigState {
                    dependencies: assoc_insert(
                        st.dependencies,
                        trim_prefix_all(key, "dependencies."@),
                        l,
                    ),
                    ..st
                },
            ),
            Err(m) => Err(m),
        }
    } else {
        Ok(st)
    }
}

/// The effect of the assignments in order; the first error stops.
pub open spec fn config_all(e: Seq<(Seq<char>, ValueView)>) -> Result<ConfigState, Seq<char>>
    decreases e.len(),
{
    if e.len() == 0 {
        Ok(initial_config())
    } else {
        match config_all(e.drop_last()) {
            Ok(st) => config_entry(st, e.last().0, e.last().1),
            Err(m) => Err(m),
        }
    }
}

/// `c` holds what `st` describes.
pub open spec fn config_holds(c: Config, st: ConfigState) -> bool {
    &&& c.git.repo@ == st.repo
    &&& c.git.branch@ == st.branch
    &&& c.git.dotfiles_path@ == st.dotfiles_path
    &&& c.laptop.enable_tlp == st.enable_tlp
    &&& c.laptop.enable_auto_cpufreq == st.enable_auto_cpufreq
    &&& opt_view(c.system.hostname) == st.hostname
    &&& opt_view(c.system.timezone) == st.timezone
    &&& opt_view(c.system.locale) == st.locale
    &&& c.packages.groups@ == st.packages
    &&& c.dependencies.groups@ == st.dependencies
}

/// The keys that set one git, laptop or system setting each.
pub open spec fn record_key(key: Seq<char>) -> bool {
    ||| key == "git.repo"@
    ||| key == "git.branch"@
    ||| key == "git.dotfiles_path"@
    ||| key == "laptop.enable_tlp"@
    ||| key == "laptop.enable_auto_cpufreq"@
    ||| key == "system.hostname"@
    ||| key == "system.timezone"@
    ||| key == "system.locale"@
}

/// The text that a setting of the record holds: the text of a git or system
/// setting, or `true`/`false` for a laptop setting.
pub open spec fn record_text(st: ConfigState, key: Seq<char>) -> Option<Seq<char>> {
    if key == "git.repo"@ {
        Some(st.repo)
    } else if key == "git.branch"@ {
        Some(st.branch)
    } else if key == "git.dotfiles_path"@ {
        Some(st.dotfiles_path)
    } else if key == "laptop.enable_tlp"@ {
        Some(if st.enable_tlp { "true"@ } else { "false"@ })
    } else if key == "laptop.enable_auto_cpufreq"@ {
        Some(if st.enable_auto_cpufreq { "true"@ } else { "false"@ })
    } else if key == "system.hostname"@ {
        st.hostname
    } else if key == "system.timezone"@ {
        st.timezone
    } else if key == "system.locale"@ {
        st.locale
    } else {
        None
    }
}

proof fn lemma_record_keys()
    ensures
        "git.repo"@.len() == 8,
        "git.branch"@.len() == 10,
        "git.dotfiles_path"@.len() == 17,
        "laptop.enable_tlp"@.len() == 17,
        "laptop.enable_auto_cpufreq"@.len() == 26,
        "system.hostname"@.len() == 15,
        "system.timezone"@.len() == 15,
        "system.locale"@.len() == 13,
        "git.dotfiles_path"@ != "laptop.enable_tlp"@,
        "system.hostname"@ != "system.timezone"@,
        "true"@ != "false"@,
        is_prefix("git."@, "git.repo"@),
        is_prefix("git."@, "git.branch"@),
        is_prefix("git."@, "git.dotfiles_path"@),
        !is_prefix("git."@, "laptop.enable_tlp"@),
        !is_prefix("git."@, "laptop.enable_auto_cpufreq"@),
        !is_prefix("git."@, "system.hostname"@),
        !is_prefix("git."@, "system.timezone"@),
        !is_prefix("git."@, "system.locale"@),
        is_prefix("laptop."@, "laptop.enable_tlp"@),
        is_prefix("laptop."@, "laptop.enable_auto_cpufreq"@),
        !is_prefix("laptop."@, "system.hostname"@),
        !is_prefix("laptop."@, "system.timezone"@),
        !is_prefix("laptop."@, "system.locale"@),
        is_prefix("system."@, "system.hostname"@),
        is_prefix("system."@, "system.timezone"@),
        is_prefix("system."@, "system.locale"@),
{
    reveal_strlit("git.repo");
    reveal_strlit("git.branch");
    reveal_strlit("git.dotfiles_path");
    reveal_strlit("laptop.enable_tlp");
    reveal_strlit("laptop.enable_auto_cpufreq");
    reveal_strlit("system.hostname");
    reveal_strlit("system.timezone");
    reveal_strlit("system.locale");
    reveal_strlit("true");
    reveal_strlit("false");
    reveal_strlit("git.");
    reveal_strlit("laptop.");
    reveal_strlit("system.");
    assert("git.dotfiles_path"@[0] != "laptop.enable_tlp"@[0]);
    assert("system.hostname"@[7] != "system.timezone"@[7]);
    assert("true"@.len() != "false"@.len());
    assert("git.repo"@.subrange(0, 4) =~= "git."@);
    assert("git.branch"@.subrange(0, 4) =~= "git."@);
    assert("git.dotfiles_path"@.subrange(0, 4) =~= "git."@);
    assert("laptop.enable_tlp"@.subrange(0, 4)[0] != "git."@[0]);
    assert("laptop.enable_auto_cpufreq"@.subrange(0, 4)[0] != "git."@[0]);
    assert("system.hostname"@.subrange(0, 4)[0] != "git."@[0]);
    assert("system.timezone"@.subrange(0, 4)[0] != "git."@[0]);
    assert("system.locale"@.subrange(0, 4)[0] != "git."@[0]);
    assert("laptop.enable_tlp"@.subrange(0, 7) =~= "laptop."@);
    assert("laptop.enable_auto_cpufreq"@.subrange(0, 7) =~= "laptop."@);
    assert("system.hostname"@.subrange(0, 7)[0] != "laptop."@[0]);
    assert("system.timezone"@.subrange(0, 7)[0] != "laptop."@[0]);
    assert("system.locale"@.subrange(0, 7)[0] != "laptop."@[0]);
    assert("system.hostname"@.subrange(0, 7) =~= "system."@);
    assert("system.timezone"@.subrange(0, 7) =~= "system."@);
    assert("system.locale"@.subrange(0, 7) =~= "system."@);
}

/// One assignment to a setting key sets that setting to the value assigned
/// and leaves every other setting as it was.
proof fn lemma_record_entry_sets(st: ConfigState, k: Seq<char>, v: ValueView, key: Seq<char>)
    requires
        record_key(key),
        config_entry(st, k, v) is Ok,
    ensures
        k == key ==> v == ValueView::Str(record_text(config_entry(st, k, v)->Ok_0, key).unwrap())
            && record_text(config_entry(st, k, v)->Ok_0, key) is Some,
        k != key ==> record_text(config_entry(st, k, v)->Ok_0, key) == record_text(st, key),
{
    lemma_record_keys();
}

/// A setting of the record holds the value of the last assignment to its key
/// (a `true` or `false` text for a laptop setting); with no assignment to its
/// key it keeps its initial value (empty for a git setting, `false` for a
/// laptop one, none for a system one).
pub proof fn law_record_setting_is_last_assignment(e: Seq<(Seq<char>, ValueView)>, key: Seq<char>)
    requires
        record_key(key),
        config_all(e) is Ok,
    ensures
        (forall|i: int| 0 <= i < e.len() ==> #[trigger] e[i].0 != key) ==> record_text(
            config_all(e)->Ok_0,
            key,
        ) == record_text(initial_config(), key),
        forall|i: int|
            0 <= i < e.len() && #[trigger] e[i].0 == key && (forall|j: int| i < j < e.len() ==> e[j].0 != key)
                ==> e[i].1 == ValueView::Str(record_text(config_all(e)->Ok_0, key).unwrap())
                && record_text(config_all(e)->Ok_0, key) is Some,
    decreases e.len(),
{
    if e.len() > 0 {
        let d = e.drop_last();
        assert(config_all(d) is Ok);
        law_record_setting_is_last_assignment(d, key);
        let st = config_all(d)->Ok_0;
        lemma_record_entry_sets(st, e.last().0, e.last().1, key);
        assert forall|i: int|
            0 <= i < e.len() && #[trigger] e[i].0 == key && (forall|j: int| i < j < e.len() ==> e[j].0 != key)
                implies e[i].1 == ValueView::Str(record_text(config_all(e)->Ok_0, key).unwrap())
                && record_text(config_all(e)->Ok_0, key) is Some by {
            if i < e.len() - 1 {
                assert(e[e.len() - 1].0 != key);
                assert(d[i] == e[i]);
                assert forall|j: int| i < j < d.len() implies d[j].0 != key by {
                    assert(d[j] == e[j]);
                }
            }
        }
        if forall|i: int| 0 <= i < e.len() ==> #[trigger] e[i].0 != key {
            assert forall|i: int| 0 <= i < d.len() implies #[trigger] d[i].0 != key by {
                assert(d[i] == e[i]);
            }
            assert(e[e.len() - 1].0 != key);
        }
    }
}

/// Once an assignment is refused, the whole configuration is refused with its message.
proof fn lemma_config_all_err(e: Seq<(Seq<char>, ValueView)>, i: int)
    requires
        0 <= i <= e.len(),
        config_all(e.subrange(0, i)) is Err,
    ensures
        config_all(e) == config_all(e.subrange(0, i)),
    decreases e.len() - i,
{
    if i < e.len() {
        assert(e.subrange(0, i + 1).drop_last() =~= e.subrange(0, i));
        lemma_config_all_err(e, i + 1);
    } else {
        assert(e.subrange(0, i) =~= e);
    }
}

/// The text of a value that must be a text.
fn extract_string(value: &Value) -> (r: Result<String, String>)
    ensures
        match string_of(value@) {
            Ok(x) => r matches Ok(s) && s@ == x,
            Err(m) => r matches Err(e) && e@ == m,
        },
{
    match value {
        Value::String(s) => Ok(copy_string(s)),
        _ => {
            let d = value_debug_text(value);
            Err(concat("Expected string, got ", d.as_str()))
        },
    }
}

/// The current state, read off the record being built.
spec fn state_of(c: Config) -> ConfigState {
    ConfigState {
        repo: c.git.repo@,
        branch: c.git.branch@,
        dotfiles_path: c.git.dotfiles_path@,
        enable_tlp: c.laptop.enable_tlp,
        enable_auto_cpufreq: c.laptop.enable_auto_cpufreq,
        hostname: opt_view(c.system.hostname),
        timezone: opt_view(c.system.timezone),
        locale: opt_view(c.system.locale),
        packages: c.packages.groups@,
        dependencies: c.dependencies.groups@,
    }
}

/// Turns the assignments of a configuration into the configuration record,
/// going through them in order; the first value of the wrong kind stops with
/// its message.
pub fn convert_to_config(raw: &ConfigMap) -> (r: Result<Config, String>)
    ensures
        match config_all(raw@) {
            Ok(st) => r matches Ok(c) && config_holds(c, st),
            Err(m) => r matches Err(e) && e@ == m,
        },
{
    let mut c = Config::default();
    let ghost e = raw@;
    let mut i: usize = 0;
    assert(e.subrange(0, 0) =~= Seq::<(Seq<char>, ValueView)>::empty());
    assert(state_of(c) == initial_config());
    while i < raw.len()
        invariant
            i <= e.len(),
            e == raw@,
            config_all(e.subrange(0, i as int)) == Ok::<ConfigState, Seq<char>>(state_of(c)),
        decreases e.len() - i,
    {
        let key = raw.key_at(i);
        let value = raw.value_at(i);
        let ghost st = state_of(c);
        assert(e.subrange(0, i + 1).drop_last() =~= e.subrange(0, i as int));
        assert(e.subrange(0, i + 1).last() == e[i as int]);
        let ghost next = config_entry(st, key@, value@);
        let k = key.as_str();
        let step: Result<(), String> = if starts_with(k, "git.") {
            if str_eq(k, "git.repo") {
                match extract_string(value) {
                    Ok(x) => {
                        c.git.repo = x;
                        Ok(())
                    },
                    Err(m) => Err(m),
                }
            } else if str_eq(k, "git.branch") {
                match extract_string(value) {
                    Ok(x) => {
                        c.git.branch = x;
                        Ok(())
                    },
                    Err(m) => Err(m),
                }
            } else if str_eq(k, "git.dotfiles_path") {
                match extract_string(value) {
                    Ok(x) => {
                        c.git.dotfiles_path = x;
                        Ok(())
                    },
                    Err(m) => Err(m),
                }
            } else {
                Ok(())
            }
        } else if starts_with(k, "laptop.") {
            if str_eq(k, "laptop.enable_tlp") {
                match extract_bool(value) {
                    Ok(b) => {
                        c.laptop.enable_tlp = b;
                        Ok(())
                    },
                    Err(m) => Err(m),
                }
            } else if str_eq(k, "laptop.enable_auto_cpufreq") {
                match extract_bool(value) {
                    Ok(b) => {
                        c.laptop.enable_auto_cpufreq = b;
                        Ok(())
                    },
                    Err(m) => Err(m),
                }
            } else {
                Ok(())
            }
        } else if starts_with(k, "system.") {
            if str_eq(k, "system.hostname") {
                match extract_string(value) {
                    Ok(x) => {
                        c.system.hostname = Some(x);
                        Ok(())
                    },
                    Err(m) => Err(m),
                }
            } else if str_eq(k, "system.timezone") {
                match extract_string(value) {
                    Ok(x) => {
                        c.system.timezone = Some(x);
                        Ok(())
                    },
                    Err(m) => Err(m),
                }
            } else if str_eq(k, "system.locale") {
                match extract_string(value) {
                    Ok(x) => {
                        c.system.locale = Some(x);
                        Ok(())
                    },
                    Err(m) => Err(m),
                }
            } else {
                Ok(())
            }
        } else if starts_with(k, "packages.") {
            match extract_list(value) {
                Ok(l) => {
                    let name = trim_start_matches(k, "packages.");
                    c.packages.groups.insert(name, Names(l));
                    Ok(())
                },
                Err(m) => Err(m),
            }
        } else if starts_with(k, "dependencies.") {
            match extract_list(value) {
                Ok(l) => {
                    let name = trim_start_matches(k, "dependencies.");
                    c.dependencies.groups.insert(name, Names(l));
                    Ok(())
                },
                Err(m) => Err(m),
            }
        } else {
            Ok(())
        };
        match step {
            Ok(()) => {},
            Err(m) => {
                proof {
                    lemma_config_all_err(e, i + 1);
                }
                return Err(m);
            },
        }
        assert(next == Ok::<ConfigState, Seq<char>>(state_of(c)));
        i = i + 1;
    }
    assert(e.subrange(0, e.len() as int) =~= e);
    Ok(c)
}

} // verus!
