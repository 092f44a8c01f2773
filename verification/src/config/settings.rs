//! The settings that a configuration file yields, and their accessors.
use vstd::prelude::*;
use crate::assoc::{lookup, Duplicate, Table};
use crate::text::{copy_strings, is_sorted_dedup_of, sort_dedup, views};

verus! {

/// Where the dotfiles come from and where they go.
pub struct GitSettings {
    pub repo: Option<String>,
    pub branch: Option<String>,
    pub dotfiles_path: Option<String>,
}

/// The packages of a group and the groups it depends on.
pub struct PackageGroup {
    pub packages: Vec<String>,
    pub dependencies: Vec<String>,
}

/// Power management choices for laptops.
pub struct LaptopSettings {
    pub enable_tlp: bool,
    pub enable_auto_cpufreq: bool,
}

/// System files to set up.
pub struct SystemSettings {
    pub hostname: Option<String>,
    pub locale: Option<String>,
    pub localtime: Option<String>,
    pub sudoers: Option<String>,
    pub hosts: Option<String>,
}

/// Everything the configuration sets.
pub struct Settings {
    pub git: GitSettings,
    pub groups: Table<PackageGroup>,
    pub laptop: LaptopSettings,
    pub system: SystemSettings,
}

/// The mathematical value of a [`PackageGroup`].
pub struct GroupView {
    pub packages: Seq<Seq<char>>,
    pub dependencies: Seq<Seq<char>>,
}

impl View for PackageGroup {
    type V = GroupView;

    open spec fn view(&self) -> GroupView {
        GroupView { packages: views(self.packages@), dependencies: views(self.dependencies@) }
    }
}

impl Duplicate for PackageGroup {
    fn duplicate(&self) -> (r: PackageGroup) {
        PackageGroup {
            packages: copy_strings(&self.packages),
            dependencies: copy_strings(&self.dependencies),
        }
    }
}

/// The text held by an optional `String`.
pub open spec fn opt_view(o: Option<String>) -> Option<Seq<char>> {
    match o {
        Some(s) => Some(s@),
        None => None,
    }
}

/// The text held by an optional reference to a `String`.
pub open spec fn opt_ref_view(o: Option<&String>) -> Option<Seq<char>> {
    match o {
        Some(s) => Some(s@),
        None => None,
    }
}

impl Default for GitSettings {
    /// No repository, branch or path configured.
    fn default() -> (r: GitSettings)
        ensures
            r.repo is None,
            r.branch is None,
            r.dotfiles_path is None,
    {
        GitSettings { repo: None, branch: None, dotfiles_path: None }
    }
}

impl Default for LaptopSettings {
    /// Neither TLP nor auto-cpufreq.
    fn default() -> (r: LaptopSettings)
        ensures
            !r.enable_tlp,
            !r.enable_auto_cpufreq,
    {
        LaptopSettings { enable_tlp: false, enable_auto_cpufreq: false }
    }
}

impl Default for SystemSettings {
    /// No system file configured.
    fn default() -> (r: SystemSettings)
        ensures
            r.hostname is None,
            r.locale is None,
            r.localtime is None,
            r.sudoers is None,
            r.hosts is None,
    {
        SystemSettings { hostname: None, locale: None, localtime: None, sudoers: None, hosts: None }
    }
}

/// The settings made of the four parts.
pub fn initialize(
    git: GitSettings,
    groups: Table<PackageGroup>,
    laptop: LaptopSettings,
    system: SystemSettings,
) -> (r: Settings)
    ensures
        r.git == git,
        r.groups@ == groups@,
        r.laptop == laptop,
        r.system == system,
{
    Settings { git, groups, laptop, system }
}

/// The git settings.
pub fn git(s: &Settings) -> (r: &GitSettings)
    ensures
        r == &s.git,
{
    &s.git
}

/// The package groups by name.
pub fn package_groups(s: &Settings) -> (r: &Table<PackageGroup>)
    ensures
        r@ == s.groups@,
{
    &s.groups
}

/// The group called `name`.
pub fn package_group<'a>(s: &'a Settings, name: &str) -> (r: Option<&'a PackageGroup>)
    ensures
        match r {
            Some(g) => lookup(s.groups@, name@) == Some(g@),
            None => lookup(s.groups@, name@) is None,
        },
{
    s.groups.get(name)
}

/// The laptop settings.
pub fn laptop(s: &Settings) -> (r: &LaptopSettings)
    ensures
        r == &s.laptop,
{
    &s.laptop
}

/// The system settings.
pub fn system(s: &Settings) -> (r: &SystemSettings)
    ensures
        r == &s.system,
{
    &s.system
}

/// The configured dotfiles repository.
pub fn dotfiles_repo(s: &Settings) -> (r: Option<&String>)
    ensures
        opt_ref_view(r) == opt_view(s.git.repo),
{
    s.git.repo.as_ref()
}

/// The configured branch.
pub fn dotfiles_branch(s: &Settings) -> (r: Option<&String>)
    ensures
        opt_ref_view(r) == opt_view(s.git.branch),
{
    s.git.branch.as_ref()
}

/// The configured checkout path.
pub fn dotfiles_path(s: &Settings) -> (r: Option<&String>)
    ensures
        opt_ref_view(r) == opt_view(s.git.dotfiles_path),
{
    s.git.dotfiles_path.as_ref()
}

/// Whether TLP is to be enabled.
pub fn is_tlp_enabled(s: &Settings) -> (r: bool)
    ensures
        r == s.laptop.enable_tlp,
{
    s.laptop.enable_tlp
}

/// Whether auto-cpufreq is to be enabled.
pub fn is_auto_cpufreq_enabled(s: &Settings) -> (r: bool)
    ensures
        r == s.laptop.enable_auto_cpufreq,
{
    s.laptop.enable_auto_cpufreq
}

/// The configured host name.
pub fn system_hostname(s: &Settings) -> (r: Option<&String>)
    ensures
        opt_ref_view(r) == opt_view(s.system.hostname),
{
    s.system.hostname.as_ref()
}

/// The configured locale.
pub fn system_locale(s: &Settings) -> (r: Option<&String>)
    ensures
        opt_ref_view(r) == opt_view(s.system.locale),
{
    s.system.locale.as_ref()
}

/// The configured time zone file.
pub fn system_localtime(s: &Settings) -> (r: Option<&String>)
    ensures
        opt_ref_view(r) == opt_view(s.system.localtime),
{
    s.system.localtime.as_ref()
}

/// The configured sudoers rule.
pub fn system_sudoers(s: &Settings) -> (r: Option<&String>)
    ensures
        opt_ref_view(r) == opt_view(s.system.sudoers),
{
    s.system.sudoers.as_ref()
}

/// The configured hosts file.
pub fn system_hosts(s: &Settings) -> (r: Option<&String>)
    ensures
        opt_ref_view(r) == opt_view(s.system.hosts),
{
    s.system.hosts.as_ref()
}

/// The packages of the named groups, one group after the other; names without a
/// group contribute nothing.
pub open spec fn packages_of_groups(
    groups: Seq<(Seq<char>, GroupView)>,
    names: Seq<Seq<char>>,
) -> Seq<Seq<char>>
    decreases names.len(),
{
    if names.len() == 0 {
        Seq::empty()
    } else {
        let before = packages_of_groups(groups, names.drop_last());
        match lookup(groups, names.last()) {
            Some(g) => before + g.packages,
            None => before,
        }
    }
}

/// The packages of the named groups, sorted by name and without repeats.
pub fn get_packages_for_groups(s: &Settings, group_names: &Vec<String>) -> (r: Vec<String>)
    ensures
        is_sorted_dedup_of(views(r@), packages_of_groups(s.groups@, views(group_names@))),
{
    let mut packages: Vec<String> = Vec::new();
    let ghost names = views(group_names@);
    let mut i: usize = 0;
    assert(views(packages@) =~= packages_of_groups(s.groups@, names.subrange(0, 0)));
    while i < group_names.len()
        invariant
            i <= group_names@.len(),
            names == views(group_names@),
            views(packages@) == packages_of_groups(s.groups@, names.subrange(0, i as int)),
        decreases group_names.len() - i,
    {
        assert(names.subrange(0, i + 1).drop_last() =~= names.subrange(0, i as int));
        match s.groups.get(group_names[i].as_str()) {
            Some(group) => {
                let ghost before = views(packages@);
                let mut k: usize = 0;
                while k < group.packages.len()
                    invariant
                        k <= group.packages@.len(),
                        views(packages@) == before + views(group.packages@).subrange(0, k as int),
                    decreases group.packages.len() - k,
                {
                    let ghost p = packages@;
                    let c = crate::text::copy_string(&group.packages[k]);
                    packages.push(c);
                    proof {
                        crate::text::lemma_views_push(p, c);
                    }
                    assert(views(packages@) =~= before + views(group.packages@).subrange(
                        0,
                        k + 1,
                    ));
                    k = k + 1;
                }
                assert(views(group.packages@).subrange(0, group.packages@.len() as int) =~= views(
                    group.packages@,
                ));
            },
            None => {},
        }
        i = i + 1;
    }
    assert(names.subrange(0, group_names@.len() as int) =~= names);
    sort_dedup(packages)
}

} // verus!
