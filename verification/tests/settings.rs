use dotfiles_installer::config::convert::{settings_warnings, unknown_key_warnings};
use dotfiles_installer::assoc::Table;
use dotfiles_installer::config::convert::{build_settings, init};
use dotfiles_installer::config::parser::{ConfigMap, Parser};
use dotfiles_installer::config::settings::{
    dotfiles_branch, dotfiles_path, dotfiles_repo, get_packages_for_groups, initialize,
    is_auto_cpufreq_enabled, is_tlp_enabled, package_group, package_groups, system_hostname,
    GitSettings, LaptopSettings, PackageGroup, SystemSettings,
};
use dotfiles_installer::cli::commands::example_config_text;
use dotfiles_installer::config::structs::{convert_to_config, Config};

fn s(x: &str) -> String {
    x.to_string()
}

fn raw(text: &str) -> ConfigMap {
    Parser::new().parse_content_checked(text).unwrap().unwrap().assignments
}

#[test]
fn settings_from_a_configuration() {
    let st = build_settings(&raw(
        "git.repo = \"https://example.org/d\"\ngit.branch = \"dev\"\nlaptop.enable_tlp = \"true\"\npackages.base = [\"git\"]\ndependencies.base = [\"core\"]\ndependencies.extra = [\"base\"]\nunknown.key = \"x\"\n",
    ))
    .unwrap();
    assert_eq!(dotfiles_repo(&st), Some(&s("https://example.org/d")));
    assert_eq!(dotfiles_branch(&st), Some(&s("dev")));
    assert_eq!(dotfiles_path(&st), None);
    assert!(is_tlp_enabled(&st));
    assert!(!is_auto_cpufreq_enabled(&st));
    assert_eq!(system_hostname(&st), None);
    let groups = package_groups(&st);
    assert_eq!(groups.len(), 2);
    assert_eq!(groups.key_at(0), &s("base"));
    assert_eq!(groups.key_at(1), &s("extra"));
    let base = package_group(&st, "base").unwrap();
    assert_eq!(base.packages, vec![s("git")]);
    assert_eq!(base.dependencies, vec![s("core")]);
    let extra = package_group(&st, "extra").unwrap();
    assert!(extra.packages.is_empty());
    assert_eq!(extra.dependencies, vec![s("base")]);
}

#[test]
fn repeated_prefix_is_removed_from_group_names() {
    let st = build_settings(&raw("packages.packages.x = [\"a\"]")).unwrap();
    assert!(package_group(&st, "x").is_some());
}

#[test]
fn wrong_kinds_are_refused() {
    assert_eq!(
        build_settings(&raw("laptop.enable_tlp = \"yes\"")).err(),
        Some(s("Expected boolean, got String(\"yes\")"))
    );
    assert_eq!(
        build_settings(&raw("packages.x = \"a\"")).err(),
        Some(s("Expected list, got String(\"a\")"))
    );
    assert_eq!(
        build_settings(&raw("git.repo = [\"a\", \"b\"]")).err(),
        Some(s("Expected string, got List([\"a\", \"b\"])"))
    );
    assert_eq!(
        build_settings(&raw("laptop.enable_auto_cpufreq = [\"true\"]")).err(),
        Some(s("Expected boolean, got List([\"true\"])"))
    );
}

#[test]
fn empty_configuration() {
    let st = init();
    assert_eq!(dotfiles_repo(&st), None);
    assert_eq!(package_groups(&st).len(), 0);
    assert!(!is_tlp_enabled(&st));
}

#[test]
fn packages_of_named_groups_sorted_once() {
    let mut groups = Table::new();
    groups.insert(s("a"), PackageGroup { packages: vec![s("vim"), s("git")], dependencies: vec![] });
    groups.insert(s("b"), PackageGroup { packages: vec![s("git"), s("curl")], dependencies: vec![] });
    let st = initialize(
        GitSettings::default(),
        groups,
        LaptopSettings::default(),
        SystemSettings::default(),
    );
    assert_eq!(
        get_packages_for_groups(&st, &vec![s("a"), s("b"), s("missing")]),
        vec![s("curl"), s("git"), s("vim")]
    );
}

#[test]
fn configuration_record() {
    let c = convert_to_config(&raw(
        "git.repo = \"r\"\nsystem.hostname = \"box\"\nsystem.timezone = \"Europe/Berlin\"\nlaptop.enable_auto_cpufreq = \"false\"\npackages.dev = [\"gcc\"]\ndependencies.dev = [\"base\"]\n",
    ))
    .unwrap();
    assert_eq!(c.git.repo, s("r"));
    assert_eq!(c.git.branch, s(""));
    assert_eq!(c.system.hostname, Some(s("box")));
    assert_eq!(c.system.timezone, Some(s("Europe/Berlin")));
    assert_eq!(c.system.locale, None);
    assert!(!c.laptop.enable_auto_cpufreq);
    assert_eq!(c.packages.groups.get("dev").unwrap().0, vec![s("gcc")]);
    assert_eq!(c.dependencies.groups.get("dev").unwrap().0, vec![s("base")]);
    assert_eq!(
        convert_to_config(&raw("system.locale = [\"x\"]")).err(),
        Some(s("Expected string, got List([\"x\"])"))
    );
    let d = Config::default();
    assert_eq!(d.git.repo, s(""));
    assert_eq!(d.packages.groups.len(), 0);
}

#[test]
fn example_configuration_is_accepted() {
    let f = Parser::new().parse_content_checked(&example_config_text()).unwrap().unwrap();
    assert!(f.includes.is_empty());
    let st = build_settings(&f.assignments).unwrap();
    assert_eq!(dotfiles_repo(&st), Some(&s("https://github.com/user/dotfiles")));
    assert_eq!(dotfiles_path(&st), Some(&s("~/.dotfiles")));
    assert!(is_tlp_enabled(&st));
    assert_eq!(package_groups(&st).len(), 3);
    assert_eq!(package_group(&st, "desktop").unwrap().dependencies, vec![s("base")]);
}

#[test]
fn configuration_warnings() {
    let r = raw(
        "git.repo = \"r\"\ngit.colour = \"x\"\nlaptop.fan = \"true\"\nsystem.hostname = \"box\"\nsystem.shell = \"zsh\"\nfoo = \"1\"\npackages.base = [\"git\"]\ndependencies.base = [\"core\"]\ndependencies.extra = [\"base\"]\n",
    );
    assert_eq!(
        settings_warnings(&r),
        vec![
            s("Warning: unknown git key: git.colour"),
            s("Warning: unknown laptop key: laptop.fan"),
            s("Warning: unknown key: system.hostname"),
            s("Warning: unknown key: system.shell"),
            s("Warning: unknown key: foo"),
            s("Warning: dependencies for unknown group 'extra'"),
        ]
    );
    assert_eq!(
        unknown_key_warnings(&r, true),
        vec![
            s("Warning: unknown git key: git.colour"),
            s("Warning: unknown laptop key: laptop.fan"),
            s("Warning: unknown system key: system.shell"),
            s("Warning: unknown key: foo"),
        ]
    );
    // A refused configuration reports its unused keys but no groups.
    let bad = raw("foo = \"1\"\nlaptop.enable_tlp = \"maybe\"\ndependencies.x = [\"a\"]");
    assert_eq!(settings_warnings(&bad), vec![s("Warning: unknown key: foo")]);
}
