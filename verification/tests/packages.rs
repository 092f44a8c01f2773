use dotfiles_installer::packages::list::{installation_stall, stall_message};
use dotfiles_installer::assoc::Table;
use dotfiles_installer::cli::commands::{list_rows, table_head, table_row};
use dotfiles_installer::config::settings::{
    initialize, GitSettings, LaptopSettings, PackageGroup, Settings, SystemSettings,
};
use dotfiles_installer::packages::install::{
    get_aur_packages, get_pacman_packages, install_all, install_failure_message, install_outcome,
    pacman_install_args,
    packages_by_type, progress_message,
};
use dotfiles_installer::packages::list::{
    check_dependencies, get_all_groups, get_installation_order, get_packages_with_order,
};

fn s(x: &str) -> String {
    x.to_string()
}

fn v(xs: &[&str]) -> Vec<String> {
    xs.iter().map(|x| x.to_string()).collect()
}

fn settings(groups: &[(&str, &[&str], &[&str])]) -> Settings {
    let mut t = Table::new();
    for (name, pkgs, deps) in groups {
        t.insert(s(name), PackageGroup { packages: v(pkgs), dependencies: v(deps) });
    }
    initialize(GitSettings::default(), t, LaptopSettings::default(), SystemSettings::default())
}

fn sample() -> Settings {
    settings(&[
        ("base", &["vim", "git"], &[]),
        ("aur", &["paru-bin"], &[]),
        ("desktop", &["waybar", "hyprland", "git"], &["base"]),
        ("extra", &["yay-bin"], &["aur", "base"]),
    ])
}

#[test]
fn official_and_aur_packages_are_split() {
    let st = sample();
    let req = v(&["desktop", "extra"]);
    assert_eq!(get_pacman_packages(&st, &req), v(&["git", "hyprland", "vim", "waybar"]));
    assert_eq!(get_aur_packages(&st, &req), v(&["paru-bin", "yay-bin"]));
    let plan = install_all(&st, &req).unwrap();
    assert_eq!(plan.pacman, v(&["git", "hyprland", "vim", "waybar"]));
    assert_eq!(plan.aur, v(&["paru-bin", "yay-bin"]));
}

#[test]
fn unknown_groups_give_nothing() {
    let st = sample();
    assert!(get_pacman_packages(&st, &v(&["nope"])).is_empty());
    assert!(get_aur_packages(&st, &v(&[])).is_empty());
}

#[test]
fn dependency_cycle_is_reported() {
    let st = settings(&[("a", &["x"], &["b"]), ("b", &["y"], &["a"])]);
    assert!(packages_by_type(&st, &v(&["a"]), false).is_none());
    assert!(install_all(&st, &v(&["b"])).is_none());
    // A cycle that the requested groups do not reach does not matter.
    let st = settings(&[("a", &["x"], &["b"]), ("b", &["y"], &["a"]), ("c", &["z"], &[])]);
    assert_eq!(packages_by_type(&st, &v(&["c"]), false), Some(v(&["z"])));
}

#[test]
fn installation_order_puts_dependencies_first() {
    let st = sample();
    assert_eq!(
        get_installation_order(&st, &v(&["desktop", "base"])),
        vec![v(&["git", "vim"]), v(&["git", "hyprland", "waybar"])]
    );
    assert_eq!(
        get_packages_with_order(&st, &v(&["desktop", "base"])),
        v(&["git", "vim", "git", "hyprland", "waybar"])
    );
}

#[test]
fn installation_order_stops_when_stuck() {
    let st = sample();
    // `desktop` waits for `base`, which is not requested.
    assert!(get_installation_order(&st, &v(&["desktop"])).is_empty());
    let st = settings(&[("a", &["x"], &["b"]), ("b", &["y"], &["a"])]);
    assert!(get_installation_order(&st, &v(&["a", "b"])).is_empty());
}

#[test]
fn a_group_needs_its_dependencies_packages() {
    let st = sample();
    assert_eq!(check_dependencies(&st, "desktop"), v(&["git", "hyprland", "vim", "waybar"]));
    assert_eq!(check_dependencies(&st, "extra"), v(&["git", "paru-bin", "vim", "yay-bin"]));
    assert!(check_dependencies(&st, "missing").is_empty());
    let cyc = settings(&[("a", &["x"], &["b"]), ("b", &["y"], &["a"])]);
    assert_eq!(check_dependencies(&cyc, "a"), v(&["x", "y"]));
}

#[test]
fn all_groups_carry_their_names() {
    let st = sample();
    let all = get_all_groups(&st);
    assert_eq!(all.len(), 4);
    let d = all.get("desktop").unwrap();
    assert_eq!(d.name, s("desktop"));
    assert_eq!(d.dependencies, v(&["base"]));
}

#[test]
fn list_counts_by_kind() {
    let st = settings(&[("tools", &["paru-bin", "neovim-git", "ripgrep"], &["base", "aur"])]);
    let all = list_rows(&st.groups, false, false);
    assert_eq!(all[0].package_count, 3);
    assert_eq!(all[0].dependencies, s("base, aur"));
    assert_eq!(list_rows(&st.groups, true, false)[0].package_count, 2);
    assert_eq!(list_rows(&st.groups, false, true)[0].package_count, 1);
    assert_eq!(table_row(&all[0]), format!("{:<15} {:<10} {}", "tools", "3", "base, aur"));
    let (head, rule) = table_head();
    assert_eq!(head, format!("{:<15} {:<10} Dependencies", "Group", "Packages"));
    assert_eq!(rule, format!("{:-<15} {:-<10} {:-<20}", "", "", ""));
}

#[test]
fn install_messages() {
    assert_eq!(install_outcome(&vec![]), Ok(()));
    assert_eq!(
        install_outcome(&v(&["a", "b"])),
        Err(s("Failed to install: [\"a\", \"b\"]"))
    );
    assert_eq!(install_failure_message(&v(&["x"])), s("Failed to install: [\"x\"]"));
    assert_eq!(progress_message("Installing ", "vim", "", 0, 3), s("Installing vim (1/3)"));
    assert_eq!(
        progress_message("Building ", "paru-bin", " from AUR", 1, 2),
        s("Building paru-bin from AUR (2/2)")
    );
}

#[test]
fn needs_are_what_installing_the_group_installs() {
    let st = sample();
    for g in ["base", "aur", "desktop", "extra", "missing"] {
        let plan = install_all(&st, &v(&[g])).unwrap();
        let mut both = plan.pacman.clone();
        both.extend(plan.aur.clone());
        both.sort();
        both.dedup();
        assert_eq!(check_dependencies(&st, g), both);
    }
}

#[test]
fn where_the_order_stalls() {
    let st = sample();
    assert_eq!(installation_stall(&st, &v(&["desktop", "base"])), None);
    assert_eq!(installation_stall(&st, &v(&["desktop"])), Some(v(&["desktop"])));
    let cyc = settings(&[("a", &["x"], &["b"]), ("b", &["y"], &["a"]), ("c", &["z"], &[])]);
    assert_eq!(installation_stall(&cyc, &v(&["a", "c", "b"])), Some(v(&["a", "b"])));
    assert_eq!(get_installation_order(&cyc, &v(&["a", "c", "b"])), vec![v(&["z"])]);
    assert_eq!(stall_message(&v(&["a", "b"])), s("Cycle of dependies : [\"a\", \"b\"]"));
}

#[test]
fn forced_reinstall_drops_needed() {
    assert_eq!(pacman_install_args("vim", false), v(&["pacman", "-S", "--noconfirm", "--needed", "vim"]));
    assert_eq!(pacman_install_args("vim", true), v(&["pacman", "-S", "--noconfirm", "vim"]));
}
