use dotfiles_installer::dotfiles::percent_fits;
use dotfiles_installer::assoc::Table;
use dotfiles_installer::config::settings::{
    initialize, GitSettings, LaptopSettings, Settings, SystemSettings,
};
use dotfiles_installer::dotfiles::{
    clone_done_message, clone_error_message, clone_start_message, clone_success_message,
    clone_target, configure_laptop, current_branch_message, expand_path, expand_tilde,
    hyprland_config_path, join_path, laptop_mode, receiving_message, sideband_message,
    stow_config, stow_message, transfer_percent, CloneError, CloneKind, LaptopStep, StowError,
};

fn s(x: &str) -> String {
    x.to_string()
}

fn with_git(repo: Option<&str>, branch: Option<&str>, path: Option<&str>) -> Settings {
    initialize(
        GitSettings { repo: repo.map(s), branch: branch.map(s), dotfiles_path: path.map(s) },
        Table::new(),
        LaptopSettings::default(),
        SystemSettings::default(),
    )
}

#[test]
fn paths() {
    assert_eq!(join_path("/home/u", ".dotfiles"), s("/home/u/.dotfiles"));
    assert_eq!(join_path("/home/u/", ".dotfiles"), s("/home/u/.dotfiles"));
    assert_eq!(join_path("/home/u", "/abs"), s("/abs"));
    assert_eq!(join_path("", "rel"), s("rel"));
    assert_eq!(join_path("/home/u", ""), s("/home/u/"));
    assert_eq!(expand_path("~/.dotfiles", Some("/home/u")), Some(s("/home/u/.dotfiles")));
    assert_eq!(expand_path("/opt/dots", None), Some(s("/opt/dots")));
    assert_eq!(expand_path("~/x", None), None);
    assert_eq!(expand_path("~user/x", None), Some(s("~user/x")));
    assert_eq!(expand_tilde("~/.config/x.conf", Some("/root")), Some(s("/root/.config/x.conf")));
    assert_eq!(expand_tilde("~/a", Some("/root/")), Some(s("/root//a")));
    assert_eq!(expand_tilde("rel/a", None), Some(s("rel/a")));
    assert_eq!(hyprland_config_path("/home/u"), s("/home/u/.config/hypr/hyprland.conf"));
}

#[test]
fn clone_defaults_and_errors() {
    let t = clone_target(&with_git(Some("https://x/d"), None, None), Some("/home/u")).unwrap();
    assert_eq!(t.url, s("https://x/d"));
    assert_eq!(t.branch, s("main"));
    assert_eq!(t.path, s("/home/u/.dotfiles"));
    let t = clone_target(&with_git(Some("r"), Some("dev"), Some("/srv/d")), None).unwrap();
    assert_eq!(t.branch, s("dev"));
    assert_eq!(t.path, s("/srv/d"));
    assert_eq!(clone_target(&with_git(None, None, None), Some("/h")).err(), Some(CloneError::NoRepository));
    assert_eq!(clone_target(&with_git(Some("r"), None, None), None).err(), Some(CloneError::NoHome));
}

#[test]
fn clone_progress_and_messages() {
    assert_eq!(transfer_percent(50, 200), 25);
    assert_eq!(transfer_percent(3, 0), 0);
    assert_eq!(transfer_percent(7, 7), 100);
    assert_eq!(sideband_message("  Counting objects: 10\r\n"), Some(s("Counting objects: 10")));
    assert_eq!(sideband_message(" \n\t"), None);
    assert_eq!(receiving_message(12, 40), s("Receiving objects: 12/40"));
    assert_eq!(clone_start_message(CloneKind::Shallow), s("Cloning repository (shallow clone)..."));
    assert_eq!(clone_done_message(CloneKind::Private), s("Private clone completed"));
    assert_eq!(clone_done_message(CloneKind::Full), s("Clone completed"));
    assert_eq!(
        clone_success_message(CloneKind::Full, "main"),
        s("Repository cloned successfully on branch: main")
    );
    assert_eq!(
        clone_success_message(CloneKind::Private, "main"),
        s("Private repository cloned successfully")
    );
    assert_eq!(
        clone_error_message(CloneKind::Full, "not found"),
        s("Error while cloning dotfiles repository: not found")
    );
    assert_eq!(clone_error_message(CloneKind::Shallow, "x"), s("Failed to clone: x"));
    assert_eq!(current_branch_message("dev"), s("Current branch: dev"));
}

#[test]
fn stow_directories() {
    let p = stow_config(&with_git(None, None, Some("~/.dotfiles")), Some("/home/u")).unwrap();
    assert_eq!(p.stow_dir, s("/home/u/.dotfiles"));
    assert_eq!(p.target_dir, s("/home/u"));
    assert_eq!(stow_message(&p), s("Stowing dotfiles from /home/u/.dotfiles to /home/u"));
    assert_eq!(stow_config(&with_git(None, None, None), Some("/h")).err(), Some(StowError::NotConfigured));
    assert_eq!(stow_config(&with_git(None, None, Some("/x")), None).err(), Some(StowError::NoHome));
}

#[test]
fn laptop_module_line() {
    let line = "source = ./modules/laptop.conf\n";
    assert_eq!(laptop_mode(None), Some(s(line)));
    assert_eq!(laptop_mode(Some("")), Some(s(line)));
    assert_eq!(laptop_mode(Some("monitor=,auto")), Some(format!("\n{}", line)));
    assert_eq!(laptop_mode(Some("a\n  source = ./modules/laptop.conf  \nb")), None);
    let once = format!("x\n{}", laptop_mode(Some("x")).unwrap());
    assert_eq!(laptop_mode(Some(&once)), None);
}

#[test]
fn laptop_steps() {
    let mut st = with_git(None, None, None);
    assert_eq!(configure_laptop(&st), vec![LaptopStep::LaptopMode]);
    st.laptop = LaptopSettings { enable_tlp: true, enable_auto_cpufreq: true };
    assert_eq!(
        configure_laptop(&st),
        vec![LaptopStep::EnableTlp, LaptopStep::EnableAutoCpufreq, LaptopStep::LaptopMode]
    );
}

#[test]
fn percentage_overflow_check() {
    assert!(percent_fits(usize::MAX / 100));
    assert!(!percent_fits(usize::MAX / 100 + 1));
}
