use dotfiles_installer::cli::args::{Args, Commands, InitArgs, InstallArgs, ListArgs, RemoveArgs};
use dotfiles_installer::cli::commands::{
    debug_strings, example_config_text, handle_subcommand, pad, SubcommandPlan,
};
use dotfiles_installer::cli::interactive::{
    confirm_answer, confirm_destructive_action, confirm_installation_step,
    destructive_action_message, installation_step_message, select_package_groups,
    InteractivePrompt, Prompt,
};
use dotfiles_installer::cli::prompt_manager::{Answer, PromptManager};
use dotfiles_installer::cli::validator::validate_args;

fn s(x: &str) -> String {
    x.to_string()
}

fn v(xs: &[&str]) -> Vec<String> {
    xs.iter().map(|x| x.to_string()).collect()
}

fn args() -> Args {
    Args {
        config: None,
        verbose: false,
        groups: vec![],
        skip_packages: false,
        skip_dotfiles: false,
        skip_hardware: false,
        force: false,
        dry_run: false,
        assume_yes: false,
        interactive: false,
        log: false,
        command: None,
    }
}

#[test]
fn valid_arguments_pass() {
    let mut a = args();
    a.groups = v(&["base", "dev_tools", "wm-2"]);
    a.config = Some(s("~/c.conf"));
    assert_eq!(validate_args(&a), Ok(()));
}

#[test]
fn argument_errors_in_order() {
    let mut a = args();
    a.config = Some(s(""));
    a.groups = v(&["", "a b", "ok"]);
    a.command = Some(Commands::List(ListArgs { aur: true, pacman: true }));
    assert_eq!(
        validate_args(&a),
        Err(v(&[
            "Config path cannot be empty",
            "Group name cannot be empty",
            "Invalid group name 'a b': only letters, numbers, _ and - allowed",
            "Cannot use --aur and --pacman together",
        ]))
    );
}

#[test]
fn unicode_letters_are_allowed_in_group_names() {
    let mut a = args();
    a.groups = v(&["grüppe", "группа", "x1"]);
    assert_eq!(validate_args(&a), Ok(()));
    a.groups = v(&["a.b"]);
    assert_eq!(
        validate_args(&a),
        Err(v(&["Invalid group name 'a.b': only letters, numbers, _ and - allowed"]))
    );
}

#[test]
fn subcommand_errors() {
    let mut a = args();
    a.command = Some(Commands::Install(InstallArgs { packages: vec![], aur: false }));
    assert_eq!(validate_args(&a), Err(v(&["No packages specified for installation"])));
    a.command = Some(Commands::Install(InstallArgs { packages: v(&["", "x", ""]), aur: true }));
    assert_eq!(
        validate_args(&a),
        Err(v(&["Package name cannot be empty", "Package name cannot be empty"]))
    );
    a.command = Some(Commands::Remove(RemoveArgs { packages: vec![] }));
    assert_eq!(validate_args(&a), Err(v(&["No packages specified for removal"])));
    a.command = Some(Commands::Init(InitArgs { path: s("") }));
    assert_eq!(validate_args(&a), Err(v(&["Path cannot be empty"])));
}

#[test]
fn prompt_policy() {
    let mut a = args();
    let quiet_free = PromptManager::new(&a);
    assert!(!quiet_free.quiet);
    assert!(matches!(quiet_free.confirm("Go?", false), Answer::Decided(false)));
    assert!(matches!(quiet_free.confirm_step("GPU", "x"), Answer::Decided(true)));
    match quiet_free.select("Pick", &v(&["one", "two"])) {
        Answer::Decided(Some(x)) => assert_eq!(x, s("one")),
        _ => panic!("a non-interactive run takes the first option"),
    }
    assert!(matches!(quiet_free.select("Pick", &vec![]), Answer::Decided(None)));
    match quiet_free.select_multiple("Pick", &v(&["a", "b"])) {
        Answer::Decided(x) => assert_eq!(x, v(&["a", "b"])),
        _ => panic!("a non-interactive run takes every option"),
    }

    a.assume_yes = true;
    a.interactive = true;
    let yes = PromptManager::new(&a);
    assert!(matches!(yes.confirm("Go?", false), Answer::Decided(true)));
    assert!(matches!(yes.confirm_step("GPU", "x"), Answer::Decided(true)));

    a.assume_yes = false;
    let ask = PromptManager::new(&a);
    match ask.confirm("Go?", false) {
        Answer::Ask(Prompt::Confirm { message, default }) => {
            assert_eq!(message, s("Go?"));
            assert!(!default);
        }
        _ => panic!("an interactive run asks"),
    }
    match ask.confirm_step("GPU", "Install GPU drivers") {
        Answer::Ask(Prompt::Confirm { message, default }) => {
            assert_eq!(message, s("GPU: Install GPU drivers\nProceed with this step?"));
            assert!(default);
        }
        _ => panic!("an interactive run asks"),
    }
    assert!(matches!(ask.select("Pick", &v(&["a"])), Answer::Ask(Prompt::Select { .. })));
}

#[test]
fn questions() {
    assert_eq!(
        installation_step_message("Dotfiles", "Clone"),
        s("Dotfiles: Clone\nProceed with this step?")
    );
    assert_eq!(
        destructive_action_message("Wipe /etc."),
        s("WARNING: Wipe /etc. This may modify system files. Continue?")
    );
    match confirm_destructive_action("Wipe.") {
        Prompt::Confirm { message, default } => {
            assert_eq!(message, s("WARNING: Wipe. This may modify system files. Continue?"));
            assert!(!default);
        }
        _ => panic!("a yes/no question"),
    }
    match confirm_installation_step("Packages", "Install") {
        Prompt::Confirm { default, .. } => assert!(default),
        _ => panic!("a yes/no question"),
    }
    match select_package_groups(&v(&["base", "dev"])) {
        Prompt::SelectMultiple { message, options } => {
            assert_eq!(message, s("Select package groups to install:"));
            assert_eq!(options, v(&["base", "dev"]));
        }
        _ => panic!("a choice of several"),
    }
    let p = InteractivePrompt::new();
    match p.ask_yes_no("Sure?") {
        Prompt::Confirm { message, default } => {
            assert_eq!(message, s("Sure?"));
            assert!(!default);
        }
        _ => panic!("a yes/no question"),
    }
    match p.ask_text("Name", Some("box")) {
        Prompt::Text { message, suggestion } => {
            assert_eq!(message, s("Name"));
            assert_eq!(suggestion, Some(s("box")));
        }
        _ => panic!("a text question"),
    }
    assert!(confirm_answer(true, None));
    assert!(!confirm_answer(true, Some(false)));
}

#[test]
fn subcommands() {
    match handle_subcommand(&Commands::Init(InitArgs { path: s("config.example.toml") }), None) {
        Some(SubcommandPlan::CreateConfig { message, path, contents }) => {
            assert_eq!(message, s("Creating example config at: config.example.toml"));
            assert_eq!(path, s("config.example.toml"));
            assert_eq!(contents, example_config_text());
        }
        _ => panic!("init writes the example configuration"),
    }
    let pk = v(&["vim", "say \"hi\""]);
    match handle_subcommand(&Commands::Install(InstallArgs { packages: pk.clone(), aur: false }), None) {
        Some(SubcommandPlan::Print(m)) => assert_eq!(m, format!("Installing packages: {:?}", pk)),
        _ => panic!("install prints"),
    }
    match handle_subcommand(&Commands::Remove(RemoveArgs { packages: v(&["a"]) }), None) {
        Some(SubcommandPlan::Print(m)) => assert_eq!(m, s("Removing packages: [\"a\"]")),
        _ => panic!("remove prints"),
    }
    match handle_subcommand(&Commands::List(ListArgs { aur: true, pacman: false }), Some("/home/u")) {
        Some(SubcommandPlan::List { config_path, aur, pacman }) => {
            assert_eq!(config_path, s("/home/u/.config/dotfiles-installer/config.toml"));
            assert!(aur);
            assert!(!pacman);
        }
        _ => panic!("list reads the configuration"),
    }
    assert!(handle_subcommand(&Commands::List(ListArgs { aur: false, pacman: false }), None).is_none());
}

#[test]
fn debug_lists_and_padding() {
    assert_eq!(debug_strings(&vec![]), s("[]"));
    let odd = v(&["tab\there", "back\\slash", "é"]);
    assert_eq!(debug_strings(&odd), format!("{:?}", odd));
    assert_eq!(pad("ab", 5, '.'), s("ab..."));
    assert_eq!(pad("abcdef", 3, ' '), s("abcdef"));
    assert_eq!(pad("ü", 3, ' '), format!("{:<3}", "ü"));
}
