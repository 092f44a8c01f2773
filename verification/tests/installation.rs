use dotfiles_installer::cli::args::Args;
use dotfiles_installer::cli::interactive::Prompt;
use dotfiles_installer::cli::prompt_manager::{Answer, PromptManager};
use dotfiles_installer::hardware::detect::Gpu;
use dotfiles_installer::installation::{
    completion_message, confirm_installation, confirm_step, gpu_action, gpu_options,
    groups_to_install, show_plan, step_wanted, steps, GpuAction, Step,
};

fn s(x: &str) -> String {
    x.to_string()
}

fn v(xs: &[&str]) -> Vec<String> {
    xs.iter().map(|x| x.to_string()).collect()
}

fn args() -> Args {
    Args {
        config: None,
        verbose: false,
        groups: vec![],
        skip_packages: false,
        skip_dotfiles: false,
        skip_hardware: false,
        force: false,
        dry_run: false,
        assume_yes: false,
        interactive: false,
        log: false,
        command: None,
    }
}

#[test]
fn groups_named_chosen_or_all() {
    let mut a = args();
    a.groups = v(&["dev"]);
    let pm = PromptManager::new(&a);
    assert!(matches!(groups_to_install(&a, &pm, &v(&["base"])), Answer::Decided(g) if g == v(&["dev"])));
    a.groups = vec![];
    let pm = PromptManager::new(&a);
    assert!(matches!(groups_to_install(&a, &pm, &v(&["base"])), Answer::Decided(g) if g == v(&["all"])));
    a.interactive = true;
    let pm = PromptManager::new(&a);
    assert!(matches!(groups_to_install(&a, &pm, &vec![]), Answer::Decided(g) if g == v(&["all"])));
    match groups_to_install(&a, &pm, &v(&["base", "dev"])) {
        Answer::Ask(Prompt::SelectMultiple { message, options }) => {
            assert_eq!(message, s("Select package groups to install:"));
            assert_eq!(options, v(&["base", "dev"]));
        }
        _ => panic!("an interactive run asks"),
    }
}

#[test]
fn plan_lines() {
    let mut a = args();
    assert_eq!(
        show_plan(&a, &v(&["base"])),
        v(&[
            "Installation plan:",
            "  Packages: [\"base\"]",
            "  Dotfiles: will be cloned and stowed",
            "  Hardware: GPU and laptop will be configured",
        ])
    );
    a.skip_packages = true;
    a.skip_hardware = true;
    assert_eq!(
        show_plan(&a, &v(&["base"])),
        v(&["Installation plan:", "  Dotfiles: will be cloned and stowed"])
    );
}

#[test]
fn overall_confirmation() {
    let mut a = args();
    a.dry_run = true;
    let pm = PromptManager::new(&a);
    assert!(matches!(confirm_installation(&a, &pm), Answer::Decided(true)));
    a.dry_run = false;
    let pm = PromptManager::new(&a);
    assert!(matches!(confirm_installation(&a, &pm), Answer::Decided(false)));
    a.interactive = true;
    let pm = PromptManager::new(&a);
    match confirm_installation(&a, &pm) {
        Answer::Ask(Prompt::Confirm { message, default }) => {
            assert_eq!(message, s("Proceed with installation?"));
            assert!(!default);
        }
        _ => panic!("an interactive run asks"),
    }
}

#[test]
fn steps_and_skips() {
    let mut a = args();
    assert_eq!(steps(), vec![Step::Dotfiles, Step::Laptop, Step::Gpu, Step::Packages]);
    assert!(steps().iter().all(|st| step_wanted(&a, *st)));
    a.skip_hardware = true;
    assert!(!step_wanted(&a, Step::Laptop));
    assert!(!step_wanted(&a, Step::Gpu));
    assert!(step_wanted(&a, Step::Dotfiles));
    a.skip_hardware = false;
    a.dry_run = true;
    assert!(steps().iter().all(|st| !step_wanted(&a, *st)));
}

#[test]
fn step_questions() {
    let mut a = args();
    a.interactive = true;
    let pm = PromptManager::new(&a);
    match confirm_step(&pm, Step::Packages, &v(&["base", "dev"])) {
        Answer::Ask(Prompt::Confirm { message, default }) => {
            assert_eq!(
                message,
                s("Packages: Install [\"base\", \"dev\"] package groups\nProceed with this step?")
            );
            assert!(default);
        }
        _ => panic!("an interactive run asks"),
    }
    match confirm_step(&pm, Step::Laptop, &vec![]) {
        Answer::Ask(Prompt::Confirm { message, .. }) => {
            assert_eq!(message, s("Laptop: Configure laptop settings (TLP)\nProceed with this step?"))
        }
        _ => panic!("an interactive run asks"),
    }
    a.interactive = false;
    let pm = PromptManager::new(&a);
    assert!(matches!(confirm_step(&pm, Step::Gpu, &vec![]), Answer::Decided(true)));
}

#[test]
fn gpu_choices() {
    assert_eq!(gpu_options(), v(&["auto-detect", "amd", "intel", "nvidia", "skip"]));
    assert_eq!(gpu_action("auto-detect"), GpuAction::AutoDetect);
    assert_eq!(gpu_action("amd"), GpuAction::Driver(Gpu::Amd));
    assert_eq!(gpu_action("intel"), GpuAction::Driver(Gpu::Intel));
    assert_eq!(gpu_action("nvidia"), GpuAction::Driver(Gpu::Nvidia));
    assert_eq!(gpu_action("skip"), GpuAction::Skip);
    assert_eq!(gpu_action("AMD"), GpuAction::Skip);
}

#[test]
fn last_line() {
    assert_eq!(completion_message(true), s("Dry run completed - no changes were made"));
    assert_eq!(completion_message(false), s("Installation completed successfully!"));
}
