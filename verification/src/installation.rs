//! The decisions of an installation run: which groups, which steps, which
//! questions, and what is reported. The caller performs each step.
use vstd::prelude::*;
use crate::cli::args::Args;
use crate::cli::commands::{debug_list, debug_strings};
use crate::cli::interactive::step_message;
use crate::cli::prompt_manager::{Answer, PromptManager};
use crate::cli::interactive::Prompt;
use crate::hardware::detect::Gpu;
use crate::text::{concat, copy_strings, lemma_views_push, str_eq, str_to_string, views};

verus! {

/// The groups installed when none are named and none are chosen.
pub open spec fn all_groups_marker() -> Seq<Seq<char>> {
    seq!["all"@]
}

fn all_marker() -> (r: Vec<String>)
    ensures
        views(r@) == all_groups_marker(),
{
    let mut v: Vec<String> = Vec::new();
    let ghost before = v@;
    let a = str_to_string("all");
    v.push(a);
    proof {
        lemma_views_push(before, a);
        assert(views(before) =~= Seq::<Seq<char>>::empty());
    }
    v
}

/// The package groups to install: those named on the command line; else, in
/// an interactive run, a choice among the configured groups (`all` when there
/// are none); else `all`.
pub fn groups_to_install(args: &Args, prompts: &PromptManager, all_groups: &Vec<String>) -> (r:
    Answer<Vec<String>>)
    ensures
        args.groups@.len() > 0 ==> (r matches Answer::Decided(g) && views(g@) == views(
            args.groups@,
        )),
        args.groups@.len() == 0 && (!prompts.interactive || all_groups@.len() == 0) ==> (r matches Answer::Decided(g)
            && views(g@) == all_groups_marker()),
        args.groups@.len() == 0 && prompts.interactive && all_groups@.len() > 0 ==> (r matches Answer::Ask(
            Prompt::SelectMultiple { message: m, options: o },
        ) && m@ == "Select package groups to install:"@ && views(o@) == views(all_groups@)),
{
    if args.groups.len() > 0 {
        return Answer::Decided(copy_strings(&args.groups));
    }
    if prompts.interactive {
        if all_groups.len() == 0 {
            Answer::Decided(all_marker())
        } else {
            prompts.select_multiple("Select package groups to install:", all_groups)
        }
    } else {
        Answer::Decided(all_marker())
    }
}

/// The lines of the installation plan.
pub open spec fn plan_lines(args: Args, groups: Seq<Seq<char>>) -> Seq<Seq<char>> {
    seq!["Installation plan:"@] + (if !args.skip_packages {
        seq!["  Packages: "@ + debug_list(groups)]
    } else {
        Seq::empty()
    }) + (if !args.skip_dotfiles {
        seq!["  Dotfiles: will be cloned and stowed"@]
    } else {
        Seq::empty()
    }) + (if !args.skip_hardware {
        seq!["  Hardware: GPU and laptop will be configured"@]
    } else {
        Seq::empty()
    })
}

fn push_text(v: &mut Vec<String>, s: String)
    ensures
        views(final(v)@) == views(old(v)@).push(s@),
{
    let ghost before = v@;
    v.push(s);
    proof {
        lemma_views_push(before, v@.last());
    }
}

/// The plan shown before installing: the steps that the options leave in.
pub fn show_plan(args: &Args, groups: &Vec<String>) -> (r: Vec<String>)
    ensures
        views(r@) == plan_lines(*args, views(groups@)),
{
    let mut v: Vec<String> = Vec::new();
    push_text(&mut v, str_to_string("Installation plan:"));
    if !args.skip_packages {
        let l = debug_strings(groups);
        push_text(&mut v, concat("  Packages: ", l.as_str()));
    }
    if !args.skip_dotfiles {
        push_text(&mut v, str_to_string("  Dotfiles: will be cloned and stowed"));
    }
    if !args.skip_hardware {
        push_text(&mut v, str_to_string("  Hardware: GPU and laptop will be configured"));
    }
    proof {
        reveal_strlit("Installation plan:");
    }
    assert(views(v@) =~= plan_lines(*args, views(groups@)));
    v
}

/// Whether to go on with the installation: yes with `--assume-yes` or in a dry
/// run; otherwise the prompt policy answers "Proceed with installation?",
/// whose default is no.
pub fn confirm_installation(args: &Args, prompts: &PromptManager) -> (r: Answer<bool>)
    ensures
        args.assume_yes || args.dry_run ==> r == Answer::<bool>::Decided(true),
        !args.assume_yes && !args.dry_run && prompts.quiet ==> r == Answer::<bool>::Decided(false),
        !args.assume_yes && !args.dry_run && !prompts.quiet && prompts.assume_yes ==> r
            == Answer::<bool>::Decided(true),
        !args.assume_yes && !args.dry_run && !prompts.quiet && !prompts.assume_yes
            && !prompts.interactive ==> r == Answer::<bool>::Decided(false),
        !args.assume_yes && !args.dry_run && !prompts.quiet && !prompts.assume_yes
            && prompts.interactive ==> (r matches Answer::Ask(Prompt::Confirm { message: m, default: d })
            && m@ == "Proceed with installation?"@ && !d),
{
    if args.assume_yes || args.dry_run {
        return Answer::Decided(true);
    }
    prompts.confirm("Proceed with installation?", false)
}

/// The steps of an installation, in the order they run.
#[derive(Debug, PartialEq, Eq, Clone, Copy)]
pub enum Step {
    /// Clone and stow the dotfiles.
    Dotfiles,
    /// Configure a laptop (only on a laptop).
    Laptop,
    /// Install GPU drivers.
    Gpu,
    /// Install the package groups.
    Packages,
}

/// The steps, in order.
pub fn steps() -> (r: Vec<Step>)
    ensures
        r@ == seq![Step::Dotfiles, Step::Laptop, Step::Gpu, Step::Packages],
{
    let v = vec![Step::Dotfiles, Step::Laptop, Step::Gpu, Step::Packages];
    assert(v@ =~= seq![Step::Dotfiles, Step::Laptop, Step::Gpu, Step::Packages]);
    v
}

/// A step runs unless the options skip it or this is a dry run.
pub open spec fn wanted(args: Args, step: Step) -> bool {
    !args.dry_run && match step {
        Step::Dotfiles => !args.skip_dotfiles,
        Step::Laptop | Step::Gpu => !args.skip_hardware,
        Step::Packages => !args.skip_packages,
    }
}

/// Whether the options leave a step in. The laptop step also needs a laptop,
/// which the caller checks only when this holds.
pub fn step_wanted(args: &Args, step: Step) -> (r: bool)
    ensures
        r == wanted(*args, step),
{
    if args.dry_run {
        return false;
    }
    match step {
        Step::Dotfiles => !args.skip_dotfiles,
        Step::Laptop | Step::Gpu => !args.skip_hardware,
        Step::Packages => !args.skip_packages,
    }
}

/// The name and description a step is confirmed with.
pub open spec fn step_text(step: Step, groups: Seq<Seq<char>>) -> (Seq<char>, Seq<char>) {
    match step {
        Step::Dotfiles => ("Dotfiles"@, "Clone and stow dotfiles repository"@),
        Step::Laptop => ("Laptop"@, "Configure laptop settings (TLP)"@),
        Step::Gpu => ("GPU"@, "Install GPU drivers"@),
        Step::Packages => ("Packages"@, "Install "@ + debug_list(groups) + " package groups"@),
    }
}

/// Whether to run a wanted step, as the prompt policy decides it.
pub fn confirm_step(prompts: &PromptManager, step: Step, groups: &Vec<String>) -> (r: Answer<bool>)
    ensures
        prompts.assume_yes || !prompts.interactive ==> r == Answer::<bool>::Decided(true),
        !prompts.assume_yes && prompts.interactive ==> (r matches Answer::Ask(
            Prompt::Confirm { message: m, default: d },
        ) && m@ == step_message(step_text(step, views(groups@)).0, step_text(step, views(groups@)).1)
            && d),
{
    match step {
        Step::Dotfiles => prompts.confirm_step("Dotfiles", "Clone and stow dotfiles repository"),
        Step::Laptop => prompts.confirm_step("Laptop", "Configure laptop settings (TLP)"),
        Step::Gpu => prompts.confirm_step("GPU", "Install GPU drivers"),
        Step::Packages => {
            let l = debug_strings(groups);
            let a = concat("Install ", l.as_str());
            let d = concat(a.as_str(), " package groups");
            prompts.confirm_step("Packages", d.as_str())
        },
    }
}

/// The choices of GPU drivers, the first taken without asking.
pub fn gpu_options() -> (r: Vec<String>)
    ensures
        views(r@) == seq!["auto-detect"@, "amd"@, "intel"@, "nvidia"@, "skip"@],
{
    let mut v: Vec<String> = Vec::new();
    push_text(&mut v, str_to_string("auto-detect"));
    push_text(&mut v, str_to_string("amd"));
    push_text(&mut v, str_to_string("intel"));
    push_text(&mut v, str_to_string("nvidia"));
    push_text(&mut v, str_to_string("skip"));
    assert(views(v@) =~= seq!["auto-detect"@, "amd"@, "intel"@, "nvidia"@, "skip"@]);
    v
}

/// What the GPU step does with the chosen option.
#[derive(Debug, PartialEq, Eq, Clone, Copy)]
pub enum GpuAction {
    /// Find the vendor, then set up its drivers.
    AutoDetect,
    /// Set up the drivers of one family.
    Driver(Gpu),
    /// Do nothing.
    Skip,
}

/// The action of a chosen option: `auto-detect`, `amd`, `intel` or `nvidia`;
/// anything else skips.
pub open spec fn gpu_action_of(choice: Seq<char>) -> GpuAction {
    if choice == "auto-detect"@ {
        GpuAction::AutoDetect
    } else if choice == "amd"@ {
        GpuAction::Driver(Gpu::Amd)
    } else if choice == "intel"@ {
        GpuAction::Driver(Gpu::Intel)
    } else if choice == "nvidia"@ {
        GpuAction::Driver(Gpu::Nvidia)
    } else {
        GpuAction::Skip
    }
}

/// The action of the chosen GPU option.
pub fn gpu_action(choice: &str) -> (r: GpuAction)
    ensures
        r == gpu_action_of(choice@),
{
    if str_eq(choice, "auto-detect") {
        GpuAction::AutoDetect
    } else if str_eq(choice, "amd") {
        GpuAction::Driver(Gpu::Amd)
    } else if str_eq(choice, "intel") {
        GpuAction::Driver(Gpu::Intel)
    } else if str_eq(choice, "nvidia") {
        GpuAction::Driver(Gpu::Nvidia)
    } else {
        GpuAction::Skip
    }
}

/// The last line of a run.
pub fn completion_message(dry_run: bool) -> (r: String)
    ensures
        dry_run ==> r@ == "Dry run completed - no changes were made"@,
        !dry_run ==> r@ == "Installation completed successfully!"@,
{
    if dry_run {
        str_to_string("Dry run completed - no changes were made")
    } else {
        str_to_string("Installation completed successfully!")
    }
}

/// A dry run changes nothing: no step is wanted.
pub proof fn law_dry_run_runs_no_step(args: Args, step: Step)
    requires
        args.dry_run,
    ensures
        !wanted(args, step),
{
}

/// The skip options leave their steps out: `--skip-dotfiles` the dotfiles,
/// `--skip-hardware` the laptop and GPU steps, `--skip-packages` the packages.
pub proof fn law_skips_are_honoured(args: Args)
    ensures
        args.skip_dotfiles ==> !wanted(args, Step::Dotfiles),
        args.skip_hardware ==> !wanted(args, Step::Laptop) && !wanted(args, Step::Gpu),
        args.skip_packages ==> !wanted(args, Step::Packages),
{
}

} // verus!
