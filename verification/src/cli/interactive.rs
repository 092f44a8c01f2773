//! The questions put to the user, and how their answers are read.
use vstd::prelude::*;
use crate::text::{concat, copy_strings, str_to_string, views};

verus! {

/// A question for the terminal.
pub enum Prompt {
    /// A yes/no question, and the answer taken when the prompt fails.
    Confirm { message: String, default: bool },
    /// Pick one of the options; the cursor starts on the first.
    Select { message: String, options: Vec<String> },
    /// Pick any of the options.
    SelectMultiple { message: String, options: Vec<String> },
    /// Type a line, offered a default.
    Text { message: String, suggestion: Option<String> },
}

/// Puts questions to the user. The terminal work is done by the caller, with
/// the questions built here.
pub struct InteractivePrompt;

impl InteractivePrompt {
    pub fn new() -> (r: Self) {
        InteractivePrompt
    }

    /// A yes/no question with the given default.
    pub fn confirm(&self, message: &str, default: bool) -> (r: Prompt)
        ensures
            r matches Prompt::Confirm { message: m, default: d } && m@ == message@ && d == default,
    {
        Prompt::Confirm { message: str_to_string(message), default }
    }

    /// A choice of one option.
    pub fn select(&self, message: &str, options: &Vec<String>) -> (r: Prompt)
        ensures
            r matches Prompt::Select { message: m, options: o } && m@ == message@ && views(o@) == views(
                options@,
            ),
    {
        Prompt::Select { message: str_to_string(message), options: copy_strings(options) }
    }

    /// A choice of any options.
    pub fn select_multiple(&self, message: &str, options: &Vec<String>) -> (r: Prompt)
        ensures
            r matches Prompt::SelectMultiple { message: m, options: o } && m@ == message@ && views(
                o@,
            ) == views(options@),
    {
        Prompt::SelectMultiple { message: str_to_string(message), options: copy_strings(options) }
    }

    /// A line of text, with the default offered if there is one.
    pub fn ask_text(&self, message: &str, default: Option<&str>) -> (r: Prompt)
        ensures
            r matches Prompt::Text { message: m, suggestion: d } && m@ == message@ && match default {
                Some(x) => d matches Some(y) && y@ == x@,
                None => d is None,
            },
    {
        let d = match default {
            Some(x) => Some(str_to_string(x)),
            None => None,
        };
        Prompt::Text { message: str_to_string(message), suggestion: d }
    }

    /// A yes/no question whose default is no.
    pub fn ask_yes_no(&self, message: &str) -> (r: Prompt)
        ensures
            r matches Prompt::Confirm { message: m, default: d } && m@ == message@ && !d,
    {
        self.confirm(message, false)
    }
}

/// The answer to a yes/no question: what the user said, or the default when
/// the prompt failed.
pub fn confirm_answer(default: bool, reply: Option<bool>) -> (r: bool)
    ensures
        r == match reply {
            Some(a) => a,
            None => default,
        },
{
    match reply {
        Some(a) => a,
        None => default,
    }
}

/// The question before an installation step: `STEP: DETAILS` and a line asking
/// whether to proceed.
pub open spec fn step_message(step_name: Seq<char>, details: Seq<char>) -> Seq<char> {
    step_name + ": "@ + details + "\nProceed with this step?"@
}

/// The text of the question before an installation step.
pub fn installation_step_message(step_name: &str, details: &str) -> (r: String)
    ensures
        r@ == step_message(step_name@, details@),
{
    let a = concat(step_name, ": ");
    let b = concat(a.as_str(), details);
    concat(b.as_str(), "\nProceed with this step?")
}

/// The warning before an action that changes system files.
pub fn destructive_action_message(action: &str) -> (r: String)
    ensures
        r@ == "WARNING: "@ + action@ + " This may modify system files. Continue?"@,
{
    let a = concat("WARNING: ", action);
    concat(a.as_str(), " This may modify system files. Continue?")
}

/// The choice of package groups to install, among all of them.
pub fn select_package_groups(all_groups: &Vec<String>) -> (r: Prompt)
    ensures
        r matches Prompt::SelectMultiple { message: m, options: o } && m@
            == "Select package groups to install:"@ && views(o@) == views(all_groups@),
{
    let p = InteractivePrompt::new();
    p.select_multiple("Select package groups to install:", all_groups)
}

/// The question before an installation step; its default is yes.
pub fn confirm_installation_step(step_name: &str, details: &str) -> (r: Prompt)
    ensures
        r matches Prompt::Confirm { message: m, default: d } && m@ == step_message(
            step_name@,
            details@,
        ) && d,
{
    let p = InteractivePrompt::new();
    let m = installation_step_message(step_name, details);
    p.confirm(m.as_str(), true)
}

/// The question before an action that changes system files; its default is no.
pub fn confirm_destructive_action(action: &str) -> (r: Prompt)
    ensures
        r matches Prompt::Confirm { message: m, default: d } && m@ == "WARNING: "@ + action@
            + " This may modify system files. Continue?"@ && !d,
{
    let p = InteractivePrompt::new();
    let m = destructive_action_message(action);
    p.confirm(m.as_str(), false)
}

} // verus!
