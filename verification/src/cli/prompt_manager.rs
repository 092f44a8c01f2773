//! When to ask the user and what to answer without asking.
use vstd::prelude::*;
use crate::cli::args::Args;
use crate::cli::interactive::{installation_step_message, step_message, InteractivePrompt, Prompt};
use crate::text::{copy_string, copy_strings, views};

verus! {

/// What a prompt comes to: an answer decided without asking, or a question
/// that the user has to answer.
pub enum Answer<T> {
    Decided(T),
    Ask(Prompt),
}

/// The prompt policy of a run.
pub struct PromptManager {
    pub interactive: bool,
    pub assume_yes: bool,
    pub quiet: bool,
    pub prompt: InteractivePrompt,
}

impl PromptManager {
    /// The policy that the arguments ask for. The arguments have no quiet option,
    /// so quiet mode is off.
    pub fn new(args: &Args) -> (r: PromptManager)
        ensures
            r.interactive == args.interactive,
            r.assume_yes == args.assume_yes,
            !r.quiet,
    {
        PromptManager {
            interactive: args.interactive,
            assume_yes: args.assume_yes,
            quiet: false,
            prompt: InteractivePrompt::new(),
        }
    }

    /// A yes/no question with a default answer: quiet mode answers the default,
    /// `--assume-yes` answers yes, a non-interactive run answers the default, and
    /// an interactive run asks.
    pub fn confirm(&self, message: &str, default: bool) -> (r: Answer<bool>)
        ensures
            self.quiet ==> r == Answer::<bool>::Decided(default),
            !self.quiet && self.assume_yes ==> r == Answer::<bool>::Decided(true),
            !self.quiet && !self.assume_yes && !self.interactive ==> r == Answer::<bool>::Decided(
                default,
            ),
            !self.quiet && !self.assume_yes && self.interactive ==> (r matches Answer::Ask(
                Prompt::Confirm { message: m, default: d },
            ) && m@ == message@ && d == default),
    {
        if self.quiet {
            return Answer::Decided(default);
        }
        if self.assume_yes {
            return Answer::Decided(true);
        }
        if !self.interactive {
            return Answer::Decided(default);
        }
        Answer::Ask(self.prompt.confirm(message, default))
    }

    /// Whether to run an installation step: yes with `--assume-yes` or in a
    /// non-interactive run; an interactive run asks, with yes as the default.
    pub fn confirm_step(&self, step: &str, description: &str) -> (r: Answer<bool>)
        ensures
            self.assume_yes || !self.interactive ==> r == Answer::<bool>::Decided(true),
            !self.assume_yes && self.interactive ==> (r matches Answer::Ask(
                Prompt::Confirm { message: m, default: d },
            ) && m@ == step_message(step@, description@) && d),
    {
        if self.assume_yes {
            return Answer::Decided(true);
        }
        if !self.interactive {
            return Answer::Decided(true);
        }
        let message = installation_step_message(step, description);
        Answer::Ask(self.prompt.confirm(message.as_str(), true))
    }

    /// One of the options: a non-interactive run takes the first one (none if
    /// there is none); an interactive run asks.
    pub fn select(&self, message: &str, options: &Vec<String>) -> (r: Answer<Option<String>>)
        ensures
            !self.interactive ==> (r matches Answer::Decided(o) && match o {
                Some(x) => options@.len() > 0 && x@ == options@[0]@,
                None => options@.len() == 0,
            }),
            self.interactive ==> (r matches Answer::Ask(Prompt::Select { message: m, options: o })
                && m@ == message@ && views(o@) == views(options@)),
    {
        if !self.interactive {
            if options.len() == 0 {
                return Answer::Decided(None);
            }
            return Answer::Decided(Some(copy_string(&options[0])));
        }
        Answer::Ask(self.prompt.select(message, options))
    }

    /// Several of the options: a non-interactive run takes them all; an
    /// interactive run asks.
    pub fn select_multiple(&self, message: &str, options: &Vec<String>) -> (r: Answer<Vec<String>>)
        ensures
            !self.interactive ==> (r matches Answer::Decided(v) && views(v@) == views(options@)),
            self.interactive ==> (r matches Answer::Ask(
                Prompt::SelectMultiple { message: m, options: o },
            ) && m@ == message@ && views(o@) == views(options@)),
    {
        if !self.interactive {
            return Answer::Decided(copy_strings(options));
        }
        Answer::Ask(self.prompt.select_multiple(message, options))
    }
}

} // verus!
