//! Builder-style configuration of a [`Repl`](crate::Repl): prompts,
//! messages, registered commands and feature switches, assembled before the
//! loop starts.
use vstd::prelude::*;
use vstd::string::StringExecFns;

use crate::buffer::CursorBuffer;
use crate::command::{forest_wf, spec_upsert_cmd, upsert_cmd, Command, Handler};
use crate::text::{spec_trim_end, trim_end_whitespace};
use crate::Repl;

verus! {

/// The configuration a [`Repl`] is built from. Every setting has a
/// default; `build` turns the assembled configuration into a loop state.
pub struct ReplBuilder<H: Handler> {
    pub commands: Vec<Command<H>>,
    pub ignore_empty_line: bool,
    pub welcome_message: String,
    pub output_prompt: String,
    pub exit_message: String,
    pub use_builtins: bool,
    pub strict: bool,
    pub state: H::Ctx,
    pub version: String,
    pub prompt: String,
}

impl<H: Handler> ReplBuilder<H> {
    /// A default configuration around the given application context.
    pub fn new(state: H::Ctx) -> (r: Self)
        ensures
            r.commands@ == Seq::<Command<H>>::empty(),
            forest_wf(r.commands@),
            r.ignore_empty_line == true,
            r.welcome_message@ == Seq::<char>::empty(),
            r.output_prompt@ == Seq::<char>::empty(),
            r.exit_message@ == Seq::<char>::empty(),
            r.use_builtins == true,
            r.strict == false,
            r.state == state,
            r.version@ == "0.1.0"@,
            r.prompt@ == ">> "@,
    {
        ReplBuilder {
            commands: Vec::new(),
            ignore_empty_line: true,
            welcome_message: String::new(),
            output_prompt: String::new(),
            exit_message: String::new(),
            use_builtins: true,
            strict: false,
            state,
            version: String::from_str("0.1.0"),
            prompt: String::from_str(">> "),
        }
    }

    /// Sets the input prompt: the given text with trailing whitespace
    /// removed and exactly one space appended.
    pub fn with_prompt(self, prompt: &str) -> (r: Self)
        ensures
            r.prompt@ == spec_trim_end(prompt@) + " "@,
            r.commands == self.commands,
            r.ignore_empty_line == self.ignore_empty_line,
            r.welcome_message == self.welcome_message,
            r.output_prompt == self.output_prompt,
            r.exit_message == self.exit_message,
            r.use_builtins == self.use_builtins,
            r.strict == self.strict,
            r.state == self.state,
            r.version == self.version,
    {
        ReplBuilder { prompt: trim_end_whitespace(prompt).concat(" "), ..self }
    }

    /// Sets the message printed once when the loop starts.
    pub fn with_welcome_message(self, message: &str) -> (r: Self)
        ensures
            r.welcome_message@ == message@,
            r.commands == self.commands,
            r.ignore_empty_line == self.ignore_empty_line,
            r.prompt == self.prompt,
            r.output_prompt == self.output_prompt,
            r.exit_message == self.exit_message,
            r.use_builtins == self.use_builtins,
            r.strict == self.strict,
            r.state == self.state,
            r.version == self.version,
    {
        ReplBuilder { welcome_message: message.to_owned(), ..self }
    }

    /// Sets the message printed when the loop is left.
    pub fn with_exit_message(self, message: &str) -> (r: Self)
        ensures
            r.exit_message@ == message@,
            r.commands == self.commands,
            r.ignore_empty_line == self.ignore_empty_line,
            r.prompt == self.prompt,
            r.output_prompt == self.output_prompt,
            r.welcome_message == self.welcome_message,
            r.use_builtins == self.use_builtins,
            r.strict == self.strict,
            r.state == self.state,
            r.version == self.version,
    {
        ReplBuilder { exit_message: message.to_owned(), ..self }
    }

    /// Sets the version string the `version` builtin prints.
    pub fn with_version(self, version: &str) -> (r: Self)
        ensures
            r.version@ == version@,
            r.commands == self.commands,
            r.ignore_empty_line == self.ignore_empty_line,
            r.prompt == self.prompt,
            r.output_prompt == self.output_prompt,
            r.welcome_message == self.welcome_message,
            r.exit_message == self.exit_message,
            r.use_builtins == self.use_builtins,
            r.strict == self.strict,
            r.state == self.state,
    {
        ReplBuilder { version: version.to_owned(), ..self }
    }

    /// Sets whether a line of nothing but spaces is skipped without a
    /// dispatch.
    pub fn ignore_empty_line(self, ignore: bool) -> (r: Self)
        ensures
            r.ignore_empty_line == ignore,
            r.commands == self.commands,
            r.prompt == self.prompt,
            r.output_prompt == self.output_prompt,
            r.welcome_message == self.welcome_message,
            r.exit_message == self.exit_message,
            r.use_builtins == self.use_builtins,
            r.strict == self.strict,
            r.state == self.state,
            r.version == self.version,
    {
        ReplBuilder { ignore_empty_line: ignore, ..self }
    }

    /// Sets the output prompt: the given text with trailing whitespace
    /// removed and exactly one space appended.
    pub fn with_output_prompt(self, prompt: &str) -> (r: Self)
        ensures
            r.output_prompt@ == spec_trim_end(prompt@) + " "@,
            r.commands == self.commands,
            r.ignore_empty_line == self.ignore_empty_line,
            r.prompt == self.prompt,
            r.welcome_message == self.welcome_message,
            r.exit_message == self.exit_message,
            r.use_builtins == self.use_builtins,
            r.strict == self.strict,
            r.state == self.state,
            r.version == self.version,
    {
        ReplBuilder { output_prompt: trim_end_whitespace(prompt).concat(" "), ..self }
    }

    /// Registers a top-level command, replacing a namesake.
    pub fn with_command(self, command: Command<H>) -> (r: Self)
        ensures
            r.commands@ == spec_upsert_cmd(self.commands@, command),
            forest_wf(self.commands@) && command.wf() ==> forest_wf(r.commands@),
            r.ignore_empty_line == self.ignore_empty_line,
            r.prompt == self.prompt,
            r.output_prompt == self.output_prompt,
            r.welcome_message == self.welcome_message,
            r.exit_message == self.exit_message,
            r.use_builtins == self.use_builtins,
            r.strict == self.strict,
            r.state == self.state,
            r.version == self.version,
    {
        let mut b = self;
        upsert_cmd(&mut b.commands, command);
        b
    }

    /// Enables or disables the `help` and `version` builtins.
    pub fn with_builtins(self, use_builtins: bool) -> (r: Self)
        ensures
            r.use_builtins == use_builtins,
            r.strict == self.strict,
            r.commands == self.commands,
            r.ignore_empty_line == self.ignore_empty_line,
            r.prompt == self.prompt,
            r.output_prompt == self.output_prompt,
            r.welcome_message == self.welcome_message,
            r.exit_message == self.exit_message,
            r.state == self.state,
            r.version == self.version,
    {
        ReplBuilder { use_builtins, ..self }
    }

    /// Sets whether a line that resolves to no command is fatal to the
    /// loop instead of rendered as a recoverable message.
    pub fn with_strict(self, strict: bool) -> (r: Self)
        ensures
            r.strict == strict,
            r.commands == self.commands,
            r.ignore_empty_line == self.ignore_empty_line,
            r.prompt == self.prompt,
            r.output_prompt == self.output_prompt,
            r.welcome_message == self.welcome_message,
            r.exit_message == self.exit_message,
            r.use_builtins == self.use_builtins,
            r.state == self.state,
            r.version == self.version,
    {
        ReplBuilder { strict, ..self }
    }

    /// Finishes the configuration: a [`Repl`] with an empty buffer and the
    /// cursor at offset 0.
    pub fn build(self) -> (r: Repl<H>)
        ensures
            r.wf(),
            r.commands == self.commands,
            r.buffer@ == Seq::<char>::empty(),
            r.buffer.spec_pos() == 0,
            r.prompt == self.prompt,
            r.output_prompt == self.output_prompt,
            r.welcome_message == self.welcome_message,
            r.exit_message == self.exit_message,
            r.version == self.version,
            r.ignore_empty_line == self.ignore_empty_line,
            r.use_builtins == self.use_builtins,
            r.strict == self.strict,
            r.state == self.state,
    {
        Repl {
            commands: self.commands,
            buffer: CursorBuffer::new(),
            prompt: self.prompt,
            output_prompt: self.output_prompt,
            welcome_message: self.welcome_message,
            exit_message: self.exit_message,
            version: self.version,
            ignore_empty_line: self.ignore_empty_line,
            use_builtins: self.use_builtins,
            strict: self.strict,
            state: self.state,
        }
    }
}

} // verus!
