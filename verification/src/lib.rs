//! An interactive line-editing engine: a cursor-addressed text buffer
//! driven by discrete key events, a hierarchical command registry resolved
//! greedily over completed lines, typed parameter binding, and terminal
//! redraw instructions emitted as byte strings. The surrounding program
//! owns the terminal: it reads keys, hands them to [`Repl::handle_key`]
//! and writes the returned bytes.
pub mod args;
pub mod buffer;
pub mod builder;
pub mod command;
pub mod context;
pub mod error;
pub mod parameters;
pub mod render;
pub mod text;

use vstd::prelude::*;

use crate::args::Arg;
use crate::buffer::{seq_inserted, seq_removed, CursorBuffer, Direction};
use crate::command::{forest_wf, resolve_from, sibling_names_distinct, spec_resolve, Command, Handler};
use crate::error::ReplError;
use crate::parameters::{
    is_flag, is_flag_token, spec_arg_names, spec_flag_binding, spec_positional, ParameterError,
    Parameters,
};
use crate::render::{
    cursor_left_bytes, cursor_right_bytes, input_redraw, newline_bytes, output_line,
    spec_cursor_left, spec_cursor_right, spec_input_redraw, spec_newline_seq, spec_output_line,
};
use crate::text::{chars_to_string, lex_le, spec_tokens, str_eq, str_le, tokenize};

verus! {

/// A failure while reading the structure of an input line.
#[derive(Debug, PartialEq, Eq, Clone, Copy)]
pub enum ParserError {
    /// The line held no input at all.
    EmptyInput,
    /// The argument tail was not shaped as the binder demands.
    InvalidArgs,
}

impl ParserError {
    /// The error's text.
    pub open spec fn spec_message(&self) -> Seq<char> {
        match self {
            ParserError::EmptyInput => "Empty input"@,
            ParserError::InvalidArgs => "Invalid arguments"@,
        }
    }

    /// The error's text.
    pub fn message(&self) -> (r: &'static str)
        ensures
            r@ == self.spec_message(),
    {
        match self {
            ParserError::EmptyInput => "Empty input",
            ParserError::InvalidArgs => "Invalid arguments",
        }
    }
}

/// One key event, as the loop's driver reports it.
#[derive(Debug, Clone, Copy, PartialEq, Eq)]
pub enum Key {
    Char(char),
    Backspace,
    Left,
    Right,
    Up,
    Down,
    Home,
    End,
    Esc,
    Alt(char),
    Ctrl(char),
    Null,
}

/// What one key event asks of the surrounding loop.
pub enum Step {
    /// Write these bytes to the terminal.
    Output(Vec<u8>),
    /// Leave the loop and emit the configured exit message.
    Exit,
    /// A fatal failure: the loop ends and propagates it to its caller.
    Fatal(ReplError),
}

/// Resolves `input` against the sibling set `commands`: the deepest node
/// named by the line's leading tokens — none when the very first token
/// matched nothing — and the unconsumed argument tail, as tokens.
pub fn parse<'a, H>(input: &str, commands: &'a Vec<Command<H>>) -> (r: (
    Option<&'a Command<H>>,
    Vec<String>,
))
    ensures
        ({
            let s = spec_resolve(commands@, spec_tokens(input@));
            &&& match r.0 {
                Some(c) => s.0 == Some(*c),
                None => s.0 is None,
            }
            &&& r.1.deep_view() == spec_tokens(input@).skip(s.1)
        }),
{
    let tokens = tokenize(input);
    proof {
        assert(tokens.deep_view().skip(0) =~= tokens.deep_view());
    }
    let (node, k) = resolve_from(commands, &tokens, 0);
    let ghost dv = tokens.deep_view();
    let mut toks = tokens;
    let tail = toks.split_off(k);
    proof {
        assert(tail.deep_view() =~= dv.skip(k as int));
    }
    (node, tail)
}

/// The given names, space separated.
pub open spec fn spec_join_names(names: Seq<Seq<char>>) -> Seq<char>
    decreases names.len(),
{
    if names.len() == 0 {
        Seq::empty()
    } else if names.len() == 1 {
        names[0]
    } else {
        names[0] + " "@ + spec_join_names(names.drop_first())
    }
}

/// Joins the names from index `i` on.
fn join_names(names: &Vec<&String>, i: usize) -> (r: String)
    requires
        i <= names@.len(),
    ensures
        r@ == spec_join_names(names.deep_view().skip(i as int)),
    decreases names@.len() - i,
{
    let ghost rest = names.deep_view().skip(i as int);
    if i == names.len() {
        proof {
            assert(rest =~= Seq::<Seq<char>>::empty());
        }
        String::new()
    } else if i + 1 == names.len() {
        proof {
            assert(rest[0] == names.deep_view()[i as int]);
        }
        names[i].clone()
    } else {
        proof {
            assert(rest[0] == names.deep_view()[i as int]);
            assert(rest.drop_first() =~= names.deep_view().skip(i + 1));
        }
        let mut s = names[i].clone();
        s.append(" ");
        let tail = join_names(names, i + 1);
        s.append(tail.as_str());
        s
    }
}

/// The names of the sibling commands, in registration order.
pub open spec fn spec_names_of<H>(cmds: Seq<Command<H>>) -> Seq<Seq<char>> {
    cmds.map_values(|c: Command<H>| c.spec_name())
}

/// The sorted list with `x` placed before the first entry it precedes.
pub open spec fn spec_insert_sorted(s: Seq<Seq<char>>, x: Seq<char>) -> Seq<Seq<char>>
    decreases s.len(),
{
    if s.len() == 0 {
        seq![x]
    } else if lex_le(x, s[0]) {
        seq![x] + s
    } else {
        seq![s[0]] + spec_insert_sorted(s.drop_first(), x)
    }
}

/// The names in lexicographic order: each inserted into the sorted rest.
pub open spec fn spec_sort_names(s: Seq<Seq<char>>) -> Seq<Seq<char>>
    decreases s.len(),
{
    if s.len() == 0 {
        Seq::empty()
    } else {
        spec_insert_sorted(spec_sort_names(s.drop_last()), s.last())
    }
}

/// Inserting at the first position whose entry `x` precedes splices the
/// list there.
proof fn lemma_insert_sorted_at(s: Seq<Seq<char>>, x: Seq<char>, p: int)
    requires
        0 <= p <= s.len(),
        forall|q: int| 0 <= q < p ==> !lex_le(x, #[trigger] s[q]),
        p < s.len() ==> lex_le(x, s[p]),
    ensures
        spec_insert_sorted(s, x) == s.subrange(0, p) + seq![x] + s.subrange(p, s.len() as int),
    decreases p,
{
    if p == 0 {
        if s.len() == 0 {
            assert(spec_insert_sorted(s, x) =~= s.subrange(0, 0) + seq![x] + s.subrange(
                0,
                s.len() as int,
            ));
        } else {
            assert(spec_insert_sorted(s, x) =~= s.subrange(0, 0) + seq![x] + s.subrange(
                0,
                s.len() as int,
            ));
        }
    } else {
        lemma_insert_sorted_at(s.drop_first(), x, p - 1);
        assert(s.drop_first().subrange(0, p - 1) =~= s.subrange(1, p));
        assert(s.drop_first().subrange(p - 1, s.len() - 1) =~= s.subrange(p, s.len() as int));
        assert(spec_insert_sorted(s, x) =~= s.subrange(0, p) + seq![x] + s.subrange(
            p,
            s.len() as int,
        ));
    }
}

/// Name lists free of duplicates.
pub open spec fn names_distinct(names: Seq<Seq<char>>) -> bool {
    forall|i: int, j: int| 0 <= i < j < names.len() ==> names[i] != names[j]
}

/// Every entry of an insertion is the inserted name or one of the old
/// entries.
proof fn lemma_insert_sorted_elems(s: Seq<Seq<char>>, x: Seq<char>)
    ensures
        forall|i: int|
            0 <= i < spec_insert_sorted(s, x).len() ==> #[trigger] spec_insert_sorted(s, x)[i] == x
                || exists|k: int| 0 <= k < s.len() && s[k] == spec_insert_sorted(s, x)[i],
    decreases s.len(),
{
    let r = spec_insert_sorted(s, x);
    if s.len() == 0 {
    } else if lex_le(x, s[0]) {
        assert forall|i: int| 0 <= i < r.len() implies #[trigger] r[i] == x || exists|k: int|
            0 <= k < s.len() && s[k] == r[i] by {
            if i > 0 {
                assert(s[i - 1] == r[i]);
            }
        }
    } else {
        lemma_insert_sorted_elems(s.drop_first(), x);
        let rr = spec_insert_sorted(s.drop_first(), x);
        assert forall|i: int| 0 <= i < r.len() implies #[trigger] r[i] == x || exists|k: int|
            0 <= k < s.len() && s[k] == r[i] by {
            if i == 0 {
                assert(s[0] == r[0]);
            } else {
                assert(r[i] == rr[i - 1]);
                if rr[i - 1] != x {
                    let k = choose|k: int|
                        0 <= k < s.drop_first().len() && s.drop_first()[k] == rr[i - 1];
                    assert(s[k + 1] == r[i]);
                }
            }
        }
    }
}

/// Inserting a fresh name keeps the list duplicate free.
proof fn lemma_insert_sorted_distinct(s: Seq<Seq<char>>, x: Seq<char>)
    requires
        names_distinct(s),
        forall|k: int| 0 <= k < s.len() ==> s[k] != x,
    ensures
        names_distinct(spec_insert_sorted(s, x)),
    decreases s.len(),
{
    let r = spec_insert_sorted(s, x);
    if s.len() == 0 {
    } else if lex_le(x, s[0]) {
        assert forall|i: int, j: int| 0 <= i < j < r.len() implies r[i] != r[j] by {
            assert(r[j] == s[j - 1]);
            if i > 0 {
                assert(r[i] == s[i - 1]);
            }
        }
    } else {
        assert(names_distinct(s.drop_first())) by {
            assert forall|i: int, j: int|
                0 <= i < j < s.drop_first().len() implies s.drop_first()[i] != s.drop_first()[
            j] by {
                assert(s.drop_first()[i] == s[i + 1]);
                assert(s.drop_first()[j] == s[j + 1]);
            }
        }
        lemma_insert_sorted_distinct(s.drop_first(), x);
        lemma_insert_sorted_elems(s.drop_first(), x);
        let rr = spec_insert_sorted(s.drop_first(), x);
        assert forall|i: int, j: int| 0 <= i < j < r.len() implies r[i] != r[j] by {
            if i == 0 {
                assert(r[0] == s[0]);
                assert(r[j] == rr[j - 1]);
                if rr[j - 1] != x {
                    let k = choose|k: int|
                        0 <= k < s.drop_first().len() && s.drop_first()[k] == rr[j - 1];
                    assert(s.drop_first()[k] == s[k + 1]);
                    assert(s[0] != s[k + 1]);
                }
            } else {
                assert(r[i] == rr[i - 1] && r[j] == rr[j - 1]);
            }
        }
    }
}

/// Sorting keeps the entries and their duplicate-freedom.
proof fn lemma_sort_names_distinct(s: Seq<Seq<char>>)
    requires
        names_distinct(s),
    ensures
        names_distinct(spec_sort_names(s)),
        forall|i: int|
            0 <= i < spec_sort_names(s).len() ==> exists|k: int|
                0 <= k < s.len() && s[k] == #[trigger] spec_sort_names(s)[i],
    decreases s.len(),
{
    if s.len() > 0 {
        let t = s.drop_last();
        assert(names_distinct(t)) by {
            assert forall|i: int, j: int| 0 <= i < j < t.len() implies t[i] != t[j] by {
                assert(t[i] == s[i] && t[j] == s[j]);
            }
        }
        lemma_sort_names_distinct(t);
        let st = spec_sort_names(t);
        let x = s.last();
        assert(forall|k: int| 0 <= k < st.len() ==> #[trigger] st[k] != x) by {
            assert forall|k: int| 0 <= k < st.len() implies #[trigger] st[k] != x by {
                let q = choose|q: int| 0 <= q < t.len() && t[q] == st[k];
                assert(t[q] == s[q]);
                assert(s[q] != s[s.len() - 1]);
            }
        }
        lemma_insert_sorted_distinct(st, x);
        lemma_insert_sorted_elems(st, x);
        let r = spec_sort_names(s);
        assert forall|i: int| 0 <= i < r.len() implies exists|k: int| 0 <= k < s.len() && s[k]
            == #[trigger] r[i] by {
            if r[i] == x {
                assert(s[s.len() - 1] == r[i]);
            } else {
                let k = choose|k: int| 0 <= k < st.len() && st[k] == r[i];
                let q = choose|q: int| 0 <= q < t.len() && t[q] == st[k];
                assert(s[q] == r[i]);
            }
        }
    }
}

/// The index where `name` belongs in the sorted list `out`.
fn sorted_position(out: &Vec<&String>, name: &str) -> (p: usize)
    ensures
        p <= out@.len(),
        forall|q: int| 0 <= q < p ==> !lex_le(name@, #[trigger] out.deep_view()[q]),
        p < out@.len() ==> lex_le(name@, out.deep_view()[p as int]),
{
    let n = out.len();
    let mut p: usize = 0;
    while p < n
        invariant
            n == out@.len(),
            p <= n,
            forall|q: int| 0 <= q < p ==> !lex_le(name@, #[trigger] out.deep_view()[q]),
        decreases n - p,
    {
        if str_le(name, out[p].as_str()) {
            return p;
        }
        p = p + 1;
    }
    p
}

/// How a resolved command's argument tail is bound: flag-style when the
/// tail opens with a `--` token, else positionally against the declared
/// parameter names.
pub open spec fn spec_binding_of<H>(c: Command<H>, tail: Seq<Seq<char>>) -> Result<
    Map<Seq<char>, Seq<char>>,
    ParameterError,
> {
    if tail.len() > 0 && is_flag_token(tail[0]) {
        spec_flag_binding(tail, c.spec_args())
    } else if tail.len() != c.spec_args().len() {
        Err(ParameterError::InvalidParameterCount)
    } else {
        Ok(spec_positional(spec_arg_names(c.spec_args()), tail))
    }
}

/// Whether the line is one enabled builtin: a lone `help` or `version`.
pub open spec fn spec_is_builtin(tokens: Seq<Seq<char>>, use_builtins: bool) -> bool {
    use_builtins && tokens.len() == 1 && (tokens[0] == "help"@ || tokens[0] == "version"@)
}

/// The bytes a dispatch writes when its outcome is fixed by resolution and
/// binding alone: an unknown command, a builtin, or a binding failure.
/// `None` when a handler's result decides the output.
pub open spec fn spec_fixed_dispatch<H>(
    cmds: Seq<Command<H>>,
    tokens: Seq<Seq<char>>,
    op: Seq<char>,
    use_builtins: bool,
    version: Seq<char>,
) -> Option<Seq<u8>> {
    let r = spec_resolve(cmds, tokens);
    match r.0 {
        None => if use_builtins && tokens.len() == 1 && tokens[0] == "help"@ {
            Some(
                spec_output_line(op, spec_join_names(spec_sort_names(spec_names_of(cmds))))
                    + spec_newline_seq(),
            )
        } else if use_builtins && tokens.len() == 1 && tokens[0] == "version"@ {
            Some(spec_output_line(op, version) + spec_newline_seq())
        } else {
            Some(spec_output_line(op, "Unknown command"@) + spec_newline_seq())
        },
        Some(c) => match spec_binding_of(c, tokens.skip(r.1)) {
            Err(e) => Some(spec_output_line(op, e.spec_message()) + spec_newline_seq()),
            Ok(_) => None,
        },
    }
}

/// The bytes written for a handler's result: its output line, nothing for
/// a silent success, or the error's text as the output line.
pub open spec fn spec_handler_render(op: Seq<char>, hr: Result<Option<String>, ReplError>) -> Seq<
    u8,
> {
    match hr {
        Ok(Some(t)) => spec_output_line(op, t@) + spec_newline_seq(),
        Ok(None) => Seq::empty(),
        Err(e) => spec_output_line(op, e.spec_message()) + spec_newline_seq(),
    }
}

/// The interactive loop's state: the command tree, the line being edited,
/// the configuration, and the application context handed to handlers.
pub struct Repl<H: Handler> {
    pub commands: Vec<Command<H>>,
    pub buffer: CursorBuffer,
    pub prompt: String,
    pub output_prompt: String,
    pub welcome_message: String,
    pub exit_message: String,
    pub version: String,
    pub ignore_empty_line: bool,
    pub use_builtins: bool,
    pub strict: bool,
    pub state: H::Ctx,
}

/// The commands and configuration of `b` are those of `a`.
pub open spec fn same_config<H: Handler>(a: &Repl<H>, b: &Repl<H>) -> bool {
    &&& b.commands@ == a.commands@
    &&& b.prompt == a.prompt
    &&& b.output_prompt == a.output_prompt
    &&& b.welcome_message == a.welcome_message
    &&& b.exit_message == a.exit_message
    &&& b.version == a.version
    &&& b.ignore_empty_line == a.ignore_empty_line
    &&& b.use_builtins == a.use_builtins
    &&& b.strict == a.strict
}

/// Neither the edit buffer nor the application context of `a` changed in
/// `b`.
pub open spec fn same_edit_state<H: Handler>(a: &Repl<H>, b: &Repl<H>) -> bool {
    &&& b.buffer@ == a.buffer@
    &&& b.buffer.spec_pos() == a.buffer.spec_pos()
    &&& b.state == a.state
}

impl<H: Handler> Repl<H> {
    /// Well-formedness: the cursor never leaves the buffer.
    pub open spec fn wf(&self) -> bool {
        self.buffer.wf()
    }

    /// A loop state with the default configuration and no commands.
    pub fn new(context: H::Ctx) -> (r: Self)
        ensures
            r.wf(),
            r.commands@ == Seq::<Command<H>>::empty(),
            forest_wf(r.commands@),
            r.buffer@ == Seq::<char>::empty(),
            r.buffer.spec_pos() == 0,
            r.prompt@ == ">> "@,
            r.output_prompt@ == Seq::<char>::empty(),
            r.welcome_message@ == Seq::<char>::empty(),
            r.exit_message@ == Seq::<char>::empty(),
            r.version@ == "0.1.0"@,
            r.ignore_empty_line == true,
            r.use_builtins == true,
            r.strict == false,
            r.state == context,
    {
        Self::builder(context).build()
    }

    /// A builder to configure a [`Repl`].
    pub fn builder(context: H::Ctx) -> (r: crate::builder::ReplBuilder<H>)
        ensures
            r.commands@ == Seq::<Command<H>>::empty(),
            forest_wf(r.commands@),
            r.ignore_empty_line == true,
            r.welcome_message@ == Seq::<char>::empty(),
            r.output_prompt@ == Seq::<char>::empty(),
            r.exit_message@ == Seq::<char>::empty(),
            r.use_builtins == true,
            r.strict == false,
            r.state == context,
            r.version@ == "0.1.0"@,
            r.prompt@ == ">> "@,
    {
        crate::builder::ReplBuilder::new(context)
    }

    /// The names of the registered top-level commands, in alphabetical
    /// order.
    pub fn list_commands(&self) -> (r: Vec<&String>)
        ensures
            r.deep_view() == spec_sort_names(spec_names_of(self.commands@)),
            sibling_names_distinct(self.commands@) ==> forall|i: int, j: int|
                0 <= i < j < r.deep_view().len() ==> r.deep_view()[i] != r.deep_view()[j],
    {
        let mut out: Vec<&String> = Vec::new();
        let n = self.commands.len();
        proof {
            assert(spec_names_of(self.commands@.subrange(0, 0)) =~= Seq::<Seq<char>>::empty());
            assert(out.deep_view() =~= Seq::<Seq<char>>::empty());
        }
        for j in 0..n
            invariant
                n == self.commands@.len(),
                out.deep_view() == spec_sort_names(
                    spec_names_of(self.commands@.subrange(0, j as int)),
                ),
        {
            let name = self.commands[j].name();
            let p = sorted_position(&out, name.as_str());
            let ghost old_dv = out.deep_view();
            out.insert(p, name);
            proof {
                lemma_insert_sorted_at(old_dv, name@, p as int);
                assert(out.deep_view() =~= old_dv.subrange(0, p as int) + seq![name@]
                    + old_dv.subrange(p as int, old_dv.len() as int));
                let pre = spec_names_of(self.commands@.subrange(0, j as int));
                let cur = spec_names_of(self.commands@.subrange(0, j + 1));
                assert(cur.drop_last() =~= pre);
                assert(cur.last() == self.commands@[j as int].spec_name());
                assert(out.deep_view() =~= spec_insert_sorted(old_dv, name@));
            }
        }
        proof {
            assert(self.commands@.subrange(0, n as int) =~= self.commands@);
            if sibling_names_distinct(self.commands@) {
                let names = spec_names_of(self.commands@);
                assert(names_distinct(names)) by {
                    assert forall|i: int, j: int|
                        0 <= i < j < names.len() implies names[i] != names[j] by {
                        assert(names[i] == self.commands@[i].spec_name());
                        assert(names[j] == self.commands@[j].spec_name());
                    }
                }
                lemma_sort_names_distinct(names);
            }
        }
        out
    }

    /// Dispatches one completed line, given as its tokens: resolve the
    /// command, bind the tail, run the handler, and write the output line.
    /// The buffer is untouched; only a handler changes the context. In
    /// strict mode a line that resolves to no command and is no builtin is
    /// fatal instead of rendered.
    fn dispatch(&mut self, tokens: Vec<String>) -> (r: Result<Vec<u8>, ReplError>)
        ensures
            final(self).wf() == old(self).wf(),
            same_config(old(self), final(self)),
            final(self).buffer == old(self).buffer,
            old(self).strict && spec_resolve(old(self).commands@, tokens.deep_view()).0 is None
                && !spec_is_builtin(tokens.deep_view(), old(self).use_builtins) ==> (
            r matches Err(e) && e matches ReplError::NoSuchCommandError(s) && s@ == (
            if tokens.deep_view().len() > 0 {
                tokens.deep_view()[0]
            } else {
                Seq::<char>::empty()
            }) && final(self).state == old(self).state),
            !(old(self).strict && spec_resolve(old(self).commands@, tokens.deep_view()).0 is None
                && !spec_is_builtin(tokens.deep_view(), old(self).use_builtins)) ==> match spec_fixed_dispatch(
                old(self).commands@,
                tokens.deep_view(),
                old(self).output_prompt@,
                old(self).use_builtins,
                old(self).version@,
            ) {
                Some(bytes) => (r matches Ok(b) && b@ == bytes) && final(self).state == old(
                    self,
                ).state,
                None => r matches Ok(b) && exists|hr: Result<Option<String>, ReplError>|
                    b@ == spec_handler_render(old(self).output_prompt@, hr),
            },
    {
        proof {
            assert(tokens.deep_view().skip(0) =~= tokens.deep_view());
        }
        let ghost dv = tokens.deep_view();
        let (node, k) = resolve_from(&self.commands, &tokens, 0);
        match node {
            None => {
                let is_builtin = self.use_builtins && tokens.len() == 1 && (str_eq(
                    tokens[0].as_str(),
                    "help",
                ) || str_eq(tokens[0].as_str(), "version"));
                proof {
                    if dv.len() > 0 {
                        assert(dv[0] == tokens@[0]@);
                    }
                }
                if self.strict && !is_builtin {
                    let unmatched = if tokens.len() > 0 {
                        tokens[0].clone()
                    } else {
                        String::new()
                    };
                    return Err(ReplError::NoSuchCommandError(unmatched));
                }
                let mut out: Vec<u8>;
                if self.use_builtins && tokens.len() == 1 && str_eq(tokens[0].as_str(), "help") {
                    proof {
                        assert(dv[0] == tokens@[0]@);
                    }
                    let sorted = self.list_commands();
                    proof {
                        assert(sorted.deep_view().skip(0) =~= sorted.deep_view());
                    }
                    let text = join_names(&sorted, 0);
                    out = output_line(self.output_prompt.as_str(), text.as_str());
                } else if self.use_builtins && tokens.len() == 1 && str_eq(
                    tokens[0].as_str(),
                    "version",
                ) {
                    proof {
                        assert(dv[0] == tokens@[0]@);
                    }
                    out = output_line(self.output_prompt.as_str(), self.version.as_str());
                } else {
                    proof {
                        if dv.len() == 1 {
                            assert(dv[0] == tokens@[0]@);
                        }
                    }
                    out = output_line(self.output_prompt.as_str(), "Unknown command");
                }
                let mut nl = newline_bytes();
                out.append(&mut nl);
                Ok(out)
            },
            Some(cmd) => {
                let mut toks = tokens;
                let tail = toks.split_off(k);
                proof {
                    assert(tail.deep_view() =~= dv.skip(k as int));
                }
                let empty_args: Vec<Arg> = Vec::new();
                let args_ref: &Vec<Arg> = match cmd.leaf_args() {
                    Some(a) => a,
                    None => &empty_args,
                };
                proof {
                    assert(args_ref.deep_view() =~= cmd.spec_args());
                }
                let bres: Result<Parameters, ParameterError> = if tail.len() > 0 && is_flag(
                    &tail[0],
                ) {
                    proof {
                        assert(tail.deep_view()[0] == tail@[0]@);
                    }
                    Parameters::bind_flags_tokens(&tail, args_ref)
                } else {
                    proof {
                        if tail.deep_view().len() > 0 {
                            assert(tail.deep_view()[0] == tail@[0]@);
                        }
                    }
                    Parameters::bind_positional_tokens(&tail, args_ref)
                };
                match bres {
                    Err(e) => {
                        let mut out = output_line(self.output_prompt.as_str(), e.message());
                        let mut nl = newline_bytes();
                        out.append(&mut nl);
                        Ok(out)
                    },
                    Ok(params) => {
                        let res = cmd.run(&params, &mut self.state);
                        let out: Vec<u8> = match &res {
                            Ok(opt) => match opt {
                                Some(t) => {
                                    let mut o = output_line(
                                        self.output_prompt.as_str(),
                                        t.as_str(),
                                    );
                                    let mut nl = newline_bytes();
                                    o.append(&mut nl);
                                    o
                                },
                                None => Vec::new(),
                            },
                            Err(e) => {
                                let msg = e.message();
                                let mut o = output_line(self.output_prompt.as_str(), msg.as_str());
                                let mut nl = newline_bytes();
                                o.append(&mut nl);
                                o
                            },
                        };
                        proof {
                            assert(out@ == spec_handler_render(old(self).output_prompt@, res));
                        }
                        Ok(out)
                    },
                }
            },
        }
    }

    /// Handles Enter: an empty buffer yields exactly one newline and no
    /// dispatch; a line of nothing but spaces is skipped when configured
    /// so; any other line is dispatched and the buffer cleared.
    fn handle_enter(&mut self) -> (r: Step)
        requires
            old(self).wf(),
        ensures
            final(self).wf(),
            same_config(old(self), final(self)),
            old(self).buffer@.len() == 0 ==> same_edit_state(old(self), final(self)) && (
            r matches Step::Output(b) && b@ == spec_newline_seq()),
            old(self).buffer@.len() > 0 && spec_tokens(old(self).buffer@).len() == 0 && old(self).ignore_empty_line ==> final(self).buffer@.len() == 0 && final(self).buffer.spec_pos()
                == 0 && final(self).state == old(self).state && (r matches Step::Output(b) && b@
                == spec_newline_seq()),
            old(self).buffer@.len() > 0 && (spec_tokens(old(self).buffer@).len() > 0 || !old(self).ignore_empty_line) ==> final(self).buffer@.len() == 0 && final(self).buffer.spec_pos()
                == 0 && (if old(self).strict && spec_resolve(
                old(self).commands@,
                spec_tokens(old(self).buffer@),
            ).0 is None && !spec_is_builtin(spec_tokens(old(self).buffer@), old(self).use_builtins) {
                r matches Step::Fatal(e) && e matches ReplError::NoSuchCommandError(s) && s@ == (
                if spec_tokens(old(self).buffer@).len() > 0 {
                    spec_tokens(old(self).buffer@)[0]
                } else {
                    Seq::<char>::empty()
                }) && final(self).state == old(self).state
            } else {
                r matches Step::Output(b) && match spec_fixed_dispatch(
                    old(self).commands@,
                    spec_tokens(old(self).buffer@),
                    old(self).output_prompt@,
                    old(self).use_builtins,
                    old(self).version@,
                ) {
                    Some(bytes) => b@ == spec_newline_seq() + bytes && final(self).state == old(self).state,
                    None => exists|hr: Result<Option<String>, ReplError>|
                        b@ == spec_newline_seq() + spec_handler_render(old(self).output_prompt@, hr),
                }
            }),
    {
        if self.buffer.is_empty() {
            return Step::Output(newline_bytes());
        }
        let line = chars_to_string(self.buffer.chars());
        let tokens = tokenize(line.as_str());
        if tokens.len() == 0 && self.ignore_empty_line {
            self.buffer.clear();
            return Step::Output(newline_bytes());
        }
        match self.dispatch(tokens) {
            Ok(d) => {
                let mut out = newline_bytes();
                let mut tail = d;
                out.append(&mut tail);
                self.buffer.clear();
                Step::Output(out)
            },
            Err(e) => {
                self.buffer.clear();
                Step::Fatal(e)
            },
        }
    }

    /// Handles one key event and yields the bytes to write, or the demand
    /// to leave the loop on an interrupt or end-of-input control key.
    pub fn handle_key(&mut self, key: Key) -> (r: Step)
        requires
            old(self).wf(),
        ensures
            final(self).wf(),
            same_config(old(self), final(self)),
            key matches Key::Char(c) ==> (c != '\n' && c != '\t' ==> final(self).buffer@
                == seq_inserted(old(self).buffer@, old(self).buffer.spec_pos() as int, seq![c])
                && final(self).buffer.spec_pos() == old(self).buffer.spec_pos() + 1 && final(self).state == old(self).state && (r matches Step::Output(b) && b@ == spec_input_redraw(
                old(self).prompt@,
                final(self).buffer@,
                final(self).buffer.spec_pos() as int,
            ))),
            key matches Key::Char(c) ==> (c == '\t' ==> same_edit_state(old(self), final(self)) && (
            r matches Step::Output(b) && b@ == Seq::<u8>::empty())),
            key is Backspace && old(self).buffer.spec_pos() == 0 ==> same_edit_state(
                old(self),
                final(self),
            ) && (r matches Step::Output(b) && b@ == Seq::<u8>::empty()),
            key is Backspace && old(self).buffer.spec_pos() > 0 ==> final(self).buffer@
                == seq_removed(old(self).buffer@, old(self).buffer.spec_pos() - 1, 1) && final(self).buffer.spec_pos() == old(self).buffer.spec_pos() - 1 && final(self).state == old(self).state && (r matches Step::Output(b) && b@ == spec_input_redraw(
                old(self).prompt@,
                final(self).buffer@,
                final(self).buffer.spec_pos() as int,
            )),
            key is Left && old(self).buffer.spec_pos() > 0 ==> final(self).buffer@ == old(self).buffer@ && final(self).buffer.spec_pos() == old(self).buffer.spec_pos() - 1 && final(self).state == old(self).state && (r matches Step::Output(b) && b@ == spec_cursor_left(1)),
            key is Left && old(self).buffer.spec_pos() == 0 ==> same_edit_state(
                old(self),
                final(self),
            ) && (r matches Step::Output(b) && b@ == Seq::<u8>::empty()),
            key is Right && old(self).buffer.spec_pos() < old(self).buffer@.len() ==> final(self).buffer@ == old(self).buffer@ && final(self).buffer.spec_pos() == old(self).buffer.spec_pos() + 1 && final(self).state == old(self).state && (
            r matches Step::Output(b) && b@ == spec_cursor_right(1)),
            key is Right && old(self).buffer.spec_pos() >= old(self).buffer@.len()
                ==> same_edit_state(old(self), final(self)) && (r matches Step::Output(b) && b@
                == Seq::<u8>::empty()),
            (key is Up || key is Down || key is Home || key is End || key is Esc || key is Null
                || key is Alt) ==> same_edit_state(old(self), final(self)) && (
            r matches Step::Output(b) && b@ == Seq::<u8>::empty()),
            key matches Key::Ctrl(c) ==> ((c == 'c' || c == 'd') ==> same_edit_state(
                old(self),
                final(self),
            ) && r is Exit),
            key matches Key::Ctrl(c) ==> (!(c == 'c' || c == 'd') ==> same_edit_state(
                old(self),
                final(self),
            ) && (r matches Step::Output(b) && b@ == Seq::<u8>::empty())),
            key matches Key::Char(c) ==> (c == '\n' && old(self).buffer@.len() == 0
                ==> same_edit_state(old(self), final(self)) && (r matches Step::Output(b) && b@
                == spec_newline_seq())),
            key matches Key::Char(c) ==> (c == '\n' && old(self).buffer@.len() > 0 && spec_tokens(
                old(self).buffer@,
            ).len() == 0 && old(self).ignore_empty_line ==> final(self).buffer@.len() == 0 && final(self).buffer.spec_pos() == 0 && final(self).state == old(self).state && (
            r matches Step::Output(b) && b@ == spec_newline_seq())),
            key matches Key::Char(c) ==> (c == '\n' && old(self).buffer@.len() > 0 && (spec_tokens(
                old(self).buffer@,
            ).len() > 0 || !old(self).ignore_empty_line) ==> final(self).buffer@.len() == 0
                && final(self).buffer.spec_pos() == 0 && (if old(self).strict && spec_resolve(
                old(self).commands@,
                spec_tokens(old(self).buffer@),
            ).0 is None && !spec_is_builtin(spec_tokens(old(self).buffer@), old(self).use_builtins) {
                r matches Step::Fatal(e) && e matches ReplError::NoSuchCommandError(s) && s@ == (
                if spec_tokens(old(self).buffer@).len() > 0 {
                    spec_tokens(old(self).buffer@)[0]
                } else {
                    Seq::<char>::empty()
                }) && final(self).state == old(self).state
            } else {
                r matches Step::Output(b) && match spec_fixed_dispatch(
                    old(self).commands@,
                    spec_tokens(old(self).buffer@),
                    old(self).output_prompt@,
                    old(self).use_builtins,
                    old(self).version@,
                ) {
                    Some(bytes) => b@ == spec_newline_seq() + bytes && final(self).state == old(self).state,
                    None => exists|hr: Result<Option<String>, ReplError>|
                        b@ == spec_newline_seq() + spec_handler_render(old(self).output_prompt@, hr),
                }
            })),
    {
        match key {
            Key::Backspace => {
                if self.buffer.get_pos() == 0 {
                    Step::Output(Vec::new())
                } else {
                    // the cursor invariant makes this removal succeed
                    let _removed = self.buffer.remove_one(Direction::Left);
                    Step::Output(input_redraw(self.prompt.as_str(), &self.buffer))
                }
            },
            Key::Left => {
                if self.buffer.move_left() {
                    Step::Output(cursor_left_bytes(1))
                } else {
                    Step::Output(Vec::new())
                }
            },
            Key::Right => {
                if self.buffer.move_right() {
                    Step::Output(cursor_right_bytes(1))
                } else {
                    Step::Output(Vec::new())
                }
            },
            Key::Up => Step::Output(Vec::new()),
            Key::Down => Step::Output(Vec::new()),
            Key::Home => Step::Output(Vec::new()),
            Key::End => Step::Output(Vec::new()),
            Key::Esc => Step::Output(Vec::new()),
            Key::Null => Step::Output(Vec::new()),
            Key::Alt(_) => Step::Output(Vec::new()),
            Key::Ctrl(c) => {
                if c == 'c' || c == 'd' {
                    Step::Exit
                } else {
                    Step::Output(Vec::new())
                }
            },
            Key::Char(c) => {
                if c == '\n' {
                    self.handle_enter()
                } else if c == '\t' {
                    Step::Output(Vec::new())
                } else {
                    let mut one: Vec<char> = Vec::new();
                    one.push(c);
                    // the cursor invariant makes this insertion succeed
                    let _inserted = self.buffer.insert(one.as_slice());
                    proof {
                        assert(one@ =~= seq![c]);
                    }
                    Step::Output(input_redraw(self.prompt.as_str(), &self.buffer))
                }
            },
        }
    }
}

} // verus!
