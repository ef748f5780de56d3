//! The command tree: named nodes that are either a parameter leaf or a
//! branch of uniquely named subcommands, plus the resolver that walks the
//! tree greedily over the tokens of an input line.
use vstd::prelude::*;

use crate::args::{Arg, ArgView};
use crate::error::ReplResult;
use crate::parameters::Parameters;
use crate::text::str_eq;

verus! {

/// A command's action, implemented by the library user: it receives the
/// bound parameters and exclusive access to the application context, and
/// may yield one line of output or a failure for the loop to render.
pub trait Handler: Sized {
    /// The application context handed to every invocation.
    type Ctx;

    /// Runs the action once per dispatch.
    fn run(&self, args: &Parameters, ctx: &mut Self::Ctx) -> Result<Option<String>, crate::error::ReplError>;
}

/// A rejected registration: a command is a parameter leaf or a branch of
/// subcommands, never both.
#[derive(Debug, PartialEq, Eq, Clone, Copy)]
pub enum RegistrationError {
    /// A subcommand was added to a command that already has a parameter.
    IllegalSubcommandError,
    /// A parameter was added to a command that already has a subcommand.
    IllegalParameterError,
}

/// What a command is: a leaf that accepts parameters, or a branch that
/// holds subcommands. A node is never both.
pub enum CommandKind<H> {
    Leaf(Vec<Arg>),
    Branch(Vec<Command<H>>),
}

/// A node of the command tree: a name, an optional help text, the handler
/// run when the node is dispatched, and the node's kind.
pub struct Command<H> {
    name: String,
    help: Option<String>,
    handler: H,
    kind: CommandKind<H>,
}

impl<H> Command<H> {
    /// The node's name.
    pub closed spec fn spec_name(&self) -> Seq<char> {
        self.name@
    }

    /// The node's help text.
    pub closed spec fn spec_help(&self) -> Option<Seq<char>> {
        match self.help {
            Some(h) => Some(h@),
            None => None,
        }
    }

    /// The node's handler.
    pub closed spec fn spec_handler(&self) -> H {
        self.handler
    }

    /// True when the node accepts parameters rather than subcommands.
    pub closed spec fn is_leaf(&self) -> bool {
        self.kind is Leaf
    }

    /// The declared parameters; empty for a branch.
    pub closed spec fn spec_args(&self) -> Seq<ArgView> {
        match self.kind {
            CommandKind::Leaf(args) => args.deep_view(),
            CommandKind::Branch(_) => Seq::empty(),
        }
    }

    /// The subcommands; empty for a leaf.
    pub closed spec fn spec_children(&self) -> Seq<Command<H>> {
        match self.kind {
            CommandKind::Branch(children) => children@,
            CommandKind::Leaf(_) => Seq::empty(),
        }
    }

    /// Well-formedness: parameter names are unique within a leaf, sibling
    /// names are unique within a branch, and every subtree is well formed.
    pub closed spec fn wf(&self) -> bool
        decreases self,
    {
        match self.kind {
            CommandKind::Leaf(args) => arg_names_distinct(args.deep_view()),
            CommandKind::Branch(children) => sibling_names_distinct(children@) && (forall|i: int|
                0 <= i < children@.len() ==> (#[trigger] children@[i]).wf()),
        }
    }
}

/// Sibling command names are pairwise distinct.
pub open spec fn sibling_names_distinct<H>(cmds: Seq<Command<H>>) -> bool {
    forall|i: int, j: int|
        0 <= i < j < cmds.len() ==> (#[trigger] cmds[i]).spec_name() != (
        #[trigger] cmds[j]).spec_name()
}

/// Declared parameter names are pairwise distinct.
pub open spec fn arg_names_distinct(args: Seq<ArgView>) -> bool {
    forall|i: int, j: int|
        0 <= i < j < args.len() ==> (#[trigger] args[i]).name != (#[trigger] args[j]).name
}

/// A well-formed sibling set: names pairwise distinct and every tree in
/// it well formed.
pub open spec fn forest_wf<H>(cmds: Seq<Command<H>>) -> bool {
    &&& sibling_names_distinct(cmds)
    &&& forall|i: int| 0 <= i < cmds.len() ==> (#[trigger] cmds[i]).wf()
}

/// First node with the given name.
pub open spec fn spec_find_cmd<H>(cmds: Seq<Command<H>>, name: Seq<char>) -> Option<Command<H>>
    decreases cmds.len(),
{
    if cmds.len() == 0 {
        None
    } else if cmds[0].spec_name() == name {
        Some(cmds[0])
    } else {
        spec_find_cmd(cmds.drop_first(), name)
    }
}

/// Greedy descent: consume leading tokens while each exactly names a child
/// at the current level. Yields the deepest node reached — none when the
/// very first token matched nothing — and the number of tokens consumed.
pub open spec fn spec_resolve<H>(cmds: Seq<Command<H>>, tokens: Seq<Seq<char>>) -> (
    Option<Command<H>>,
    int,
)
    decreases tokens.len(),
{
    if tokens.len() == 0 {
        (None, 0)
    } else {
        match spec_find_cmd(cmds, tokens[0]) {
            None => (None, 0),
            Some(c) => {
                let r = spec_resolve(c.spec_children(), tokens.drop_first());
                match r.0 {
                    None => (Some(c), 1),
                    Some(d) => (Some(d), 1 + r.1),
                }
            },
        }
    }
}

/// The sibling list with `c` replacing its first namesake, or appended
/// when it has none.
pub open spec fn spec_upsert_cmd<H>(cmds: Seq<Command<H>>, c: Command<H>) -> Seq<Command<H>>
    decreases cmds.len(),
{
    if cmds.len() == 0 {
        seq![c]
    } else if cmds[0].spec_name() == c.spec_name() {
        seq![c] + cmds.drop_first()
    } else {
        seq![cmds[0]] + spec_upsert_cmd(cmds.drop_first(), c)
    }
}

/// The parameter list with `a` replacing its first namesake, or appended
/// when it has none.
pub open spec fn spec_upsert_arg(args: Seq<ArgView>, a: ArgView) -> Seq<ArgView>
    decreases args.len(),
{
    if args.len() == 0 {
        seq![a]
    } else if args[0].name == a.name {
        seq![a] + args.drop_first()
    } else {
        seq![args[0]] + spec_upsert_arg(args.drop_first(), a)
    }
}

/// Replacing the first namesake at index `j` splices the list there.
proof fn lemma_upsert_cmd_at<H>(cmds: Seq<Command<H>>, c: Command<H>, j: int)
    requires
        0 <= j < cmds.len(),
        cmds[j].spec_name() == c.spec_name(),
        forall|q: int| 0 <= q < j ==> (#[trigger] cmds[q]).spec_name() != c.spec_name(),
    ensures
        spec_upsert_cmd(cmds, c) == cmds.subrange(0, j) + seq![c] + cmds.subrange(
            j + 1,
            cmds.len() as int,
        ),
    decreases j,
{
    if j == 0 {
        assert(spec_upsert_cmd(cmds, c) =~= cmds.subrange(0, 0) + seq![c] + cmds.subrange(
            1,
            cmds.len() as int,
        ));
    } else {
        lemma_upsert_cmd_at(cmds.drop_first(), c, j - 1);
        assert(cmds.drop_first().subrange(0, j - 1) =~= cmds.subrange(1, j));
        assert(cmds.drop_first().subrange(j, cmds.len() - 1) =~= cmds.subrange(
            j + 1,
            cmds.len() as int,
        ));
        assert(spec_upsert_cmd(cmds, c) =~= cmds.subrange(0, j) + seq![c] + cmds.subrange(
            j + 1,
            cmds.len() as int,
        ));
    }
}

/// With no namesake present, the upsert is an append.
proof fn lemma_upsert_cmd_push<H>(cmds: Seq<Command<H>>, c: Command<H>)
    requires
        forall|q: int| 0 <= q < cmds.len() ==> (#[trigger] cmds[q]).spec_name() != c.spec_name(),
    ensures
        spec_upsert_cmd(cmds, c) == cmds.push(c),
    decreases cmds.len(),
{
    if cmds.len() == 0 {
        assert(spec_upsert_cmd(cmds, c) =~= cmds.push(c));
    } else {
        lemma_upsert_cmd_push(cmds.drop_first(), c);
        assert(spec_upsert_cmd(cmds, c) =~= cmds.push(c));
    }
}

/// Replacing the first namesake at index `j` splices the list there.
proof fn lemma_upsert_arg_at(args: Seq<ArgView>, a: ArgView, j: int)
    requires
        0 <= j < args.len(),
        args[j].name == a.name,
        forall|q: int| 0 <= q < j ==> (#[trigger] args[q]).name != a.name,
    ensures
        spec_upsert_arg(args, a) == args.subrange(0, j) + seq![a] + args.subrange(
            j + 1,
            args.len() as int,
        ),
    decreases j,
{
    if j == 0 {
        assert(spec_upsert_arg(args, a) =~= args.subrange(0, 0) + seq![a] + args.subrange(
            1,
            args.len() as int,
        ));
    } else {
        lemma_upsert_arg_at(args.drop_first(), a, j - 1);
        assert(args.drop_first().subrange(0, j - 1) =~= args.subrange(1, j));
        assert(args.drop_first().subrange(j, args.len() - 1) =~= args.subrange(
            j + 1,
            args.len() as int,
        ));
        assert(spec_upsert_arg(args, a) =~= args.subrange(0, j) + seq![a] + args.subrange(
            j + 1,
            args.len() as int,
        ));
    }
}

/// With no namesake present, the upsert is an append.
proof fn lemma_upsert_arg_push(args: Seq<ArgView>, a: ArgView)
    requires
        forall|q: int| 0 <= q < args.len() ==> (#[trigger] args[q]).name != a.name,
    ensures
        spec_upsert_arg(args, a) == args.push(a),
    decreases args.len(),
{
    if args.len() == 0 {
        assert(spec_upsert_arg(args, a) =~= args.push(a));
    } else {
        lemma_upsert_arg_push(args.drop_first(), a);
        assert(spec_upsert_arg(args, a) =~= args.push(a));
    }
}

/// Every entry of an upsert is the inserted command or one of the old
/// siblings.
proof fn lemma_upsert_cmd_elems<H>(cmds: Seq<Command<H>>, c: Command<H>)
    ensures
        forall|i: int|
            0 <= i < spec_upsert_cmd(cmds, c).len() ==> #[trigger] spec_upsert_cmd(cmds, c)[i]
                == c || exists|k: int| 0 <= k < cmds.len() && cmds[k] == spec_upsert_cmd(
                cmds,
                c,
            )[i],
    decreases cmds.len(),
{
    let r = spec_upsert_cmd(cmds, c);
    if cmds.len() == 0 {
    } else if cmds[0].spec_name() == c.spec_name() {
        assert forall|i: int| 0 <= i < r.len() implies #[trigger] r[i] == c || exists|k: int|
            0 <= k < cmds.len() && cmds[k] == r[i] by {
            if i > 0 {
                assert(r[i] == cmds.drop_first()[i - 1]);
                assert(cmds[i] == r[i]);
            }
        }
    } else {
        lemma_upsert_cmd_elems(cmds.drop_first(), c);
        let rr = spec_upsert_cmd(cmds.drop_first(), c);
        assert forall|i: int| 0 <= i < r.len() implies #[trigger] r[i] == c || exists|k: int|
            0 <= k < cmds.len() && cmds[k] == r[i] by {
            if i == 0 {
                assert(cmds[0] == r[0]);
            } else {
                assert(r[i] == rr[i - 1]);
                if rr[i - 1] != c {
                    let k = choose|k: int|
                        0 <= k < cmds.drop_first().len() && cmds.drop_first()[k] == rr[i - 1];
                    assert(cmds[k + 1] == r[i]);
                }
            }
        }
    }
}

/// Upserting keeps sibling names pairwise distinct.
proof fn lemma_upsert_cmd_distinct<H>(cmds: Seq<Command<H>>, c: Command<H>)
    requires
        sibling_names_distinct(cmds),
    ensures
        sibling_names_distinct(spec_upsert_cmd(cmds, c)),
    decreases cmds.len(),
{
    let r = spec_upsert_cmd(cmds, c);
    if cmds.len() == 0 {
    } else if cmds[0].spec_name() == c.spec_name() {
        assert forall|i: int, j: int|
            0 <= i < j < r.len() implies (#[trigger] r[i]).spec_name() != (
        #[trigger] r[j]).spec_name() by {
            assert(r[j] == cmds.drop_first()[j - 1] && r[j] == cmds[j]);
            if i == 0 {
                assert(cmds[0].spec_name() != cmds[j].spec_name());
            } else {
                assert(r[i] == cmds[i]);
            }
        }
    } else {
        assert(sibling_names_distinct(cmds.drop_first())) by {
            assert forall|i: int, j: int|
                0 <= i < j < cmds.drop_first().len() implies (#[trigger] cmds.drop_first()[
            i]).spec_name() != (#[trigger] cmds.drop_first()[j]).spec_name() by {
                assert(cmds.drop_first()[i] == cmds[i + 1]);
                assert(cmds.drop_first()[j] == cmds[j + 1]);
            }
        }
        lemma_upsert_cmd_distinct(cmds.drop_first(), c);
        lemma_upsert_cmd_elems(cmds.drop_first(), c);
        let rr = spec_upsert_cmd(cmds.drop_first(), c);
        assert forall|i: int, j: int|
            0 <= i < j < r.len() implies (#[trigger] r[i]).spec_name() != (
        #[trigger] r[j]).spec_name() by {
            if i == 0 {
                assert(r[0] == cmds[0]);
                assert(r[j] == rr[j - 1]);
                if rr[j - 1] != c {
                    let k = choose|k: int|
                        0 <= k < cmds.drop_first().len() && cmds.drop_first()[k] == rr[j - 1];
                    assert(cmds.drop_first()[k] == cmds[k + 1]);
                    assert(cmds[0].spec_name() != cmds[k + 1].spec_name());
                }
            } else {
                assert(r[i] == rr[i - 1] && r[j] == rr[j - 1]);
            }
        }
    }
}

/// Upserting a well-formed command into a well-formed sibling set yields
/// a well-formed sibling set.
proof fn lemma_upsert_cmd_wf<H>(cmds: Seq<Command<H>>, c: Command<H>)
    requires
        forest_wf(cmds),
        c.wf(),
    ensures
        forest_wf(spec_upsert_cmd(cmds, c)),
{
    lemma_upsert_cmd_distinct(cmds, c);
    lemma_upsert_cmd_elems(cmds, c);
    let r = spec_upsert_cmd(cmds, c);
    assert forall|i: int| 0 <= i < r.len() implies (#[trigger] r[i]).wf() by {
        if r[i] != c {
            let k = choose|k: int| 0 <= k < cmds.len() && cmds[k] == r[i];
            assert(cmds[k].wf());
        }
    }
}

/// Every entry of an upsert is the inserted parameter or one of the old
/// ones.
proof fn lemma_upsert_arg_elems(args: Seq<ArgView>, a: ArgView)
    ensures
        forall|i: int|
            0 <= i < spec_upsert_arg(args, a).len() ==> #[trigger] spec_upsert_arg(args, a)[i] == a
                || exists|k: int| 0 <= k < args.len() && args[k] == spec_upsert_arg(args, a)[i],
    decreases args.len(),
{
    let r = spec_upsert_arg(args, a);
    if args.len() == 0 {
    } else if args[0].name == a.name {
        assert forall|i: int| 0 <= i < r.len() implies #[trigger] r[i] == a || exists|k: int|
            0 <= k < args.len() && args[k] == r[i] by {
            if i > 0 {
                assert(r[i] == args.drop_first()[i - 1]);
                assert(args[i] == r[i]);
            }
        }
    } else {
        lemma_upsert_arg_elems(args.drop_first(), a);
        let rr = spec_upsert_arg(args.drop_first(), a);
        assert forall|i: int| 0 <= i < r.len() implies #[trigger] r[i] == a || exists|k: int|
            0 <= k < args.len() && args[k] == r[i] by {
            if i == 0 {
                assert(args[0] == r[0]);
            } else {
                assert(r[i] == rr[i - 1]);
                if rr[i - 1] != a {
                    let k = choose|k: int|
                        0 <= k < args.drop_first().len() && args.drop_first()[k] == rr[i - 1];
                    assert(args[k + 1] == r[i]);
                }
            }
        }
    }
}

/// Upserting keeps parameter names pairwise distinct.
proof fn lemma_upsert_arg_distinct(args: Seq<ArgView>, a: ArgView)
    requires
        arg_names_distinct(args),
    ensures
        arg_names_distinct(spec_upsert_arg(args, a)),
    decreases args.len(),
{
    let r = spec_upsert_arg(args, a);
    if args.len() == 0 {
    } else if args[0].name == a.name {
        assert forall|i: int, j: int|
            0 <= i < j < r.len() implies (#[trigger] r[i]).name != (#[trigger] r[j]).name by {
            assert(r[j] == args.drop_first()[j - 1] && r[j] == args[j]);
            if i == 0 {
                assert(args[0].name != args[j].name);
            } else {
                assert(r[i] == args[i]);
            }
        }
    } else {
        assert(arg_names_distinct(args.drop_first())) by {
            assert forall|i: int, j: int|
                0 <= i < j < args.drop_first().len() implies (#[trigger] args.drop_first()[
            i]).name != (#[trigger] args.drop_first()[j]).name by {
                assert(args.drop_first()[i] == args[i + 1]);
                assert(args.drop_first()[j] == args[j + 1]);
            }
        }
        lemma_upsert_arg_distinct(args.drop_first(), a);
        lemma_upsert_arg_elems(args.drop_first(), a);
        let rr = spec_upsert_arg(args.drop_first(), a);
        assert forall|i: int, j: int|
            0 <= i < j < r.len() implies (#[trigger] r[i]).name != (#[trigger] r[j]).name by {
            if i == 0 {
                assert(r[0] == args[0]);
                assert(r[j] == rr[j - 1]);
                if rr[j - 1] != a {
                    let k = choose|k: int|
                        0 <= k < args.drop_first().len() && args.drop_first()[k] == rr[j - 1];
                    assert(args.drop_first()[k] == args[k + 1]);
                    assert(args[0].name != args[k + 1].name);
                }
            } else {
                assert(r[i] == rr[i - 1] && r[j] == rr[j - 1]);
            }
        }
    }
}

/// Looks `name` up among sibling commands.
pub(crate) fn find_cmd<'a, H>(cmds: &'a Vec<Command<H>>, name: &str) -> (r: Option<&'a Command<H>>)
    ensures
        match spec_find_cmd(cmds@, name@) {
            None => r is None,
            Some(c) => r matches Some(f) && *f == c,
        },
{
    let n = cmds.len();
    let mut j: usize = 0;
    proof {
        assert(cmds@.skip(0) =~= cmds@);
    }
    while j < n
        invariant
            n == cmds@.len(),
            j <= n,
            spec_find_cmd(cmds@, name@) == spec_find_cmd(cmds@.skip(j as int), name@),
        decreases n - j,
    {
        proof {
            assert(cmds@.skip(j as int).drop_first() =~= cmds@.skip(j + 1));
            assert(cmds@.skip(j as int)[0] == cmds@[j as int]);
        }
        if str_eq(cmds[j].name.as_str(), name) {
            return Some(&cmds[j]);
        }
        j = j + 1;
    }
    proof {
        assert(cmds@.skip(n as int) =~= Seq::<Command<H>>::empty());
    }
    None
}

/// Walks the tree from the sibling set `cmds`, consuming tokens from `i`
/// on; mirrors `spec_resolve`. Yields the deepest node and the index of
/// the first unconsumed token.
pub(crate) fn resolve_from<'a, H>(cmds: &'a Vec<Command<H>>, tokens: &Vec<String>, i: usize) -> (r: (
    Option<&'a Command<H>>,
    usize,
))
    requires
        i <= tokens@.len(),
    ensures
        ({
            let s = spec_resolve(cmds@, tokens.deep_view().skip(i as int));
            &&& match r.0 {
                Some(c) => s.0 == Some(*c),
                None => s.0 is None,
            }
            &&& r.1 == i + s.1
            &&& i <= r.1 <= tokens@.len()
        }),
    decreases tokens@.len() - i,
{
    let ghost toks = tokens.deep_view().skip(i as int);
    if i == tokens.len() {
        proof {
            assert(toks =~= Seq::<Seq<char>>::empty());
        }
        return (None, i);
    }
    proof {
        assert(toks[0] == tokens.deep_view()[i as int]);
        assert(toks[0] == tokens@[i as int]@);
        assert(toks.drop_first() =~= tokens.deep_view().skip(i + 1));
    }
    match find_cmd(cmds, tokens[i].as_str()) {
        None => (None, i),
        Some(c) => match &c.kind {
            CommandKind::Leaf(_) => {
                proof {
                    assert(c.spec_children() =~= Seq::<Command<H>>::empty());
                    let rest = toks.drop_first();
                    if rest.len() > 0 {
                        assert(spec_find_cmd(Seq::<Command<H>>::empty(), rest[0]) is None);
                    }
                    assert(spec_resolve(c.spec_children(), rest).0 is None);
                }
                (Some(c), i + 1)
            },
            CommandKind::Branch(children) => {
                proof {
                    assert(c.spec_children() == children@);
                }
                let (sub, k) = resolve_from(children, tokens, i + 1);
                match sub {
                    None => (Some(c), i + 1),
                    Some(d) => (Some(d), k),
                }
            },
        },
    }
}

/// Index of the first sibling with the given name.
fn find_cmd_index<H>(cmds: &Vec<Command<H>>, name: &str) -> (r: Option<usize>)
    ensures
        match r {
            Some(j) => j < cmds@.len() && cmds@[j as int].spec_name() == name@ && forall|q: int|
                0 <= q < j ==> (#[trigger] cmds@[q]).spec_name() != name@,
            None => forall|q: int|
                0 <= q < cmds@.len() ==> (#[trigger] cmds@[q]).spec_name() != name@,
        },
{
    let n = cmds.len();
    let mut j: usize = 0;
    while j < n
        invariant
            n == cmds@.len(),
            j <= n,
            forall|q: int| 0 <= q < j ==> (#[trigger] cmds@[q]).spec_name() != name@,
        decreases n - j,
    {
        if str_eq(cmds[j].name.as_str(), name) {
            return Some(j);
        }
        j = j + 1;
    }
    None
}

/// Index of the first declared parameter with the given name.
fn find_arg_index(args: &Vec<Arg>, name: &str) -> (r: Option<usize>)
    ensures
        match r {
            Some(j) => j < args@.len() && args.deep_view()[j as int].name == name@ && forall|q: int|
                0 <= q < j ==> (#[trigger] args.deep_view()[q]).name != name@,
            None => forall|q: int|
                0 <= q < args@.len() ==> (#[trigger] args.deep_view()[q]).name != name@,
        },
{
    let n = args.len();
    let mut j: usize = 0;
    while j < n
        invariant
            n == args@.len(),
            n == args.deep_view().len(),
            j <= n,
            forall|q: int| 0 <= q < j ==> (#[trigger] args.deep_view()[q]).name != name@,
        decreases n - j,
    {
        proof {
            assert(args.deep_view()[j as int] == args@[j as int]@);
        }
        if str_eq(args[j].name().as_str(), name) {
            return Some(j);
        }
        j = j + 1;
    }
    None
}

/// Inserts `c` among the siblings `cmds`, replacing its first namesake.
pub(crate) fn upsert_cmd<H>(cmds: &mut Vec<Command<H>>, c: Command<H>)
    ensures
        final(cmds)@ == spec_upsert_cmd(old(cmds)@, c),
        forest_wf(old(cmds)@) && c.wf() ==> forest_wf(final(cmds)@),
{
    let ghost old_cmds = cmds@;
    let ghost c0 = c;
    match find_cmd_index(cmds, c.name.as_str()) {
        Some(found) => {
            proof {
                lemma_upsert_cmd_at(cmds@, c, found as int);
            }
            cmds.remove(found);
            cmds.insert(found, c);
            proof {
                assert(cmds@ =~= spec_upsert_cmd(old_cmds, c));
            }
        },
        None => {
            proof {
                lemma_upsert_cmd_push(cmds@, c);
            }
            cmds.push(c);
        },
    }
    proof {
        if forest_wf(old_cmds) && c0.wf() {
            lemma_upsert_cmd_wf(old_cmds, c0);
        }
    }
}

impl<H> Command<H> {
    /// Creates a command with the given non-empty name and handler; it
    /// starts as a leaf with no parameters.
    pub fn new(name: String, handler: H) -> (r: Self)
        requires
            name@.len() > 0,
        ensures
            r.spec_name() == name@,
            r.spec_help() is None,
            r.spec_handler() == handler,
            r.is_leaf(),
            r.spec_args() == Seq::<ArgView>::empty(),
            r.spec_children() == Seq::<Command<H>>::empty(),
            r.wf(),
    {
        let r = Command { name, help: None, handler, kind: CommandKind::Leaf(Vec::new()) };
        proof {
            assert(r.spec_args() =~= Seq::<ArgView>::empty());
            assert(r.wf());
        }
        r
    }

    /// Attaches a help text.
    pub fn with_help(&mut self, help: String)
        ensures
            final(self).spec_help() == Some(help@),
            final(self).spec_name() == old(self).spec_name(),
            final(self).spec_handler() == old(self).spec_handler(),
            final(self).spec_args() == old(self).spec_args(),
            final(self).spec_children() == old(self).spec_children(),
            final(self).is_leaf() == old(self).is_leaf(),
            final(self).wf() == old(self).wf(),
    {
        self.help = Some(help);
        proof {
            assert(self.kind == old(self).kind);
        }
    }

    /// The command's name.
    pub fn name(&self) -> (r: &String)
        ensures
            r@ == self.spec_name(),
    {
        &self.name
    }

    /// The names of the direct subcommands, in registration order.
    pub fn list_subcommands(&self) -> (r: Vec<&String>)
        ensures
            r@.len() == self.spec_children().len(),
            forall|k: int|
                0 <= k < r@.len() ==> (#[trigger] r@[k])@ == self.spec_children()[k].spec_name(),
            self.wf() ==> forall|i: int, j: int|
                0 <= i < j < r@.len() ==> (#[trigger] r@[i])@ != (#[trigger] r@[j])@,
    {
        let mut out: Vec<&String> = Vec::new();
        match &self.kind {
            CommandKind::Leaf(_) => out,
            CommandKind::Branch(children) => {
                let n = children.len();
                for j in 0..n
                    invariant
                        n == children@.len(),
                        children@ == self.spec_children(),
                        out@.len() == j,
                        forall|k: int|
                            0 <= k < j ==> (#[trigger] out@[k])@ == children@[k].spec_name(),
                {
                    out.push(children[j].name());
                }
                proof {
                    if self.wf() {
                        assert(sibling_names_distinct(children@));
                        assert forall|i: int, j: int|
                            0 <= i < j < out@.len() implies (#[trigger] out@[i])@ != (
                        #[trigger] out@[j])@ by {
                            assert(out@[i]@ == children@[i].spec_name());
                            assert(out@[j]@ == children@[j].spec_name());
                            assert(children@[i].spec_name() != children@[j].spec_name());
                        }
                    }
                }
                out
            },
        }
    }

    /// Registers `command` as a subcommand, replacing a namesake; rejected
    /// when this command already has a parameter, leaving it unchanged.
    pub fn with_subcommand(&mut self, command: Command<H>) -> (r: Result<(), RegistrationError>)
        ensures
            old(self).spec_args().len() > 0 ==> r == Err::<(), RegistrationError>(
                RegistrationError::IllegalSubcommandError,
            ) && *final(self) == *old(self),
            old(self).spec_args().len() == 0 ==> r == Ok::<(), RegistrationError>(())
                && final(self).spec_children() == spec_upsert_cmd(old(self).spec_children(), command)
                && !final(self).is_leaf() && final(self).spec_name() == old(self).spec_name()
                && final(self).spec_help() == old(self).spec_help() && final(self).spec_handler()
                == old(self).spec_handler() && final(self).spec_args() == Seq::<ArgView>::empty(),
            old(self).wf() && command.wf() ==> final(self).wf(),
    {
        let ghost cmd0 = command;
        let is_leaf_with_args = match &self.kind {
            CommandKind::Leaf(args) => args.len() > 0,
            CommandKind::Branch(_) => false,
        };
        if is_leaf_with_args {
            return Err(RegistrationError::IllegalSubcommandError);
        }
        let is_leaf = match &self.kind {
            CommandKind::Leaf(_) => true,
            CommandKind::Branch(_) => false,
        };
        if is_leaf {
            self.kind = CommandKind::Branch(Vec::new());
        }
        let r = match &mut self.kind {
            CommandKind::Branch(children) => {
                upsert_cmd(children, command);
                Ok(())
            },
            CommandKind::Leaf(_) => Err(RegistrationError::IllegalSubcommandError),  // unreachable: the kind was just made a branch
        };
        proof {
            if old(self).wf() && cmd0.wf() {
                assert(self.spec_children() == spec_upsert_cmd(
                    old(self).spec_children(),
                    cmd0,
                ));
                assert(forest_wf(old(self).spec_children()));
                lemma_upsert_cmd_wf(old(self).spec_children(), cmd0);
                assert(self.wf());
            }
        }
        r
    }

    /// Declares a parameter on this command, replacing a namesake;
    /// rejected when this command already has a subcommand, leaving it
    /// unchanged.
    pub fn with_arg(&mut self, name: String, standalone: bool) -> (r: Result<(), RegistrationError>)
        ensures
            old(self).spec_children().len() > 0 ==> r == Err::<(), RegistrationError>(
                RegistrationError::IllegalParameterError,
            ) && *final(self) == *old(self),
            old(self).spec_children().len() == 0 ==> r == Ok::<(), RegistrationError>(())
                && final(self).spec_args() == spec_upsert_arg(
                old(self).spec_args(),
                ArgView { name: name@, standalone },
            ) && final(self).is_leaf() && final(self).spec_name() == old(self).spec_name()
                && final(self).spec_help() == old(self).spec_help() && final(self).spec_handler()
                == old(self).spec_handler() && final(self).spec_children() == Seq::<
                Command<H>,
            >::empty(),
            old(self).wf() ==> final(self).wf(),
    {
        let is_branch_with_children = match &self.kind {
            CommandKind::Branch(children) => children.len() > 0,
            CommandKind::Leaf(_) => false,
        };
        if is_branch_with_children {
            return Err(RegistrationError::IllegalParameterError);
        }
        let is_branch = match &self.kind {
            CommandKind::Branch(_) => true,
            CommandKind::Leaf(_) => false,
        };
        if is_branch {
            self.kind = CommandKind::Leaf(Vec::new());
        }
        let arg = Arg::new(name, standalone);
        let r = match &mut self.kind {
            CommandKind::Leaf(args) => {
                let ghost old_args = args.deep_view();
                match find_arg_index(args, arg.name().as_str()) {
                    Some(found) => {
                        proof {
                            lemma_upsert_arg_at(args.deep_view(), arg@, found as int);
                        }
                        args.remove(found);
                        args.insert(found, arg);
                        proof {
                            assert(args.deep_view() =~= spec_upsert_arg(old_args, arg@));
                        }
                    },
                    None => {
                        proof {
                            lemma_upsert_arg_push(args.deep_view(), arg@);
                        }
                        args.push(arg);
                        proof {
                            assert(args.deep_view() =~= spec_upsert_arg(old_args, arg@));
                        }
                    },
                }
                Ok(())
            },
            CommandKind::Branch(_) => Err(RegistrationError::IllegalParameterError),  // unreachable: the kind was just made a leaf
        };
        proof {
            if old(self).wf() {
                assert(self.spec_args() == spec_upsert_arg(old(self).spec_args(), arg@));
                assert(arg_names_distinct(old(self).spec_args()));
                lemma_upsert_arg_distinct(old(self).spec_args(), arg@);
                assert(self.wf());
            }
        }
        r
    }

    /// The declared parameters when the node is a leaf.
    pub fn leaf_args(&self) -> (r: Option<&Vec<Arg>>)
        ensures
            match r {
                Some(a) => self.is_leaf() && a.deep_view() == self.spec_args(),
                None => !self.is_leaf() && self.spec_args() == Seq::<ArgView>::empty(),
            },
    {
        match &self.kind {
            CommandKind::Leaf(args) => Some(args),
            CommandKind::Branch(_) => None,
        }
    }

    /// The declared parameters; empty for a branch.
    pub fn args(&self) -> (r: &Vec<Arg>)
        requires
            self.is_leaf(),
        ensures
            r.deep_view() == self.spec_args(),
    {
        match &self.kind {
            CommandKind::Leaf(args) => args,
            CommandKind::Branch(_) => vstd::pervasive::unreached(),
        }
    }

    /// True when the node accepts parameters rather than subcommands.
    pub fn leaf(&self) -> (r: bool)
        ensures
            r == self.is_leaf(),
    {
        match &self.kind {
            CommandKind::Leaf(_) => true,
            CommandKind::Branch(_) => false,
        }
    }
}

impl<H: Handler> Command<H> {
    /// Runs the command's handler on the bound parameters and the
    /// application context; the result is the handler's own.
    pub fn run(&self, args: &Parameters, state: &mut H::Ctx) -> ReplResult<Option<String>> {
        self.handler.run(args, state)
    }
}

} // verus!
