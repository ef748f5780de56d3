//! Parameter binding: captures raw argument strings for a command's
//! declared parameters and converts them to typed values on access.
//! Conversion is deferred to the access call, so one captured value can be
//! read as different types without re-binding the line.
use vstd::prelude::*;

use crate::args::{Arg, ArgView};
use crate::error::{ReplError, ReplResult};
use crate::text::{parse_u64, spec_parse_u64, spec_tokens, str_eq, tokenize};

verus! {

/// A failed parameter binding or access.
#[derive(Debug, PartialEq, Eq, Clone, Copy)]
pub enum ParameterError {
    /// The number of argument tokens differs from the number of declared
    /// parameters, or a flag pair is missing, doubled or malformed.
    InvalidParameterCount,
    /// The requested or provided name matches no declared parameter.
    NoSuchParameter,
    /// The captured raw value does not denote the requested type.
    ParseError,
}

impl ParameterError {
    /// The error's text.
    pub open spec fn spec_message(&self) -> Seq<char> {
        match self {
            ParameterError::InvalidParameterCount => "Invalid parameter count"@,
            ParameterError::NoSuchParameter => "No such parameter"@,
            ParameterError::ParseError => "Parse error"@,
        }
    }

    /// The error's text.
    pub fn message(&self) -> (r: &'static str)
        ensures
            r@ == self.spec_message(),
    {
        match self {
            ParameterError::InvalidParameterCount => "Invalid parameter count",
            ParameterError::NoSuchParameter => "No such parameter",
            ParameterError::ParseError => "Parse error",
        }
    }
}

/// Typed conversion from a captured raw value; one implementation per
/// target type. The conversion runs when a parameter is accessed, not when
/// it is bound.
pub trait ConvertFrom<T: View<V = Seq<char>>>: View + Sized {
    /// The value the raw input denotes, when it denotes one.
    spec fn spec_convert(input: Seq<char>) -> Option<Self::V>;

    /// Converts `input`, failing exactly when it denotes no value.
    fn convert(input: T) -> (r: ReplResult<Self>)
        ensures
            match Self::spec_convert(input@) {
                Some(v) => r matches Ok(x) && x@ == v,
                None => r is Err,
            },
    ;
}

impl ConvertFrom<String> for String {
    /// String passthrough: every raw value denotes itself.
    open spec fn spec_convert(input: Seq<char>) -> Option<Seq<char>> {
        Some(input)
    }

    fn convert(input: String) -> (r: ReplResult<Self>) {
        Ok(input)
    }
}

impl ConvertFrom<String> for u64 {
    /// A decimal digit string whose value fits.
    open spec fn spec_convert(input: Seq<char>) -> Option<u64> {
        spec_parse_u64(input)
    }

    fn convert(input: String) -> (r: ReplResult<Self>) {
        match parse_u64(input.as_str()) {
            Some(v) => Ok(v),
            None => Err(ReplError::ArgError(ParameterError::ParseError)),
        }
    }
}

impl ConvertFrom<String> for u32 {
    /// A decimal digit string whose value fits.
    open spec fn spec_convert(input: Seq<char>) -> Option<u32> {
        match spec_parse_u64(input) {
            Some(v) => if v <= u32::MAX {
                Some(v as u32)
            } else {
                None
            },
            None => None,
        }
    }

    fn convert(input: String) -> (r: ReplResult<Self>) {
        match parse_u64(input.as_str()) {
            Some(v) => if v <= u32::MAX as u64 {
                Ok(v as u32)
            } else {
                Err(ReplError::ArgError(ParameterError::ParseError))
            },
            None => Err(ReplError::ArgError(ParameterError::ParseError)),
        }
    }
}

impl ConvertFrom<String> for u16 {
    /// A decimal digit string whose value fits.
    open spec fn spec_convert(input: Seq<char>) -> Option<u16> {
        match spec_parse_u64(input) {
            Some(v) => if v <= u16::MAX {
                Some(v as u16)
            } else {
                None
            },
            None => None,
        }
    }

    fn convert(input: String) -> (r: ReplResult<Self>) {
        match parse_u64(input.as_str()) {
            Some(v) => if v <= u16::MAX as u64 {
                Ok(v as u16)
            } else {
                Err(ReplError::ArgError(ParameterError::ParseError))
            },
            None => Err(ReplError::ArgError(ParameterError::ParseError)),
        }
    }
}

impl ConvertFrom<String> for u8 {
    /// A decimal digit string whose value fits.
    open spec fn spec_convert(input: Seq<char>) -> Option<u8> {
        match spec_parse_u64(input) {
            Some(v) => if v <= u8::MAX {
                Some(v as u8)
            } else {
                None
            },
            None => None,
        }
    }

    fn convert(input: String) -> (r: ReplResult<Self>) {
        match parse_u64(input.as_str()) {
            Some(v) => if v <= u8::MAX as u64 {
                Ok(v as u8)
            } else {
                Err(ReplError::ArgError(ParameterError::ParseError))
            },
            None => Err(ReplError::ArgError(ParameterError::ParseError)),
        }
    }
}

/// An IPv4 address, held as its four dotted-quad octets.
#[derive(Debug, PartialEq, Eq, Clone, Copy)]
pub struct Ipv4 {
    pub a: u8,
    pub b: u8,
    pub c: u8,
    pub d: u8,
}

impl View for Ipv4 {
    type V = Ipv4;

    open spec fn view(&self) -> Ipv4 {
        *self
    }
}

impl Ipv4 {
    /// An address from its four octets.
    pub fn new(a: u8, b: u8, c: u8, d: u8) -> (r: Self)
        ensures
            r == (Ipv4 { a, b, c, d }),
    {
        Ipv4 { a, b, c, d }
    }
}

/// The pieces of `s` still to be produced when a scan stands at `i` with
/// the current piece begun at `start`; pieces are separated by dots and
/// empty pieces are kept.
pub open spec fn spec_split_dots_at(s: Seq<char>, i: int, start: int) -> Seq<Seq<char>>
    decreases s.len() - i,
{
    if i < 0 || i >= s.len() {
        seq![s.subrange(start, s.len() as int)]
    } else if s[i] == '.' {
        seq![s.subrange(start, i)] + spec_split_dots_at(s, i + 1, i + 1)
    } else {
        spec_split_dots_at(s, i + 1, start)
    }
}

/// The pieces of `s` split at every dot; empty pieces are kept, and a
/// string without dots is one piece.
pub open spec fn spec_split_dots(s: Seq<char>) -> Seq<Seq<char>> {
    spec_split_dots_at(s, 0, 0)
}

/// The octet denoted by one dotted-quad piece: a decimal digit string
/// whose value is at most 255.
pub open spec fn spec_octet(p: Seq<char>) -> Option<u8> {
    match spec_parse_u64(p) {
        Some(v) => if v <= 255 {
            Some(v as u8)
        } else {
            None
        },
        None => None,
    }
}

/// The address denoted by `s`: exactly four dot-separated octets.
pub open spec fn spec_parse_ipv4(s: Seq<char>) -> Option<Ipv4> {
    let ps = spec_split_dots(s);
    if ps.len() == 4 && spec_octet(ps[0]) is Some && spec_octet(ps[1]) is Some && spec_octet(
        ps[2],
    ) is Some && spec_octet(ps[3]) is Some {
        Some(
            Ipv4 {
                a: spec_octet(ps[0]).unwrap(),
                b: spec_octet(ps[1]).unwrap(),
                c: spec_octet(ps[2]).unwrap(),
                d: spec_octet(ps[3]).unwrap(),
            },
        )
    } else {
        None
    }
}

/// Splits `s` at every dot.
fn split_dots(s: &str) -> (r: Vec<String>)
    ensures
        r.deep_view() == spec_split_dots(s@),
{
    let n = s.unicode_len();
    let mut out: Vec<String> = Vec::new();
    let mut start: usize = 0;
    let mut i: usize = 0;
    proof {
        assert(out.deep_view() =~= Seq::<Seq<char>>::empty());
        assert(out.deep_view() + spec_split_dots_at(s@, 0, 0) =~= spec_split_dots(s@));
    }
    while i < n
        invariant
            n == s@.len(),
            start <= i <= n,
            spec_split_dots(s@) == out.deep_view() + spec_split_dots_at(s@, i as int, start as int),
        decreases n - i,
    {
        let c = s.get_char(i);
        if c == '.' {
            let piece = s.substring_char(start, i).to_owned();
            let ghost old_dv = out.deep_view();
            let ghost pv = s@.subrange(start as int, i as int);
            out.push(piece);
            proof {
                assert(out.deep_view() =~= old_dv + seq![pv]);
                assert(old_dv + (seq![pv] + spec_split_dots_at(s@, i + 1, i + 1)) =~= (old_dv
                    + seq![pv]) + spec_split_dots_at(s@, i + 1, i + 1));
            }
            i = i + 1;
            start = i;
        } else {
            i = i + 1;
        }
    }
    let piece = s.substring_char(start, n).to_owned();
    let ghost old_dv = out.deep_view();
    let ghost pv = s@.subrange(start as int, n as int);
    out.push(piece);
    proof {
        assert(out.deep_view() =~= old_dv + seq![pv]);
        assert(out.deep_view() =~= spec_split_dots(s@));
    }
    out
}

/// Parses one dotted-quad octet.
fn parse_octet(p: &String) -> (r: Option<u8>)
    ensures
        r == spec_octet(p@),
{
    match parse_u64(p.as_str()) {
        Some(v) => if v <= 255 {
            Some(v as u8)
        } else {
            None
        },
        None => None,
    }
}

impl ConvertFrom<String> for Ipv4 {
    /// A dotted quad of exactly four octets, each at most 255.
    open spec fn spec_convert(input: Seq<char>) -> Option<Ipv4> {
        spec_parse_ipv4(input)
    }

    fn convert(input: String) -> (r: ReplResult<Self>) {
        let ps = split_dots(input.as_str());
        if ps.len() != 4 {
            return Err(ReplError::ArgError(ParameterError::ParseError));
        }
        proof {
            assert(ps.deep_view()[0] == ps@[0]@);
            assert(ps.deep_view()[1] == ps@[1]@);
            assert(ps.deep_view()[2] == ps@[2]@);
            assert(ps.deep_view()[3] == ps@[3]@);
        }
        let a = parse_octet(&ps[0]);
        let b = parse_octet(&ps[1]);
        let c = parse_octet(&ps[2]);
        let d = parse_octet(&ps[3]);
        match (a, b, c, d) {
            (Some(a), Some(b), Some(c), Some(d)) => Ok(Ipv4 { a, b, c, d }),
            _ => Err(ReplError::ArgError(ParameterError::ParseError)),
        }
    }
}

/// A positional parameter declaration: just a name.
#[derive(Debug, Clone)]
pub struct Parameter {
    name: String,
}

impl View for Parameter {
    type V = Seq<char>;

    closed spec fn view(&self) -> Seq<char> {
        self.name@
    }
}

impl DeepView for Parameter {
    type V = Seq<char>;

    open spec fn deep_view(&self) -> Seq<char> {
        self.view()
    }
}

impl Parameter {
    /// Declares a positional parameter.
    pub fn new(name: String) -> (r: Self)
        ensures
            r@ == name@,
    {
        Parameter { name }
    }
}

/// The map held by a name/value pair list; an earlier pair wins over a
/// later one with the same name.
pub open spec fn pairs_to_map(s: Seq<(Seq<char>, Seq<char>)>) -> Map<Seq<char>, Seq<char>>
    decreases s.len(),
{
    if s.len() == 0 {
        Map::empty()
    } else {
        pairs_to_map(s.drop_first()).insert(s[0].0, s[0].1)
    }
}

/// The binding of declared names to values in declaration order; an
/// earlier declaration wins over a later duplicate.
pub open spec fn spec_positional(names: Seq<Seq<char>>, vals: Seq<Seq<char>>) -> Map<
    Seq<char>,
    Seq<char>,
>
    recommends
        names.len() == vals.len(),
    decreases names.len(),
{
    if names.len() == 0 {
        Map::empty()
    } else {
        spec_positional(names.drop_first(), vals.drop_first()).insert(names[0], vals[0])
    }
}

/// First-match lookup in a pair list.
spec fn spec_lookup(pairs: Seq<(Seq<char>, Seq<char>)>, name: Seq<char>) -> Option<Seq<char>>
    decreases pairs.len(),
{
    if pairs.len() == 0 {
        None
    } else if pairs[0].0 == name {
        Some(pairs[0].1)
    } else {
        spec_lookup(pairs.drop_first(), name)
    }
}

/// First-match lookup agrees with the pair list's map.
proof fn lemma_lookup_map(pairs: Seq<(Seq<char>, Seq<char>)>, name: Seq<char>)
    ensures
        match spec_lookup(pairs, name) {
            None => !pairs_to_map(pairs).contains_key(name),
            Some(v) => pairs_to_map(pairs).contains_key(name) && pairs_to_map(pairs)[name] == v,
        },
    decreases pairs.len(),
{
    if pairs.len() > 0 {
        lemma_lookup_map(pairs.drop_first(), name);
    }
}

/// Equal pair lists, given as a list and as separate name and value
/// columns, hold the same map.
proof fn lemma_zip_map(
    pairs: Seq<(Seq<char>, Seq<char>)>,
    names: Seq<Seq<char>>,
    vals: Seq<Seq<char>>,
)
    requires
        pairs.len() == names.len(),
        pairs.len() == vals.len(),
        forall|k: int|
            0 <= k < pairs.len() ==> (#[trigger] pairs[k]).0 == names[k] && pairs[k].1 == vals[k],
    ensures
        pairs_to_map(pairs) == spec_positional(names, vals),
    decreases pairs.len(),
{
    if pairs.len() > 0 {
        lemma_zip_map(pairs.drop_first(), names.drop_first(), vals.drop_first());
    }
}

/// A `--name` or `--name=value` token.
pub open spec fn is_flag_token(t: Seq<char>) -> bool {
    t.len() >= 2 && t[0] == '-' && t[1] == '-'
}

/// Index of the first `=` in `t` at or after `i`; the length of `t` when
/// there is none.
pub open spec fn first_eq_at(t: Seq<char>, i: int) -> int
    decreases t.len() - i,
{
    if i < 0 || i >= t.len() {
        t.len() as int
    } else if t[i] == '=' {
        i
    } else {
        first_eq_at(t, i + 1)
    }
}

/// The name of flag token `t`, and its inline value when `t` is written
/// `--name=value`.
pub open spec fn spec_flag_parts(t: Seq<char>) -> (Seq<char>, Option<Seq<char>>) {
    let e = first_eq_at(t, 2);
    if e == t.len() {
        (t.subrange(2, t.len() as int), None)
    } else {
        (t.subrange(2, e), Some(t.subrange(e + 1, t.len() as int)))
    }
}

/// First declared parameter with the given name.
pub open spec fn spec_find_arg(args: Seq<ArgView>, name: Seq<char>) -> Option<ArgView>
    decreases args.len(),
{
    if args.len() == 0 {
        None
    } else if args[0].name == name {
        Some(args[0])
    } else {
        spec_find_arg(args.drop_first(), name)
    }
}

/// Scans flag tokens into a binding map: `--name value` or `--name=value`
/// for a value parameter, a bare `--name` for a standalone one (captured
/// as the empty string). An unknown name fails with `NoSuchParameter`; a
/// stray token, a missing or empty value, a value handed to a standalone
/// flag and a doubled name fail with `InvalidParameterCount`.
pub open spec fn spec_bind_flags(tokens: Seq<Seq<char>>, args: Seq<ArgView>) -> Result<
    Map<Seq<char>, Seq<char>>,
    ParameterError,
>
    decreases tokens.len(),
{
    if tokens.len() == 0 {
        Ok(Map::empty())
    } else {
        let t = tokens[0];
        if !is_flag_token(t) {
            Err(ParameterError::InvalidParameterCount)
        } else {
            let nm = spec_flag_parts(t).0;
            let vopt = spec_flag_parts(t).1;
            match spec_find_arg(args, nm) {
                None => Err(ParameterError::NoSuchParameter),
                Some(a) => if a.standalone {
                    if vopt is Some {
                        Err(ParameterError::InvalidParameterCount)
                    } else {
                        match spec_bind_flags(tokens.drop_first(), args) {
                            Err(e) => Err(e),
                            Ok(m) => if m.contains_key(nm) {
                                Err(ParameterError::InvalidParameterCount)
                            } else {
                                Ok(m.insert(nm, Seq::empty()))
                            },
                        }
                    }
                } else {
                    match vopt {
                        Some(v) => if v.len() == 0 {
                            Err(ParameterError::InvalidParameterCount)
                        } else {
                            match spec_bind_flags(tokens.drop_first(), args) {
                                Err(e) => Err(e),
                                Ok(m) => if m.contains_key(nm) {
                                    Err(ParameterError::InvalidParameterCount)
                                } else {
                                    Ok(m.insert(nm, v))
                                },
                            }
                        },
                        None => if tokens.len() < 2 || is_flag_token(tokens[1]) {
                            Err(ParameterError::InvalidParameterCount)
                        } else {
                            match spec_bind_flags(tokens.skip(2), args) {
                                Err(e) => Err(e),
                                Ok(m) => if m.contains_key(nm) {
                                    Err(ParameterError::InvalidParameterCount)
                                } else {
                                    Ok(m.insert(nm, tokens[1]))
                                },
                            }
                        },
                    }
                },
            }
        }
    }
}

/// Every declared value parameter is bound.
pub open spec fn spec_all_required_bound(m: Map<Seq<char>, Seq<char>>, args: Seq<ArgView>) -> bool {
    forall|k: int|
        0 <= k < args.len() && !(#[trigger] args[k]).standalone ==> m.contains_key(args[k].name)
}

/// The flag-style binding of `tokens` against the declared `args`: the
/// scanned pairs, provided every declared value parameter got exactly one.
pub open spec fn spec_flag_binding(tokens: Seq<Seq<char>>, args: Seq<ArgView>) -> Result<
    Map<Seq<char>, Seq<char>>,
    ParameterError,
> {
    match spec_bind_flags(tokens, args) {
        Err(e) => Err(e),
        Ok(m) => if spec_all_required_bound(m, args) {
            Ok(m)
        } else {
            Err(ParameterError::InvalidParameterCount)
        },
    }
}

/// Splits a flag token into its name and optional inline value; yields
/// `None` exactly when the token does not start with `--`.
fn flag_parts(t: &String) -> (r: Option<(String, Option<String>)>)
    ensures
        r is None <==> !is_flag_token(t@),
        is_flag_token(t@) ==> (r matches Some(p) && p.0@ == spec_flag_parts(t@).0 && match spec_flag_parts(
            t@,
        ).1 {
            Some(v) => p.1 matches Some(pv) && pv@ == v,
            None => p.1 is None,
        }),
{
    let n = t.as_str().unicode_len();
    if n < 2 {
        return None;
    }
    if t.as_str().get_char(0) != '-' || t.as_str().get_char(1) != '-' {
        return None;
    }
    let mut e: usize = 2;
    while e < n && t.as_str().get_char(e) != '='
        invariant
            n == t@.len(),
            2 <= e <= n,
            first_eq_at(t@, 2) == first_eq_at(t@, e as int),
        decreases n - e,
    {
        e = e + 1;
    }
    if e == n {
        Some((t.as_str().substring_char(2, n).to_owned(), None))
    } else {
        let nm = t.as_str().substring_char(2, e).to_owned();
        let v = t.as_str().substring_char(e + 1, n).to_owned();
        Some((nm, Some(v)))
    }
}

/// Looks `name` up among the declared parameters.
fn find_arg<'a>(args: &'a Vec<Arg>, name: &str) -> (r: Option<&'a Arg>)
    ensures
        match spec_find_arg(args.deep_view(), name@) {
            None => r is None,
            Some(a) => r matches Some(f) && f@ == a,
        },
{
    let n = args.len();
    let mut j: usize = 0;
    proof {
        assert(args.deep_view().skip(0) =~= args.deep_view());
    }
    while j < n
        invariant
            n == args.deep_view().len(),
            j <= n,
            spec_find_arg(args.deep_view(), name@) == spec_find_arg(
                args.deep_view().skip(j as int),
                name@,
            ),
        decreases n - j,
    {
        proof {
            assert(args.deep_view().skip(j as int).drop_first() =~= args.deep_view().skip(j + 1));
            assert(args.deep_view().skip(j as int)[0] == args.deep_view()[j as int]);
        }
        if str_eq(args[j].name().as_str(), name) {
            return Some(&args[j]);
        }
        j = j + 1;
    }
    proof {
        assert(args.deep_view().skip(n as int) =~= Seq::<ArgView>::empty());
    }
    None
}

/// True when the pair list binds `name`.
fn pairs_contains(pairs: &Vec<(String, String)>, name: &str) -> (r: bool)
    ensures
        r == pairs_to_map(pairs.deep_view()).contains_key(name@),
{
    proof {
        lemma_lookup_map(pairs.deep_view(), name@);
    }
    let n = pairs.len();
    let mut j: usize = 0;
    proof {
        assert(pairs.deep_view().skip(0) =~= pairs.deep_view());
    }
    while j < n
        invariant
            n == pairs.deep_view().len(),
            j <= n,
            spec_lookup(pairs.deep_view(), name@) == spec_lookup(
                pairs.deep_view().skip(j as int),
                name@,
            ),
        decreases n - j,
    {
        proof {
            assert(pairs.deep_view().skip(j as int).drop_first() =~= pairs.deep_view().skip(j + 1));
            assert(pairs.deep_view().skip(j as int)[0] == pairs.deep_view()[j as int]);
        }
        if str_eq(pairs[j].0.as_str(), name) {
            proof {
                lemma_lookup_map(pairs.deep_view(), name@);
            }
            return true;
        }
        j = j + 1;
    }
    proof {
        assert(pairs.deep_view().skip(n as int) =~= Seq::<(Seq<char>, Seq<char>)>::empty());
        lemma_lookup_map(pairs.deep_view(), name@);
    }
    false
}

/// Scans the flag tokens from `i` on, mirroring `spec_bind_flags`.
fn bind_flags_rec(tokens: &Vec<String>, i: usize, args: &Vec<Arg>) -> (r: Result<
    Vec<(String, String)>,
    ParameterError,
>)
    requires
        i <= tokens@.len(),
    ensures
        match spec_bind_flags(tokens.deep_view().skip(i as int), args.deep_view()) {
            Err(e) => r == Err::<Vec<(String, String)>, ParameterError>(e),
            Ok(m) => r matches Ok(pairs) && pairs_to_map(pairs.deep_view()) == m,
        },
    decreases tokens@.len() - i,
{
    let ghost toks = tokens.deep_view().skip(i as int);
    if i == tokens.len() {
        proof {
            assert(toks =~= Seq::<Seq<char>>::empty());
        }
        return Ok(Vec::new());
    }
    proof {
        assert(toks[0] == tokens.deep_view()[i as int]);
        assert(toks.drop_first() =~= tokens.deep_view().skip(i + 1));
    }
    let t = &tokens[i];
    match flag_parts(t) {
        None => Err(ParameterError::InvalidParameterCount),
        Some(parts) => {
            let (nm, vopt) = parts;
            match find_arg(args, nm.as_str()) {
                None => Err(ParameterError::NoSuchParameter),
                Some(a) => {
                    if a.is_standalone() {
                        match vopt {
                            Some(_) => Err(ParameterError::InvalidParameterCount),
                            None => match bind_flags_rec(tokens, i + 1, args) {
                                Err(e) => Err(e),
                                Ok(rest) => {
                                    if pairs_contains(&rest, nm.as_str()) {
                                        Err(ParameterError::InvalidParameterCount)
                                    } else {
                                        let mut out = rest;
                                        let ghost old_dv = out.deep_view();
                                        out.insert(0, (nm, String::new()));
                                        proof {
                                            assert(out.deep_view() =~= seq![
                                                (spec_flag_parts(toks[0]).0, Seq::<char>::empty()),
                                            ] + old_dv);
                                            assert(out.deep_view().drop_first() =~= old_dv);
                                        }
                                        Ok(out)
                                    }
                                },
                            },
                        }
                    } else {
                        match vopt {
                            Some(v) => {
                                if v.as_str().is_empty() {
                                    return Err(ParameterError::InvalidParameterCount);
                                }
                                match bind_flags_rec(tokens, i + 1, args) {
                                    Err(e) => Err(e),
                                    Ok(rest) => {
                                        if pairs_contains(&rest, nm.as_str()) {
                                            Err(ParameterError::InvalidParameterCount)
                                        } else {
                                            let mut out = rest;
                                            let ghost old_dv = out.deep_view();
                                            let ghost vv = v@;
                                            out.insert(0, (nm, v));
                                            proof {
                                                assert(out.deep_view() =~= seq![
                                                    (spec_flag_parts(toks[0]).0, vv),
                                                ] + old_dv);
                                                assert(out.deep_view().drop_first() =~= old_dv);
                                            }
                                            Ok(out)
                                        }
                                    },
                                }
                            },
                            None => {
                                if i + 1 == tokens.len() {
                                    return Err(ParameterError::InvalidParameterCount);
                                }
                                let next = &tokens[i + 1];
                                proof {
                                    assert(toks[1] == tokens.deep_view()[i + 1]);
                                }
                                if flag_parts(next).is_some() {
                                    return Err(ParameterError::InvalidParameterCount);
                                }
                                proof {
                                    assert(toks.skip(2) =~= tokens.deep_view().skip(i + 2));
                                }
                                match bind_flags_rec(tokens, i + 2, args) {
                                    Err(e) => Err(e),
                                    Ok(rest) => {
                                        if pairs_contains(&rest, nm.as_str()) {
                                            Err(ParameterError::InvalidParameterCount)
                                        } else {
                                            let mut out = rest;
                                            let ghost old_dv = out.deep_view();
                                            out.insert(0, (nm, next.clone()));
                                            proof {
                                                assert(out.deep_view() =~= seq![
                                                    (spec_flag_parts(toks[0]).0, toks[1]),
                                                ] + old_dv);
                                                assert(out.deep_view().drop_first() =~= old_dv);
                                            }
                                            Ok(out)
                                        }
                                    },
                                }
                            },
                        }
                    }
                },
            }
        },
    }
}

/// The names of the declared parameters, in declaration order.
pub open spec fn spec_arg_names(args: Seq<ArgView>) -> Seq<Seq<char>> {
    args.map_values(|a: ArgView| a.name)
}

/// True when `t` starts with `--`.
pub(crate) fn is_flag(t: &String) -> (r: bool)
    ensures
        r == is_flag_token(t@),
{
    let n = t.as_str().unicode_len();
    n >= 2 && t.as_str().get_char(0) == '-' && t.as_str().get_char(1) == '-'
}

/// The raw values captured for one dispatch, keyed by parameter name.
#[derive(Debug)]
pub struct Parameters {
    pairs: Vec<(String, String)>,
}

impl View for Parameters {
    type V = Map<Seq<char>, Seq<char>>;

    closed spec fn view(&self) -> Map<Seq<char>, Seq<char>> {
        pairs_to_map(self.pairs.deep_view())
    }
}

impl Default for Parameters {
    /// A binding that holds no parameters at all.
    fn default() -> (r: Self)
        ensures
            r@ == Map::<Seq<char>, Seq<char>>::empty(),
    {
        Parameters { pairs: Vec::new() }
    }
}

impl Parameters {
    /// Binds the tokens of `input` to `params` by position. The token
    /// count must equal the parameter count exactly.
    pub fn new(input: &str, params: &Vec<Parameter>) -> (r: Result<Self, ParameterError>)
        ensures
            spec_tokens(input@).len() != params.deep_view().len() ==> r == Err::<
                Parameters,
                ParameterError,
            >(ParameterError::InvalidParameterCount),
            spec_tokens(input@).len() == params.deep_view().len() ==> (r matches Ok(p) && p@
                == spec_positional(params.deep_view(), spec_tokens(input@))),
    {
        let tokens = tokenize(input);
        let n = params.len();
        if tokens.len() != n {
            return Err(ParameterError::InvalidParameterCount);
        }
        let mut pairs: Vec<(String, String)> = Vec::new();
        for i in 0..n
            invariant
                n == params.deep_view().len(),
                n == tokens.deep_view().len(),
                tokens.deep_view() == spec_tokens(input@),
                pairs.deep_view().len() == i,
                forall|k: int|
                    0 <= k < i ==> (#[trigger] pairs.deep_view()[k]).0 == params.deep_view()[k]
                        && pairs.deep_view()[k].1 == tokens.deep_view()[k],
        {
            let ghost old_dv = pairs.deep_view();
            pairs.push((params[i].name.clone(), tokens[i].clone()));
            proof {
                assert(pairs.deep_view() =~= old_dv.push(
                    (params.deep_view()[i as int], tokens.deep_view()[i as int]),
                ));
            }
        }
        proof {
            lemma_zip_map(pairs.deep_view(), params.deep_view(), tokens.deep_view());
        }
        Ok(Parameters { pairs })
    }

    /// Binds the tokens of `input` to the declared `args` flag-style: each
    /// value parameter as `--name value` or `--name=value` exactly once,
    /// with a nonempty value, each standalone parameter by the presence of
    /// its bare flag, captured as the empty string. Unknown names and
    /// stray tokens are rejected.
    pub fn from_flags(input: &str, args: &Vec<Arg>) -> (r: Result<Self, ParameterError>)
        ensures
            match spec_flag_binding(spec_tokens(input@), args.deep_view()) {
                Err(e) => r == Err::<Parameters, ParameterError>(e),
                Ok(m) => r matches Ok(p) && p@ == m,
            },
    {
        let tokens = tokenize(input);
        Self::bind_flags_tokens(&tokens, args)
    }

    /// Binds already-tokenized flag arguments; see [`Parameters::from_flags`].
    pub(crate) fn bind_flags_tokens(tokens: &Vec<String>, args: &Vec<Arg>) -> (r: Result<
        Self,
        ParameterError,
    >)
        ensures
            match spec_flag_binding(tokens.deep_view(), args.deep_view()) {
                Err(e) => r == Err::<Parameters, ParameterError>(e),
                Ok(m) => r matches Ok(p) && p@ == m,
            },
    {
        proof {
            assert(tokens.deep_view().skip(0) =~= tokens.deep_view());
        }
        match bind_flags_rec(&tokens, 0, args) {
            Err(e) => Err(e),
            Ok(pairs) => {
                let n = args.len();
                let mut k: usize = 0;
                while k < n
                    invariant
                        n == args.deep_view().len(),
                        k <= n,
                        spec_bind_flags(tokens.deep_view(), args.deep_view()) matches Ok(m)
                            && pairs_to_map(pairs.deep_view()) == m,
                        forall|q: int|
                            0 <= q < k && !(#[trigger] args.deep_view()[q]).standalone
                                ==> pairs_to_map(pairs.deep_view()).contains_key(
                                args.deep_view()[q].name,
                            ),
                    decreases n - k,
                {
                    proof {
                        assert(args.deep_view()[k as int] == args@[k as int]@);
                    }
                    if !args[k].is_standalone() && !pairs_contains(
                        &pairs,
                        args[k].name().as_str(),
                    ) {
                        proof {
                            let m = pairs_to_map(pairs.deep_view());
                            assert(!args.deep_view()[k as int].standalone && !m.contains_key(
                                args.deep_view()[k as int].name,
                            ));
                            assert(!spec_all_required_bound(m, args.deep_view()));
                        }
                        return Err(ParameterError::InvalidParameterCount);
                    }
                    k = k + 1;
                }
                Ok(Parameters { pairs })
            },
        }
    }

    /// Binds already-tokenized arguments to the declared `args` by
    /// position; the token count must equal the parameter count exactly.
    pub(crate) fn bind_positional_tokens(tokens: &Vec<String>, args: &Vec<Arg>) -> (r: Result<
        Self,
        ParameterError,
    >)
        ensures
            tokens.deep_view().len() != args.deep_view().len() ==> r == Err::<
                Parameters,
                ParameterError,
            >(ParameterError::InvalidParameterCount),
            tokens.deep_view().len() == args.deep_view().len() ==> (r matches Ok(p) && p@
                == spec_positional(spec_arg_names(args.deep_view()), tokens.deep_view())),
    {
        let n = args.len();
        if tokens.len() != n {
            return Err(ParameterError::InvalidParameterCount);
        }
        let mut pairs: Vec<(String, String)> = Vec::new();
        for i in 0..n
            invariant
                n == args.deep_view().len(),
                n == tokens.deep_view().len(),
                pairs.deep_view().len() == i,
                forall|k: int|
                    0 <= k < i ==> (#[trigger] pairs.deep_view()[k]).0 == args.deep_view()[k].name
                        && pairs.deep_view()[k].1 == tokens.deep_view()[k],
        {
            let ghost old_dv = pairs.deep_view();
            proof {
                assert(args.deep_view()[i as int] == args@[i as int]@);
            }
            pairs.push((args[i].name().clone(), tokens[i].clone()));
            proof {
                assert(pairs.deep_view() =~= old_dv.push(
                    (args.deep_view()[i as int].name, tokens.deep_view()[i as int]),
                ));
            }
        }
        proof {
            assert(forall|k: int|
                0 <= k < n ==> (#[trigger] spec_arg_names(args.deep_view())[k]) == args.deep_view()[k].name);
            lemma_zip_map(pairs.deep_view(), spec_arg_names(args.deep_view()), tokens.deep_view());
        }
        Ok(Parameters { pairs })
    }

    /// Looks the parameter up by name and converts its captured raw value
    /// to `T`, failing with `NoSuchParameter` on an undeclared name and
    /// with `ParseError` on a value that does not denote a `T`.
    pub fn get<T: ConvertFrom<String>>(&self, name: &str) -> (r: Result<T, ParameterError>)
        ensures
            !self@.contains_key(name@) ==> r == Err::<T, ParameterError>(
                ParameterError::NoSuchParameter,
            ),
            self@.contains_key(name@) ==> match T::spec_convert(self@[name@]) {
                Some(v) => r matches Ok(x) && x@ == v,
                None => r == Err::<T, ParameterError>(ParameterError::ParseError),
            },
    {
        proof {
            lemma_lookup_map(self.pairs.deep_view(), name@);
        }
        let n = self.pairs.len();
        let mut j: usize = 0;
        proof {
            assert(self.pairs.deep_view().skip(0) =~= self.pairs.deep_view());
        }
        while j < n
            invariant
                n == self.pairs.deep_view().len(),
                j <= n,
                spec_lookup(self.pairs.deep_view(), name@) == spec_lookup(
                    self.pairs.deep_view().skip(j as int),
                    name@,
                ),
            decreases n - j,
        {
            proof {
                assert(self.pairs.deep_view().skip(j as int).drop_first() =~= self.pairs.deep_view(
                ).skip(j + 1));
            }
            if str_eq(self.pairs[j].0.as_str(), name) {
                let raw = self.pairs[j].1.clone();
                proof {
                    let dv = self.pairs.deep_view();
                    lemma_lookup_map(dv, name@);
                    assert(dv.skip(j as int)[0] == dv[j as int]);
                    assert(dv[j as int].0 == name@);
                    assert(spec_lookup(dv.skip(j as int), name@) == Some(dv[j as int].1));
                    assert(dv[j as int].1 == self.pairs@[j as int].1@);
                    assert(raw@ == self.pairs@[j as int].1@);
                    assert(self@.contains_key(name@) && self@[name@] == raw@);
                }
                return match T::convert(raw) {
                    Ok(v) => Ok(v),
                    Err(_) => Err(ParameterError::ParseError),
                };
            }
            j = j + 1;
        }
        proof {
            assert(self.pairs.deep_view().skip(n as int) =~= Seq::<(Seq<char>, Seq<char>)>::empty());
        }
        Err(ParameterError::NoSuchParameter)
    }
}

} // verus!
