//! Parsing of formula strings into formula trees.

use vstd::prelude::*;
use crate::types::{
    Value, ValueV, Formula, FormulaV, vview, fview, fview_seq,
};

use crate::number::{Num, parse_num_chars, sp_parse_num, str_chars, push_char};
use crate::types::{Error, Boolean, Operator, Function, Expression};
use crate::number::sp_fold_u;

verus! {

/// The expression grammar, stated as a specification: each parsing
/// function of the implementation agrees with the spec function of the
/// same shape whenever no custom-function table is supplied.  With a
/// table a host call decides part of the tree, so the result cannot be a
/// function of the text alone; the parse then still succeeds, fails and
/// consumes input exactly as the no-table spec does, and the tree equals
/// the no-table one except at host-call positions (`sp_host_variant`).
/// Levels, loosest first: concatenation;
/// equality; ordering; additive; multiplicative; power; then unary items.
pub open spec fn sp_parse_level(s: Seq<char>, i: int, lvl: int, fuel: nat) -> Option<
    (FormulaV, int),
>
    decreases fuel,
{
    if fuel == 0 {
        None
    } else if lvl >= 6 {
        sp_parse_unary(s, i, (fuel - 1) as nat)
    } else {
        match sp_parse_level(s, i, lvl + 1, (fuel - 1) as nat) {
            None => None,
            Some(fp) => {
                if lvl == 5 {
                    let j = sp_skip_ws(s, fp.1);
                    match sp_op_at(s, j, lvl) {
                        Some(oq) => {
                            let k = sp_skip_ws(s, oq.1);
                            match sp_parse_level(s, k, lvl, (fuel - 1) as nat) {
                                Some(rp) => Some(
                                    (FormulaV::Operation(oq.0, seq![fp.0, rp.0]), rp.1),
                                ),
                                None => None,
                            }
                        },
                        None => Some(fp),
                    }
                } else {
                    sp_parse_level_tail(s, fp.1, lvl, fp.0, (fuel - 1) as nat)
                }
            },
        }
    }
}

/// The left-associative tail at one level.
pub open spec fn sp_parse_level_tail(
    s: Seq<char>,
    i: int,
    lvl: int,
    lhs: FormulaV,
    fuel: nat,
) -> Option<(FormulaV, int)>
    decreases fuel,
{
    if fuel == 0 {
        None
    } else {
        let j = sp_skip_ws(s, i);
        match sp_op_at(s, j, lvl) {
            None => Some((lhs, i)),
            Some(oq) => {
                let k = sp_skip_ws(s, oq.1);
                match sp_parse_level(s, k, lvl + 1, (fuel - 1) as nat) {
                    Some(rp) => sp_parse_level_tail(
                        s,
                        rp.1,
                        lvl,
                        FormulaV::Operation(oq.0, seq![lhs, rp.0]),
                        (fuel - 1) as nat,
                    ),
                    None => None,
                }
            },
        }
    }
}

/// A unary item: minus signs, then a primary.
pub open spec fn sp_parse_unary(s: Seq<char>, i: int, fuel: nat) -> Option<(FormulaV, int)>
    decreases fuel,
{
    if fuel == 0 {
        None
    } else {
        let j = sp_skip_ws(s, i);
        if 0 <= j < s.len() && s[j] == '-' {
            match sp_parse_unary(s, j + 1, (fuel - 1) as nat) {
                Some(p) => Some(
                    (
                        FormulaV::Operation(
                            Operator::Function(Function::Negate),
                            seq![p.0],
                        ),
                        p.1,
                    ),
                ),
                None => None,
            }
        } else {
            sp_parse_primary(s, j, (fuel - 1) as nat)
        }
    }
}

/// A primary: a literal, a parenthesized expression, an array literal, a
/// function call, a boolean word, or a reference.
pub open spec fn sp_parse_primary(s: Seq<char>, i: int, fuel: nat) -> Option<(FormulaV, int)>
    decreases fuel,
{
    if fuel == 0 {
        None
    } else if i < 0 || i >= s.len() {
        None
    } else {
        let c = s[i];
        if sp_is_digit(c) {
            sp_number_lit(s, i)
        } else if c == '"' {
            sp_dq_string(s, i)
        } else if c == '\u{27}' {
            sp_sq_string(s, i)
        } else if c == '(' {
            match sp_parse_level(s, sp_skip_ws(s, i + 1), 0, (fuel - 1) as nat) {
                Some(fp) => {
                    let q = sp_skip_ws(s, fp.1);
                    if 0 <= q < s.len() && s[q] == ')' {
                        Some((fp.0, q + 1))
                    } else {
                        None
                    }
                },
                None => None,
            }
        } else if c == '{' {
            sp_parse_array(s, i + 1, (fuel - 1) as nat)
        } else if sp_is_name_start(c) {
            let j = sp_name_end(s, i + 1);
            let q = sp_skip_ws(s, j);
            if 0 <= q < s.len() && s[q] == '(' {
                match sp_builtin_of(s, i, j) {
                    Some(func) => {
                        match sp_parse_args(s, q + 1, sp_placeholder_for(func), (fuel - 1) as nat) {
                            Some(ap) => {
                                let n = ap.0.len();
                                let ok = match func {
                                    Function::Abs => n == 1,
                                    Function::Not => n == 1,
                                    Function::Negate => n == 1,
                                    Function::IsBlank => n == 1,
                                    Function::Year => n == 1,
                                    Function::Month => n == 1,
                                    Function::Day => n == 1,
                                    Function::IsError => n == 1,
                                    Function::Find => n == 2 || n == 3,
                                    Function::Search => n == 2 || n == 3,
                                    _ => true,
                                };
                                if ok {
                                    Some(
                                        (
                                            FormulaV::Operation(Operator::Function(func), ap.0),
                                            ap.1,
                                        ),
                                    )
                                } else {
                                    sp_custom_call(s, q + 1, (fuel - 1) as nat)
                                }
                            },
                            None => None,
                        }
                    },
                    None => sp_custom_call(s, q + 1, (fuel - 1) as nat),
                }
            } else {
                if sp_true_word(s, i, j) {
                    Some((FormulaV::Value(ValueV::Boolean(Boolean::True)), j))
                } else if sp_false_word(s, i, j) {
                    Some((FormulaV::Value(ValueV::Boolean(Boolean::False)), j))
                } else {
                    Some((FormulaV::Reference(s.subrange(i, j)), j))
                }
            }
        } else {
            None
        }
    }
}

/// An argument list after `(`.
pub open spec fn sp_parse_args(s: Seq<char>, i: int, ph: FormulaV, fuel: nat) -> Option<
    (Seq<FormulaV>, int),
>
    decreases fuel,
{
    if fuel == 0 {
        None
    } else {
        let j = sp_skip_ws(s, i);
        if 0 <= j < s.len() && s[j] == ')' {
            Some((Seq::empty(), j + 1))
        } else {
            sp_parse_args_rest(s, j, ph, Seq::empty(), (fuel - 1) as nat)
        }
    }
}

pub open spec fn sp_parse_args_rest(
    s: Seq<char>,
    i: int,
    ph: FormulaV,
    acc: Seq<FormulaV>,
    fuel: nat,
) -> Option<(Seq<FormulaV>, int)>
    decreases fuel,
{
    if fuel == 0 {
        None
    } else {
        let j = sp_skip_ws(s, i);
        if 0 <= j < s.len() && (s[j] == ',' || s[j] == ')') {
            let acc2 = acc.push(ph);
            if s[j] == ')' {
                Some((acc2, j + 1))
            } else {
                sp_parse_args_rest(s, j + 1, ph, acc2, (fuel - 1) as nat)
            }
        } else {
            match sp_parse_level(s, j, 0, (fuel - 1) as nat) {
                Some(fp) => {
                    let acc2 = acc.push(fp.0);
                    let q = sp_skip_ws(s, fp.1);
                    if 0 <= q < s.len() && s[q] == ')' {
                        Some((acc2, q + 1))
                    } else if 0 <= q < s.len() && s[q] == ',' {
                        sp_parse_args_rest(s, q + 1, ph, acc2, (fuel - 1) as nat)
                    } else {
                        None
                    }
                },
                None => None,
            }
        }
    }
}

/// An array literal after `{`.
pub open spec fn sp_parse_array(s: Seq<char>, i: int, fuel: nat) -> Option<(FormulaV, int)>
    decreases fuel,
{
    if fuel == 0 {
        None
    } else {
        sp_parse_array_rest(s, i, Seq::empty(), (fuel - 1) as nat)
    }
}

pub open spec fn sp_parse_array_rest(s: Seq<char>, i: int, acc: Seq<FormulaV>, fuel: nat) -> Option<
    (FormulaV, int),
>
    decreases fuel,
{
    if fuel == 0 {
        None
    } else {
        match sp_parse_level(s, sp_skip_ws(s, i), 0, (fuel - 1) as nat) {
            Some(fp) => {
                let acc2 = acc.push(fp.0);
                let q = sp_skip_ws(s, fp.1);
                if 0 <= q < s.len() && s[q] == '}' {
                    Some((FormulaV::List(acc2), q + 1))
                } else if 0 <= q < s.len() && s[q] == ',' {
                    sp_parse_array_rest(s, q + 1, acc2, (fuel - 1) as nat)
                } else {
                    None
                }
            },
            None => None,
        }
    }
}

/// A host-function call without a host table: the arguments still parse,
/// and the embedded literal is the reference error.
pub open spec fn sp_custom_call(s: Seq<char>, i: int, fuel: nat) -> Option<(FormulaV, int)>
    decreases fuel,
{
    if fuel == 0 {
        None
    } else {
        match sp_parse_args(s, i, FormulaV::Value(ValueV::Blank), (fuel - 1) as nat) {
            Some(ap) => Some((FormulaV::Value(ValueV::Error(Error::Reference)), ap.1)),
            None => None,
        }
    }
}

/// A double-quoted text primary at `i`.
pub open spec fn sp_dq_string(s: Seq<char>, i: int) -> Option<(FormulaV, int)> {
    match sp_dq_scan(s, i + 1) {
        Some(t) => Some((FormulaV::Value(ValueV::Text(t.0)), t.1)),
        None => None,
    }
}

/// A single-quoted text primary at `i`.
pub open spec fn sp_sq_string(s: Seq<char>, i: int) -> Option<(FormulaV, int)> {
    match sp_sq_scan(s, i + 1) {
        Some(t) => Some((FormulaV::Value(ValueV::Text(t.0)), t.1)),
        None => None,
    }
}

/// The parsing budget for an input of the given length.
pub open spec fn sp_parse_fuel(len: nat) -> nat {
    if len > 0x0100_0000_0000_0000 {
        0x1000_0000_0000_0000
    } else {
        16 * len + 64
    }
}

/// What a formula string parses to, without a custom-function table: text
/// not starting with `=` is a text constant (leading apostrophes
/// stripped); an expression that the grammar rejects, or that leaves
/// unconsumed input, is the parse-error literal.
pub open spec fn sp_parse_string(s: Seq<char>) -> FormulaV {
    if s.len() == 0 || s[0] != '=' {
        FormulaV::Value(ValueV::Text(sp_trim_quotes(s)))
    } else {
        match sp_parse_level(s, 1, 0, sp_parse_fuel(s.len())) {
            Some(fp) => if sp_skip_ws(s, fp.1) == s.len() {
                fp.0
            } else {
                FormulaV::Value(ValueV::Error(Error::Parse))
            },
            None => FormulaV::Value(ValueV::Error(Error::Parse)),
        }
    }
}

/// The shapes an argument placeholder can take.
pub open spec fn sp_is_ph_shape(f: Formula) -> bool {
    match f {
        Formula::Value(Value::Blank) => true,
        Formula::Value(Value::Boolean(_)) => true,
        Formula::Value(Value::Number(_)) => true,
        _ => false,
    }
}

/// Agreement of an exec argument-list result with its specification.
pub open spec fn args_agree(r: Option<(Vec<Formula>, usize)>, s: Option<(Seq<FormulaV>, int)>) -> bool {
    match r {
        Some(a) => s is Some && fview_seq(a.0@) == s.unwrap().0 && a.1 as int == s.unwrap().1,
        None => s is None,
    }
}

/// What a host-call position holds after embedding: the host's answer
/// with error kinds other than the value error replaced by the reference
/// error.
pub open spec fn sp_embed_custom(v: ValueV) -> ValueV {
    match v {
        ValueV::Error(Error::Value) => ValueV::Error(Error::Value),
        ValueV::Error(_) => ValueV::Error(Error::Reference),
        _ => v,
    }
}

/// Whether a tree node is an embedded host answer: a literal whose value
/// the embedding maps to itself (any value whose error kind, if it is an
/// error, is the value error or the reference error).
pub open spec fn sp_host_embedded(a: FormulaV) -> bool {
    match a {
        FormulaV::Value(v) => sp_embed_custom(v) == v,
        _ => false,
    }
}

/// Relates the tree parsed with a host table to the no-table parse of the
/// same text: equal node for node, except that a position where the
/// no-table parse embeds the reference-error literal (a host-call
/// position) instead holds an embedded host answer.
pub open spec fn sp_host_variant(a: FormulaV, b: FormulaV) -> bool
    decreases b,
{
    match b {
        FormulaV::Value(ValueV::Error(Error::Reference)) => sp_host_embedded(a),
        FormulaV::Operation(bop, bs) => match a {
            FormulaV::Operation(aop, av) => aop == bop && sp_host_variant_seq(av, bs),
            _ => false,
        },
        FormulaV::List(bs) => match a {
            FormulaV::List(av) => sp_host_variant_seq(av, bs),
            _ => false,
        },
        _ => a == b,
    }
}

/// The pointwise relation of two node lists of the same length.
pub open spec fn sp_host_variant_seq(a: Seq<FormulaV>, b: Seq<FormulaV>) -> bool
    decreases b,
{
    if a.len() != b.len() {
        false
    } else if b.len() == 0 {
        true
    } else {
        sp_host_variant(a.last(), b.last()) && sp_host_variant_seq(a.drop_last(), b.drop_last())
    }
}

/// Agreement of a parse result, with any table, with the no-table
/// specification: the same success, the same end position, and a tree
/// that differs only at host-call positions.
pub open spec fn parse_hosted(r: Option<(Formula, usize)>, s: Option<(FormulaV, int)>) -> bool {
    match r {
        Some(a) => s is Some && sp_host_variant(fview(a.0), s.unwrap().0) && a.1 as int
            == s.unwrap().1,
        None => s is None,
    }
}

/// The list form of `parse_hosted`.
pub open spec fn args_hosted(
    r: Option<(Vec<Formula>, usize)>,
    s: Option<(Seq<FormulaV>, int)>,
) -> bool {
    match r {
        Some(a) => s is Some && sp_host_variant_seq(fview_seq(a.0@), s.unwrap().0) && a.1 as int
            == s.unwrap().1,
        None => s is None,
    }
}

/// A tree is a host variant of itself.
pub proof fn lemma_host_variant_refl(b: FormulaV)
    ensures
        sp_host_variant(b, b),
    decreases b,
{
    match b {
        FormulaV::Operation(bop, bs) => {
            lemma_host_variant_seq_refl(bs);
        },
        FormulaV::List(bs) => {
            lemma_host_variant_seq_refl(bs);
        },
        _ => {},
    }
}

/// A node list is a host variant of itself.
pub proof fn lemma_host_variant_seq_refl(b: Seq<FormulaV>)
    ensures
        sp_host_variant_seq(b, b),
    decreases b,
{
    if b.len() > 0 {
        lemma_host_variant_refl(b.last());
        lemma_host_variant_seq_refl(b.drop_last());
    }
}

/// Pushing related elements keeps two node lists related.
proof fn lemma_host_variant_seq_push(a: Seq<FormulaV>, b: Seq<FormulaV>, x: FormulaV, y: FormulaV)
    requires
        sp_host_variant_seq(a, b),
        sp_host_variant(x, y),
    ensures
        sp_host_variant_seq(a.push(x), b.push(y)),
{
    assert(a.push(x).drop_last() =~= a);
    assert(b.push(y).drop_last() =~= b);
    assert(a.push(x).last() == x);
    assert(b.push(y).last() == y);
}

/// Related children make a related binary node.
proof fn lemma_host_variant_op2(
    op: Operator,
    a0: FormulaV,
    a1: FormulaV,
    b0: FormulaV,
    b1: FormulaV,
)
    requires
        sp_host_variant(a0, b0),
        sp_host_variant(a1, b1),
    ensures
        sp_host_variant(FormulaV::Operation(op, seq![a0, a1]), FormulaV::Operation(op, seq![b0, b1])),
{
    let av = seq![a0, a1];
    let bs = seq![b0, b1];
    assert(av.drop_last() =~= seq![a0]);
    assert(bs.drop_last() =~= seq![b0]);
    assert(seq![a0].drop_last() =~= Seq::<FormulaV>::empty());
    assert(seq![b0].drop_last() =~= Seq::<FormulaV>::empty());
    assert(sp_host_variant_seq(Seq::<FormulaV>::empty(), Seq::<FormulaV>::empty()));
    assert(sp_host_variant_seq(seq![a0], seq![b0]));
    assert(sp_host_variant_seq(av, bs));
}

/// A related child makes a related unary node.
proof fn lemma_host_variant_op1(op: Operator, a0: FormulaV, b0: FormulaV)
    requires
        sp_host_variant(a0, b0),
    ensures
        sp_host_variant(FormulaV::Operation(op, seq![a0]), FormulaV::Operation(op, seq![b0])),
{
    assert(seq![a0].drop_last() =~= Seq::<FormulaV>::empty());
    assert(seq![b0].drop_last() =~= Seq::<FormulaV>::empty());
    assert(sp_host_variant_seq(Seq::<FormulaV>::empty(), Seq::<FormulaV>::empty()));
    assert(sp_host_variant_seq(seq![a0], seq![b0]));
}

/// The arguments handed to a host-defined function: the values of the
/// numeric literal argument expressions, in order; any other argument is
/// omitted.
pub open spec fn sp_numeric_args(args: Seq<FormulaV>) -> Seq<Num>
    decreases args.len(),
{
    if args.len() == 0 {
        Seq::empty()
    } else {
        let rest = sp_numeric_args(args.drop_last());
        match args.last() {
            FormulaV::Value(ValueV::Number(n)) => rest.push(n),
            _ => rest,
        }
    }
}

proof fn lemma_fview_one(a: Formula)
    ensures
        fview_seq(seq![a]) == seq![fview(a)],
{
    assert(seq![a].drop_last() =~= Seq::<Formula>::empty());
    assert(seq![a].last() == a);
    assert(fview_seq(Seq::<Formula>::empty()) =~= Seq::<FormulaV>::empty());
    assert(fview_seq(seq![a]) == fview_seq(seq![a].drop_last()).push(fview(seq![a].last())));
    assert(fview_seq(seq![a]) =~= seq![fview(a)]);
}

proof fn lemma_fview_two(a: Formula, b: Formula)
    ensures
        fview_seq(seq![a, b]) == seq![fview(a), fview(b)],
{
    lemma_fview_one(a);
    assert(seq![a, b].drop_last() =~= seq![a]);
    assert(seq![a, b].last() == b);
    assert(fview_seq(seq![a, b]) =~= seq![fview(a), fview(b)]);
}

/// A host-supplied table of custom functions: called once per host-call
/// position during parsing, with the call's name and its numeric literal
/// arguments (`sp_numeric_args`); the answer is embedded into the tree
/// with unsupported error kinds filtered (`sp_embed_custom`).  Nothing is
/// assumed about the answer itself: the contracts hold for every value a
/// host returns.
pub trait CustomFunctions {
    fn call(&self, name: &str, args: &Vec<Num>) -> Value;
}

/// The table that defines no custom function: every call is unresolved.
pub struct NoCustomFunction;

impl CustomFunctions for NoCustomFunction {
    fn call(&self, name: &str, args: &Vec<Num>) -> Value {
        Value::Error(Error::Reference)
    }
}

/// Leading apostrophes stripped from a text constant.
pub open spec fn sp_trim_quotes(s: Seq<char>) -> Seq<char>
    decreases s.len(),
{
    if s.len() > 0 && s[0] == '\u{27}' {
        sp_trim_quotes(s.subrange(1, s.len() as int))
    } else {
        s
    }
}

fn skip_ws(v: &Vec<char>, i: usize) -> (r: usize)
    requires
        i <= v@.len(),
    ensures
        i <= r <= v@.len(),
        r as int == sp_skip_ws(v@, i as int),
{
    let mut j = i;
    while j < v.len() && (v[j] == ' ' || v[j] == '\u{9}' || v[j] == '\u{a}' || v[j] == '\u{d}')
        invariant
            i <= j <= v@.len(),
            sp_skip_ws(v@, i as int) == sp_skip_ws(v@, j as int),
        decreases v@.len() - j,
    {
        j = j + 1;
    }
    j
}

fn is_digit(c: char) -> (r: bool)
    ensures
        r == sp_is_digit(c),
{
    let u = c as u32;
    48 <= u && u <= 57
}

fn is_name_start(c: char) -> (r: bool)
    ensures
        r == sp_is_name_start(c),
{
    let u = c as u32;
    (65 <= u && u <= 90) || (97 <= u && u <= 122) || c == '_'
}

fn is_name_char(c: char) -> (r: bool)
    ensures
        r == sp_is_name_char(c),
{
    let u = c as u32;
    (65 <= u && u <= 90) || (97 <= u && u <= 122) || (48 <= u && u <= 57) || c == '_' || c == '.'
}

/// The scanner specifications: each exec scanner's result is pinned to
/// the spec function of the same shape.
pub open spec fn sp_is_ws(c: char) -> bool {
    c == ' ' || c == '\u{9}' || c == '\u{a}' || c == '\u{d}'
}

pub open spec fn sp_is_digit(c: char) -> bool {
    48 <= c as u32 <= 57
}

pub open spec fn sp_is_name_start(c: char) -> bool {
    (65 <= c as u32 <= 90) || (97 <= c as u32 <= 122) || c == '_'
}

pub open spec fn sp_is_name_char(c: char) -> bool {
    (65 <= c as u32 <= 90) || (97 <= c as u32 <= 122) || (48 <= c as u32 <= 57) || c == '_'
        || c == '.'
}

/// The first position at or after `i` that does not hold whitespace.
pub open spec fn sp_skip_ws(s: Seq<char>, i: int) -> int
    decreases s.len() - i,
{
    if 0 <= i < s.len() && sp_is_ws(s[i]) {
        sp_skip_ws(s, i + 1)
    } else {
        i
    }
}

/// The end of the digit run starting at `i`.
pub open spec fn sp_digit_end(s: Seq<char>, i: int) -> int
    decreases s.len() - i,
{
    if 0 <= i < s.len() && sp_is_digit(s[i]) {
        sp_digit_end(s, i + 1)
    } else {
        i
    }
}

/// The end of the name-character run starting at `i`.
pub open spec fn sp_name_end(s: Seq<char>, i: int) -> int
    decreases s.len() - i,
{
    if 0 <= i < s.len() && sp_is_name_char(s[i]) {
        sp_name_end(s, i + 1)
    } else {
        i
    }
}

/// The content of a double-quoted string read from position `j` (just
/// after the opening quote) and the position after the closing quote;
/// a doubled quote stands for one literal quote; `None` when unterminated.
pub open spec fn sp_dq_scan(s: Seq<char>, j: int) -> Option<(Seq<char>, int)>
    decreases s.len() - j,
{
    if j < 0 || j >= s.len() {
        None
    } else if s[j] == '"' {
        if j + 1 < s.len() && s[j + 1] == '"' {
            match sp_dq_scan(s, j + 2) {
                Some(t) => Some((seq!['"'] + t.0, t.1)),
                None => None,
            }
        } else {
            Some((Seq::empty(), j + 1))
        }
    } else {
        match sp_dq_scan(s, j + 1) {
            Some(t) => Some((seq![s[j]] + t.0, t.1)),
            None => None,
        }
    }
}

/// The content of a single-quoted string read from position `j`.
pub open spec fn sp_sq_scan(s: Seq<char>, j: int) -> Option<(Seq<char>, int)>
    decreases s.len() - j,
{
    if j < 0 || j >= s.len() {
        None
    } else if s[j] == '\u{27}' {
        Some((Seq::empty(), j + 1))
    } else {
        match sp_sq_scan(s, j + 1) {
            Some(t) => Some((seq![s[j]] + t.0, t.1)),
            None => None,
        }
    }
}

/// A number literal read at `i`: a digit run, optionally a point and
/// another digit run, its value read by the numeric text parser.
pub open spec fn sp_number_lit(s: Seq<char>, i: int) -> Option<(FormulaV, int)> {
    let j0 = sp_digit_end(s, i);
    if j0 == i {
        None
    } else {
        let j = if j0 < s.len() && s[j0] == '.' {
            sp_digit_end(s, j0 + 1)
        } else {
            j0
        };
        match sp_parse_num(s.subrange(i, j)) {
            Some(n) => Some((FormulaV::Value(ValueV::Number(n)), j)),
            None => None,
        }
    }
}

/// The binary operator of level `lvl` at position `i`, with the position
/// after it.
pub open spec fn sp_op_at(s: Seq<char>, i: int, lvl: int) -> Option<(Operator, int)> {
    if i < 0 || i >= s.len() {
        None
    } else {
        let c = s[i];
        let two: Option<char> = if i + 1 < s.len() {
            Some(s[i + 1])
        } else {
            None
        };
        if lvl == 0 {
            if c == '&' {
                Some((Operator::Concat, i + 1))
            } else {
                None
            }
        } else if lvl == 1 {
            if c == '<' && two == Some('>') {
                Some((Operator::NotEqual, i + 2))
            } else if c == '=' {
                Some((Operator::Equal, i + 1))
            } else {
                None
            }
        } else if lvl == 2 {
            if c == '>' && two == Some('=') {
                Some((Operator::GreaterOrEqual, i + 2))
            } else if c == '<' && two == Some('=') {
                Some((Operator::LessOrEqual, i + 2))
            } else if c == '<' && two == Some('>') {
                None
            } else if c == '>' {
                Some((Operator::Greater, i + 1))
            } else if c == '<' {
                Some((Operator::Less, i + 1))
            } else {
                None
            }
        } else if lvl == 3 {
            if c == '+' {
                Some((Operator::Plus, i + 1))
            } else if c == '-' {
                Some((Operator::Minus, i + 1))
            } else {
                None
            }
        } else if lvl == 4 {
            if c == '*' {
                Some((Operator::Multiply, i + 1))
            } else if c == '/' {
                Some((Operator::Divide, i + 1))
            } else {
                None
            }
        } else {
            if c == '^' {
                Some((Operator::Power, i + 1))
            } else {
                None
            }
        }
    }
}

/// The placeholder an empty argument slot stands for, per function.
pub open spec fn sp_placeholder_for(func: Function) -> FormulaV {
    match func {
        Function::Average => FormulaV::Value(
            ValueV::Number(Num::Finite { neg: false, mant: 0, exp: 0 }),
        ),
        Function::And => FormulaV::Value(ValueV::Boolean(Boolean::False)),
        _ => FormulaV::Value(ValueV::Blank),
    }
}

/// Agreement of an exec parse result with its specification.
pub open spec fn parse_agrees(r: Option<(Formula, usize)>, s: Option<(FormulaV, int)>) -> bool {
    match r {
        Some(a) => s is Some && fview(a.0) == s.unwrap().0 && a.1 as int == s.unwrap().1,
        None => s is None,
    }
}

/// The built-in function a (case-folded) call name denotes, if any.
pub open spec fn sp_builtin_of(s: Seq<char>, from: int, to: int) -> Option<Function>
    recommends
        0 <= from <= to <= s.len(),
{
    if to - from == 3 && sp_fold_u(s[from + 0]) == 97 && sp_fold_u(s[from + 1]) == 98 && sp_fold_u(s[from + 2]) == 115 {
        Some(Function::Abs)
    } else
    if to - from == 3 && sp_fold_u(s[from + 0]) == 115 && sp_fold_u(s[from + 1]) == 117 && sp_fold_u(s[from + 2]) == 109 {
        Some(Function::Sum)
    } else
    if to - from == 7 && sp_fold_u(s[from + 0]) == 112 && sp_fold_u(s[from + 1]) == 114 && sp_fold_u(s[from + 2]) == 111 && sp_fold_u(s[from + 3]) == 100 && sp_fold_u(s[from + 4]) == 117 && sp_fold_u(s[from + 5]) == 99 && sp_fold_u(s[from + 6]) == 116 {
        Some(Function::Product)
    } else
    if to - from == 7 && sp_fold_u(s[from + 0]) == 97 && sp_fold_u(s[from + 1]) == 118 && sp_fold_u(s[from + 2]) == 101 && sp_fold_u(s[from + 3]) == 114 && sp_fold_u(s[from + 4]) == 97 && sp_fold_u(s[from + 5]) == 103 && sp_fold_u(s[from + 6]) == 101 {
        Some(Function::Average)
    } else
    if to - from == 2 && sp_fold_u(s[from + 0]) == 111 && sp_fold_u(s[from + 1]) == 114 {
        Some(Function::Or)
    } else
    if to - from == 3 && sp_fold_u(s[from + 0]) == 97 && sp_fold_u(s[from + 1]) == 110 && sp_fold_u(s[from + 2]) == 100 {
        Some(Function::And)
    } else
    if to - from == 3 && sp_fold_u(s[from + 0]) == 120 && sp_fold_u(s[from + 1]) == 111 && sp_fold_u(s[from + 2]) == 114 {
        Some(Function::Xor)
    } else
    if to - from == 3 && sp_fold_u(s[from + 0]) == 110 && sp_fold_u(s[from + 1]) == 111 && sp_fold_u(s[from + 2]) == 116 {
        Some(Function::Not)
    } else
    if to - from == 6 && sp_fold_u(s[from + 0]) == 110 && sp_fold_u(s[from + 1]) == 101 && sp_fold_u(s[from + 2]) == 103 && sp_fold_u(s[from + 3]) == 97 && sp_fold_u(s[from + 4]) == 116 && sp_fold_u(s[from + 5]) == 101 {
        Some(Function::Negate)
    } else
    if to - from == 4 && sp_fold_u(s[from + 0]) == 100 && sp_fold_u(s[from + 1]) == 97 && sp_fold_u(s[from + 2]) == 121 && sp_fold_u(s[from + 3]) == 115 {
        Some(Function::Days)
    } else
    if to - from == 5 && sp_fold_u(s[from + 0]) == 114 && sp_fold_u(s[from + 1]) == 105 && sp_fold_u(s[from + 2]) == 103 && sp_fold_u(s[from + 3]) == 104 && sp_fold_u(s[from + 4]) == 116 {
        Some(Function::Right)
    } else
    if to - from == 4 && sp_fold_u(s[from + 0]) == 108 && sp_fold_u(s[from + 1]) == 101 && sp_fold_u(s[from + 2]) == 102 && sp_fold_u(s[from + 3]) == 116 {
        Some(Function::Left)
    } else
    if to - from == 2 && sp_fold_u(s[from + 0]) == 105 && sp_fold_u(s[from + 1]) == 102 {
        Some(Function::Iff)
    } else
    if to - from == 7 && sp_fold_u(s[from + 0]) == 105 && sp_fold_u(s[from + 1]) == 115 && sp_fold_u(s[from + 2]) == 98 && sp_fold_u(s[from + 3]) == 108 && sp_fold_u(s[from + 4]) == 97 && sp_fold_u(s[from + 5]) == 110 && sp_fold_u(s[from + 6]) == 107 {
        Some(Function::IsBlank)
    } else
    if to - from == 4 && sp_fold_u(s[from + 0]) == 121 && sp_fold_u(s[from + 1]) == 101 && sp_fold_u(s[from + 2]) == 97 && sp_fold_u(s[from + 3]) == 114 {
        Some(Function::Year)
    } else
    if to - from == 5 && sp_fold_u(s[from + 0]) == 109 && sp_fold_u(s[from + 1]) == 111 && sp_fold_u(s[from + 2]) == 110 && sp_fold_u(s[from + 3]) == 116 && sp_fold_u(s[from + 4]) == 104 {
        Some(Function::Month)
    } else
    if to - from == 3 && sp_fold_u(s[from + 0]) == 100 && sp_fold_u(s[from + 1]) == 97 && sp_fold_u(s[from + 2]) == 121 {
        Some(Function::Day)
    } else
    if to - from == 4 && sp_fold_u(s[from + 0]) == 102 && sp_fold_u(s[from + 1]) == 105 && sp_fold_u(s[from + 2]) == 110 && sp_fold_u(s[from + 3]) == 100 {
        Some(Function::Find)
    } else
    if to - from == 6 && sp_fold_u(s[from + 0]) == 115 && sp_fold_u(s[from + 1]) == 101 && sp_fold_u(s[from + 2]) == 97 && sp_fold_u(s[from + 3]) == 114 && sp_fold_u(s[from + 4]) == 99 && sp_fold_u(s[from + 5]) == 104 {
        Some(Function::Search)
    } else
    if to - from == 7 && sp_fold_u(s[from + 0]) == 105 && sp_fold_u(s[from + 1]) == 115 && sp_fold_u(s[from + 2]) == 101 && sp_fold_u(s[from + 3]) == 114 && sp_fold_u(s[from + 4]) == 114 && sp_fold_u(s[from + 5]) == 111 && sp_fold_u(s[from + 6]) == 114 {
        Some(Function::IsError)
    } else {
        None
    }
}

/// Whether the name slice spells TRUE, case-insensitively.
pub open spec fn sp_true_word(s: Seq<char>, from: int, to: int) -> bool {
    to - from == 4 && sp_fold_u(s[from]) == 116 && sp_fold_u(s[from + 1]) == 114 && sp_fold_u(
        s[from + 2],
    ) == 117 && sp_fold_u(s[from + 3]) == 101
}

/// Whether the name slice spells FALSE, case-insensitively.
pub open spec fn sp_false_word(s: Seq<char>, from: int, to: int) -> bool {
    to - from == 5 && sp_fold_u(s[from]) == 102 && sp_fold_u(s[from + 1]) == 97 && sp_fold_u(
        s[from + 2],
    ) == 108 && sp_fold_u(s[from + 3]) == 115 && sp_fold_u(s[from + 4]) == 101
}

fn fold_at(v: &Vec<char>, i: usize) -> (r: u32)
    requires
        i < v@.len(),
    ensures
        r == sp_fold_u(v@[i as int]),
{
    crate::number::fold_u_x(v[i])
}

/// The built-in function a call name denotes, if any.
fn builtin_of(v: &Vec<char>, from: usize, to: usize) -> (r: Option<Function>)
    requires
        from <= to <= v@.len(),
    ensures
        r == sp_builtin_of(v@, from as int, to as int),
{
    if to - from == 3 && fold_at(v, from + 0) == 97 && fold_at(v, from + 1) == 98 && fold_at(v, from + 2) == 115 {
        Some(Function::Abs)
    } else
    if to - from == 3 && fold_at(v, from + 0) == 115 && fold_at(v, from + 1) == 117 && fold_at(v, from + 2) == 109 {
        Some(Function::Sum)
    } else
    if to - from == 7 && fold_at(v, from + 0) == 112 && fold_at(v, from + 1) == 114 && fold_at(v, from + 2) == 111 && fold_at(v, from + 3) == 100 && fold_at(v, from + 4) == 117 && fold_at(v, from + 5) == 99 && fold_at(v, from + 6) == 116 {
        Some(Function::Product)
    } else
    if to - from == 7 && fold_at(v, from + 0) == 97 && fold_at(v, from + 1) == 118 && fold_at(v, from + 2) == 101 && fold_at(v, from + 3) == 114 && fold_at(v, from + 4) == 97 && fold_at(v, from + 5) == 103 && fold_at(v, from + 6) == 101 {
        Some(Function::Average)
    } else
    if to - from == 2 && fold_at(v, from + 0) == 111 && fold_at(v, from + 1) == 114 {
        Some(Function::Or)
    } else
    if to - from == 3 && fold_at(v, from + 0) == 97 && fold_at(v, from + 1) == 110 && fold_at(v, from + 2) == 100 {
        Some(Function::And)
    } else
    if to - from == 3 && fold_at(v, from + 0) == 120 && fold_at(v, from + 1) == 111 && fold_at(v, from + 2) == 114 {
        Some(Function::Xor)
    } else
    if to - from == 3 && fold_at(v, from + 0) == 110 && fold_at(v, from + 1) == 111 && fold_at(v, from + 2) == 116 {
        Some(Function::Not)
    } else
    if to - from == 6 && fold_at(v, from + 0) == 110 && fold_at(v, from + 1) == 101 && fold_at(v, from + 2) == 103 && fold_at(v, from + 3) == 97 && fold_at(v, from + 4) == 116 && fold_at(v, from + 5) == 101 {
        Some(Function::Negate)
    } else
    if to - from == 4 && fold_at(v, from + 0) == 100 && fold_at(v, from + 1) == 97 && fold_at(v, from + 2) == 121 && fold_at(v, from + 3) == 115 {
        Some(Function::Days)
    } else
    if to - from == 5 && fold_at(v, from + 0) == 114 && fold_at(v, from + 1) == 105 && fold_at(v, from + 2) == 103 && fold_at(v, from + 3) == 104 && fold_at(v, from + 4) == 116 {
        Some(Function::Right)
    } else
    if to - from == 4 && fold_at(v, from + 0) == 108 && fold_at(v, from + 1) == 101 && fold_at(v, from + 2) == 102 && fold_at(v, from + 3) == 116 {
        Some(Function::Left)
    } else
    if to - from == 2 && fold_at(v, from + 0) == 105 && fold_at(v, from + 1) == 102 {
        Some(Function::Iff)
    } else
    if to - from == 7 && fold_at(v, from + 0) == 105 && fold_at(v, from + 1) == 115 && fold_at(v, from + 2) == 98 && fold_at(v, from + 3) == 108 && fold_at(v, from + 4) == 97 && fold_at(v, from + 5) == 110 && fold_at(v, from + 6) == 107 {
        Some(Function::IsBlank)
    } else
    if to - from == 4 && fold_at(v, from + 0) == 121 && fold_at(v, from + 1) == 101 && fold_at(v, from + 2) == 97 && fold_at(v, from + 3) == 114 {
        Some(Function::Year)
    } else
    if to - from == 5 && fold_at(v, from + 0) == 109 && fold_at(v, from + 1) == 111 && fold_at(v, from + 2) == 110 && fold_at(v, from + 3) == 116 && fold_at(v, from + 4) == 104 {
        Some(Function::Month)
    } else
    if to - from == 3 && fold_at(v, from + 0) == 100 && fold_at(v, from + 1) == 97 && fold_at(v, from + 2) == 121 {
        Some(Function::Day)
    } else
    if to - from == 4 && fold_at(v, from + 0) == 102 && fold_at(v, from + 1) == 105 && fold_at(v, from + 2) == 110 && fold_at(v, from + 3) == 100 {
        Some(Function::Find)
    } else
    if to - from == 6 && fold_at(v, from + 0) == 115 && fold_at(v, from + 1) == 101 && fold_at(v, from + 2) == 97 && fold_at(v, from + 3) == 114 && fold_at(v, from + 4) == 99 && fold_at(v, from + 5) == 104 {
        Some(Function::Search)
    } else
    if to - from == 7 && fold_at(v, from + 0) == 105 && fold_at(v, from + 1) == 115 && fold_at(v, from + 2) == 101 && fold_at(v, from + 3) == 114 && fold_at(v, from + 4) == 114 && fold_at(v, from + 5) == 111 && fold_at(v, from + 6) == 114 {
        Some(Function::IsError)
    } else {
        None
    }
}

fn true_word(v: &Vec<char>, from: usize, to: usize) -> (r: bool)
    requires
        from <= to <= v@.len(),
    ensures
        r == sp_true_word(v@, from as int, to as int),
{
    to - from == 4 && fold_at(v, from) == 116 && fold_at(v, from + 1) == 114 && fold_at(
        v,
        from + 2,
    ) == 117 && fold_at(v, from + 3) == 101
}

fn false_word(v: &Vec<char>, from: usize, to: usize) -> (r: bool)
    requires
        from <= to <= v@.len(),
    ensures
        r == sp_false_word(v@, from as int, to as int),
{
    to - from == 5 && fold_at(v, from) == 102 && fold_at(v, from + 1) == 97 && fold_at(
        v,
        from + 2,
    ) == 108 && fold_at(v, from + 3) == 115 && fold_at(v, from + 4) == 101
}

/// The placeholder an empty argument slot stands for, per function.
fn placeholder_for(func: Function) -> (r: Formula)
    ensures
        fview(r) == sp_placeholder_for(func),
        sp_is_ph_shape(r),
{
    match func {
        Function::Average => Formula::Value(
            Value::Number(Num::Finite { neg: false, mant: 0, exp: 0 }),
        ),
        Function::And => Formula::Value(Value::Boolean(Boolean::False)),
        _ => Formula::Value(Value::Blank),
    }
}

fn substring_chars(v: &Vec<char>, from: usize, to: usize) -> (r: Vec<char>)
    requires
        from <= to <= v@.len(),
    ensures
        r@ == v@.subrange(from as int, to as int),
{
    let mut out: Vec<char> = Vec::new();
    let mut i = from;
    while i < to
        invariant
            from <= i <= to <= v@.len(),
            out@ == v@.subrange(from as int, i as int),
        decreases to - i,
    {
        out.push(v[i]);
        i = i + 1;
        proof {
            assert(out@ =~= v@.subrange(from as int, i as int));
        }
    }
    proof {
        assert(out@ =~= v@.subrange(from as int, to as int));
    }
    out
}

fn string_of(v: &Vec<char>) -> (r: String)
    ensures
        r@ == v@,
{
    let mut s = String::new();
    let mut i: usize = 0;
    while i < v.len()
        invariant
            i <= v@.len(),
            s@ == v@.subrange(0, i as int),
        decreases v@.len() - i,
    {
        push_char(&mut s, v[i]);
        i = i + 1;
        proof {
            assert(s@ =~= v@.subrange(0, i as int));
        }
    }
    proof {
        assert(s@ =~= v@);
    }
    s
}

/// A number literal: digits, optionally a point and more digits; its
/// value is exactly what the numeric text parser reads from the consumed
/// slice.
fn parse_number_lit(v: &Vec<char>, i: usize) -> (r: Option<(Formula, usize)>)
    requires
        i <= v@.len(),
    ensures
        r is Some ==> i < r.unwrap().1 <= v@.len(),
        parse_agrees(r, sp_number_lit(v@, i as int)),
{
    let mut j = i;
    while j < v.len() && is_digit(v[j])
        invariant
            i <= j <= v@.len(),
            sp_digit_end(v@, i as int) == sp_digit_end(v@, j as int),
        decreases v@.len() - j,
    {
        j = j + 1;
    }
    proof {
        assert(j as int == sp_digit_end(v@, i as int));
    }
    if j == i {
        return None;
    }
    if j < v.len() && v[j] == '.' {
        let ghost j0 = j as int;
        j = j + 1;
        while j < v.len() && is_digit(v[j])
            invariant
                i < j <= v@.len(),
                sp_digit_end(v@, j0 + 1) == sp_digit_end(v@, j as int),
            decreases v@.len() - j,
        {
            j = j + 1;
        }
        proof {
            assert(j as int == sp_digit_end(v@, j0 + 1));
        }
    }
    let lit = substring_chars(v, i, j);
    match parse_num_chars(&lit) {
        Some(n) => Some((Formula::Value(Value::Number(n)), j)),
        None => None,
    }
}

/// A double-quoted string; a doubled quote stands for one literal quote.
fn parse_dq_string(v: &Vec<char>, i: usize) -> (r: Option<(Formula, usize)>)
    requires
        i < v@.len(),
        v@[i as int] == '"',
    ensures
        r is Some ==> i < r.unwrap().1 <= v@.len(),
        parse_agrees(r, sp_dq_string(v@, i as int)),
{
    let vl = v.len();
    let mut j = i + 1;
    let mut out: Vec<char> = Vec::new();
    while j < v.len()
        invariant
            i < j <= v@.len(),
            (sp_dq_scan(v@, i as int + 1) is Some) == (sp_dq_scan(v@, j as int) is Some),
            sp_dq_scan(v@, j as int) is Some ==> sp_dq_scan(v@, i as int + 1).unwrap().0 == out@
                + sp_dq_scan(v@, j as int).unwrap().0 && sp_dq_scan(v@, i as int + 1).unwrap().1
                == sp_dq_scan(v@, j as int).unwrap().1,
        decreases v@.len() - j,
    {
        let c = v[j];
        if c == '"' {
            if j + 1 < v.len() && v[j + 1] == '"' {
                let ghost prev = out@;
                out.push('"');
                j = j + 2;
                proof {
                    if sp_dq_scan(v@, j as int) is Some {
                        let t = sp_dq_scan(v@, j as int).unwrap();
                        assert(prev + (seq!['"'] + t.0) =~= out@ + t.0);
                    }
                }
            } else {
                proof {
                    assert(sp_dq_scan(v@, j as int) == Some((Seq::<char>::empty(), j + 1int)));
                    assert(out@ + Seq::<char>::empty() =~= out@);
                }
                return Some((Formula::Value(Value::Text(string_of(&out))), j + 1));
            }
        } else {
            let ghost prev = out@;
            out.push(c);
            j = j + 1;
            proof {
                if sp_dq_scan(v@, j as int) is Some {
                    let t = sp_dq_scan(v@, j as int).unwrap();
                    assert(prev + (seq![c] + t.0) =~= out@ + t.0);
                }
            }
        }
    }
    None
}

/// A single-quoted string (no escapes).
fn parse_sq_string(v: &Vec<char>, i: usize) -> (r: Option<(Formula, usize)>)
    requires
        i < v@.len(),
        v@[i as int] == '\u{27}',
    ensures
        r is Some ==> i < r.unwrap().1 <= v@.len(),
        parse_agrees(r, sp_sq_string(v@, i as int)),
{
    let vl = v.len();
    let mut j = i + 1;
    let mut out: Vec<char> = Vec::new();
    while j < v.len() && v[j] != '\u{27}'
        invariant
            i < j <= v@.len(),
            (sp_sq_scan(v@, i as int + 1) is Some) == (sp_sq_scan(v@, j as int) is Some),
            sp_sq_scan(v@, j as int) is Some ==> sp_sq_scan(v@, i as int + 1).unwrap().0 == out@
                + sp_sq_scan(v@, j as int).unwrap().0 && sp_sq_scan(v@, i as int + 1).unwrap().1
                == sp_sq_scan(v@, j as int).unwrap().1,
        decreases v@.len() - j,
    {
        let ghost prev = out@;
        let c = v[j];
        out.push(c);
        j = j + 1;
        proof {
            if sp_sq_scan(v@, j as int) is Some {
                let t = sp_sq_scan(v@, j as int).unwrap();
                assert(prev + (seq![c] + t.0) =~= out@ + t.0);
            }
        }
    }
    if j < v.len() {
        proof {
            assert(sp_sq_scan(v@, j as int) == Some((Seq::<char>::empty(), j + 1int)));
            assert(out@ + Seq::<char>::empty() =~= out@);
        }
        Some((Formula::Value(Value::Text(string_of(&out))), j + 1))
    } else {
        None
    }
}

} // verus!

verus! {

/// The binary operator at level `lvl` starting at `i`, with the position
/// after it.  Levels, loosest first: concatenation; equality; ordering;
/// additive; multiplicative; power.
fn op_at(v: &Vec<char>, i: usize, lvl: u8) -> (r: Option<(Operator, usize)>)
    requires
        i <= v@.len(),
        lvl <= 5,
    ensures
        r is Some ==> i < r.unwrap().1 <= v@.len(),
        match r {
            Some(a) => sp_op_at(v@, i as int, lvl as int) == Some((a.0, a.1 as int)),
            None => sp_op_at(v@, i as int, lvl as int) is None,
        },
{
    if i >= v.len() {
        return None;
    }
    let c = v[i];
    let two = if i + 1 < v.len() {
        Some(v[i + 1])
    } else {
        None
    };
    match lvl {
        0u8 => {
            if c == '&' {
                Some((Operator::Concat, i + 1))
            } else {
                None
            }
        },
        1u8 => {
            if c == '<' && two == Some('>') {
                Some((Operator::NotEqual, i + 2))
            } else if c == '=' {
                Some((Operator::Equal, i + 1))
            } else {
                None
            }
        },
        2u8 => {
            if c == '>' && two == Some('=') {
                Some((Operator::GreaterOrEqual, i + 2))
            } else if c == '<' && two == Some('=') {
                Some((Operator::LessOrEqual, i + 2))
            } else if c == '<' && two == Some('>') {
                None
            } else if c == '>' {
                Some((Operator::Greater, i + 1))
            } else if c == '<' {
                Some((Operator::Less, i + 1))
            } else {
                None
            }
        },
        3u8 => {
            if c == '+' {
                Some((Operator::Plus, i + 1))
            } else if c == '-' {
                Some((Operator::Minus, i + 1))
            } else {
                None
            }
        },
        4u8 => {
            if c == '*' {
                Some((Operator::Multiply, i + 1))
            } else if c == '/' {
                Some((Operator::Divide, i + 1))
            } else {
                None
            }
        },
        _ => {
            if c == '^' {
                Some((Operator::Power, i + 1))
            } else {
                None
            }
        },
    }
}

/// An expression at binding level `lvl` (6 is a unary item).
fn parse_level<C: CustomFunctions>(
    v: &Vec<char>,
    i: usize,
    lvl: u8,
    custom: Option<&C>,
    fuel: u64,
) -> (r: Option<(Formula, usize)>)
    requires
        i <= v@.len(),
    ensures
        r is Some ==> r.unwrap().1 <= v@.len(),
        custom is None ==> parse_agrees(r, sp_parse_level(v@, i as int, lvl as int, fuel as nat)),
        parse_hosted(r, sp_parse_level(v@, i as int, lvl as int, fuel as nat)),
    decreases fuel,
{
    if fuel == 0 {
        return None;
    }
    if lvl >= 6 {
        return parse_unary(v, i, custom, fuel - 1);
    }
    let first = parse_level(v, i, lvl + 1, custom, fuel - 1);
    let ghost first_spec = sp_parse_level(v@, i as int, lvl as int + 1, (fuel - 1) as nat);
    match first {
        None => None,
        Some((f0, p0)) => {
            if lvl == 5 {
                // power is right-associative
                let j = skip_ws(v, p0);
                match op_at(v, j, lvl) {
                    Some((op, q)) => {
                        let k = skip_ws(v, q);
                        let ghost rhs_spec = sp_parse_level(v@, k as int, lvl as int, (fuel - 1) as nat);
                        match parse_level(v, k, lvl, custom, fuel - 1) {
                            Some((rhs, p2)) => {
                                let ghost f0v = fview(f0);
                                let ghost rhsv = fview(rhs);
                                let mut values: Vec<Formula> = Vec::new();
                                values.push(f0);
                                values.push(rhs);
                                proof {
                                    assert(values@ =~= seq![values@[0], values@[1]]);
                                    lemma_fview_two(values@[0], values@[1]);
                                    assert(fview_seq(values@) =~= seq![f0v, rhsv]);
                                    lemma_host_variant_op2(
                                        op,
                                        f0v,
                                        rhsv,
                                        first_spec.unwrap().0,
                                        rhs_spec.unwrap().0,
                                    );
                                }
                                Some((Formula::Operation(Expression { op, values }), p2))
                            },
                            None => None,
                        }
                    },
                    None => Some((f0, p0)),
                }
            } else {
                parse_level_tail(
                    v,
                    p0,
                    lvl,
                    f0,
                    Ghost(first_spec.unwrap().0),
                    custom,
                    fuel - 1,
                )
            }
        },
    }
}

/// The left-associative tail: `lhs op rhs op rhs ...` at one level.
fn parse_level_tail<C: CustomFunctions>(
    v: &Vec<char>,
    i: usize,
    lvl: u8,
    lhs: Formula,
    Ghost(lhs_spec): Ghost<FormulaV>,
    custom: Option<&C>,
    fuel: u64,
) -> (r: Option<(Formula, usize)>)
    requires
        i <= v@.len(),
        lvl < 6,
        sp_host_variant(fview(lhs), lhs_spec),
        custom is None ==> fview(lhs) == lhs_spec,
    ensures
        r is Some ==> r.unwrap().1 <= v@.len(),
        custom is None ==> parse_agrees(
            r,
            sp_parse_level_tail(v@, i as int, lvl as int, lhs_spec, fuel as nat),
        ),
        parse_hosted(r, sp_parse_level_tail(v@, i as int, lvl as int, lhs_spec, fuel as nat)),
    decreases fuel,
{
    if fuel == 0 {
        return None;
    }
    let j = skip_ws(v, i);
    match op_at(v, j, lvl) {
        None => Some((lhs, i)),
        Some((op, q)) => {
            let k = skip_ws(v, q);
            let ghost rhs_spec = sp_parse_level(v@, k as int, lvl as int + 1, (fuel - 1) as nat);
            match parse_level(v, k, lvl + 1, custom, fuel - 1) {
                Some((rhs, p2)) => {
                    let ghost lhsv = fview(lhs);
                    let ghost rhsv = fview(rhs);
                    let mut values: Vec<Formula> = Vec::new();
                    values.push(lhs);
                    values.push(rhs);
                    proof {
                        assert(values@ =~= seq![values@[0], values@[1]]);
                        lemma_fview_two(values@[0], values@[1]);
                        assert(fview_seq(values@) =~= seq![lhsv, rhsv]);
                        lemma_host_variant_op2(op, lhsv, rhsv, lhs_spec, rhs_spec.unwrap().0);
                    }
                    let node = Formula::Operation(Expression { op, values });
                    parse_level_tail(
                        v,
                        p2,
                        lvl,
                        node,
                        Ghost(FormulaV::Operation(op, seq![lhs_spec, rhs_spec.unwrap().0])),
                        custom,
                        fuel - 1,
                    )
                },
                None => None,
            }
        },
    }
}

/// A unary item: an optional chain of minus signs, then a primary.
fn parse_unary<C: CustomFunctions>(v: &Vec<char>, i: usize, custom: Option<&C>, fuel: u64) -> (r:
    Option<(Formula, usize)>)
    requires
        i <= v@.len(),
    ensures
        r is Some ==> r.unwrap().1 <= v@.len(),
        custom is None ==> parse_agrees(r, sp_parse_unary(v@, i as int, fuel as nat)),
        parse_hosted(r, sp_parse_unary(v@, i as int, fuel as nat)),
    decreases fuel,
{
    if fuel == 0 {
        return None;
    }
    let j = skip_ws(v, i);
    if j < v.len() && v[j] == '-' {
        let ghost inner_spec = sp_parse_unary(v@, j as int + 1, (fuel - 1) as nat);
        match parse_unary(v, j + 1, custom, fuel - 1) {
            Some((inner, p)) => {
                let ghost innerv = fview(inner);
                let mut values: Vec<Formula> = Vec::new();
                values.push(inner);
                proof {
                    assert(values@ =~= seq![values@[0]]);
                    lemma_fview_one(values@[0]);
                    assert(fview_seq(values@) =~= seq![innerv]);
                    lemma_host_variant_op1(
                        Operator::Function(Function::Negate),
                        innerv,
                        inner_spec.unwrap().0,
                    );
                }
                Some(
                    (
                        Formula::Operation(
                            Expression { op: Operator::Function(Function::Negate), values },
                        ),
                        p,
                    ),
                )
            },
            None => None,
        }
    } else {
        parse_primary(v, j, custom, fuel - 1)
    }
}

/// An argument list after `(`: comma-separated expressions, an empty slot
/// standing for the function's placeholder; ends at `)`.
fn parse_args<C: CustomFunctions>(
    v: &Vec<char>,
    i: usize,
    ph: Formula,
    custom: Option<&C>,
    fuel: u64,
) -> (r: Option<(Vec<Formula>, usize)>)
    requires
        i <= v@.len(),
        sp_is_ph_shape(ph),
    ensures
        r is Some ==> r.unwrap().1 <= v@.len(),
        custom is None ==> args_agree(r, sp_parse_args(v@, i as int, fview(ph), fuel as nat)),
        args_hosted(r, sp_parse_args(v@, i as int, fview(ph), fuel as nat)),
    decreases fuel,
{
    if fuel == 0 {
        return None;
    }
    let j = skip_ws(v, i);
    if j < v.len() && v[j] == ')' {
        let out: Vec<Formula> = Vec::new();
        proof {
            assert(fview_seq(out@) =~= Seq::<FormulaV>::empty());
        }
        return Some((out, j + 1));
    }
    proof {
        assert(fview_seq(Seq::<Formula>::empty()) =~= Seq::<FormulaV>::empty());
    }
    parse_args_rest(v, j, ph, Vec::new(), Ghost(Seq::empty()), custom, fuel - 1)
}

fn parse_args_rest<C: CustomFunctions>(
    v: &Vec<char>,
    i: usize,
    ph: Formula,
    acc: Vec<Formula>,
    Ghost(acc_spec): Ghost<Seq<FormulaV>>,
    custom: Option<&C>,
    fuel: u64,
) -> (r: Option<(Vec<Formula>, usize)>)
    requires
        i <= v@.len(),
        sp_is_ph_shape(ph),
        sp_host_variant_seq(fview_seq(acc@), acc_spec),
        custom is None ==> fview_seq(acc@) == acc_spec,
    ensures
        r is Some ==> r.unwrap().1 <= v@.len(),
        custom is None ==> args_agree(
            r,
            sp_parse_args_rest(v@, i as int, fview(ph), acc_spec, fuel as nat),
        ),
        args_hosted(r, sp_parse_args_rest(v@, i as int, fview(ph), acc_spec, fuel as nat)),
    decreases fuel,
{
    if fuel == 0 {
        return None;
    }
    let mut acc = acc;
    let j = skip_ws(v, i);
    // an empty slot before ',' or ')'
    if j < v.len() && (v[j] == ',' || v[j] == ')') {
        let phc = clone_formula_shallow(&ph);
        let ghost prev = acc@;
        let ghost phcv = phc;
        acc.push(phc);
        proof {
            assert(acc@ =~= prev.push(phcv));
            crate::types::lemma_fview_push(prev, phcv);
            lemma_host_variant_refl(fview(ph));
            lemma_host_variant_seq_push(fview_seq(prev), acc_spec, fview(phcv), fview(ph));
        }
        if v[j] == ')' {
            return Some((acc, j + 1));
        }
        return parse_args_rest(
            v,
            j + 1,
            ph,
            acc,
            Ghost(acc_spec.push(fview(ph))),
            custom,
            fuel - 1,
        );
    }
    match parse_level(v, j, 0, custom, fuel - 1) {
        Some((f, p)) => {
            let ghost fspec = sp_parse_level(v@, j as int, 0, (fuel - 1) as nat).unwrap().0;
            let ghost prev = acc@;
            let ghost fv = f;
            acc.push(f);
            proof {
                assert(acc@ =~= prev.push(fv));
                crate::types::lemma_fview_push(prev, fv);
                lemma_host_variant_seq_push(fview_seq(prev), acc_spec, fview(fv), fspec);
            }
            let q = skip_ws(v, p);
            if q < v.len() && v[q] == ')' {
                Some((acc, q + 1))
            } else if q < v.len() && v[q] == ',' {
                parse_args_rest(v, q + 1, ph, acc, Ghost(acc_spec.push(fspec)), custom, fuel - 1)
            } else {
                None
            }
        },
        None => None,
    }
}

/// A fresh placeholder of the same (literal) shape.
fn clone_formula_shallow(f: &Formula) -> (r: Formula)
    ensures
        sp_is_ph_shape(*f) ==> fview(r) == fview(*f),
{
    match f {
        Formula::Value(Value::Blank) => Formula::Value(Value::Blank),
        Formula::Value(Value::Boolean(b)) => Formula::Value(Value::Boolean(*b)),
        Formula::Value(Value::Number(n)) => Formula::Value(Value::Number(*n)),
        _ => Formula::Value(Value::Blank),
    }
}

/// A primary: a literal, a parenthesized expression, an array literal, a
/// function call, a boolean word, or a reference.
fn parse_primary<C: CustomFunctions>(v: &Vec<char>, i: usize, custom: Option<&C>, fuel: u64) -> (r:
    Option<(Formula, usize)>)
    requires
        i <= v@.len(),
    ensures
        r is Some ==> r.unwrap().1 <= v@.len(),
        custom is None ==> parse_agrees(r, sp_parse_primary(v@, i as int, fuel as nat)),
        parse_hosted(r, sp_parse_primary(v@, i as int, fuel as nat)),
    decreases fuel,
{
    if fuel == 0 {
        return None;
    }
    if i >= v.len() {
        return None;
    }
    let c = v[i];
    if is_digit(c) {
        let r = parse_number_lit(v, i);
        proof {
            if r is Some {
                lemma_host_variant_refl(fview(r->Some_0.0));
            }
        }
        return r;
    }
    if c == '"' {
        let r = parse_dq_string(v, i);
        proof {
            if r is Some {
                lemma_host_variant_refl(fview(r->Some_0.0));
            }
        }
        return r;
    }
    if c == '\u{27}' {
        let r = parse_sq_string(v, i);
        proof {
            if r is Some {
                lemma_host_variant_refl(fview(r->Some_0.0));
            }
        }
        return r;
    }
    if c == '(' {
        match parse_level(v, skip_ws(v, i + 1), 0, custom, fuel - 1) {
            Some((f, p)) => {
                let q = skip_ws(v, p);
                if q < v.len() && v[q] == ')' {
                    return Some((f, q + 1));
                }
                return None;
            },
            None => {
                return None;
            },
        }
    }
    if c == '{' {
        return parse_array(v, i + 1, custom, fuel - 1);
    }
    if is_name_start(c) {
        let mut j = i + 1;
        while j < v.len() && is_name_char(v[j])
            invariant
                i < j <= v@.len(),
                sp_name_end(v@, i as int + 1) == sp_name_end(v@, j as int),
            decreases v@.len() - j,
        {
            j = j + 1;
        }
        proof {
            assert(j as int == sp_name_end(v@, i as int + 1));
        }
        // a call?
        let q = skip_ws(v, j);
        if q < v.len() && v[q] == '(' {
            match builtin_of(v, i, j) {
                Some(func) => {
                    let ghost args_spec = sp_parse_args(
                        v@,
                        q as int + 1,
                        sp_placeholder_for(func),
                        (fuel - 1) as nat,
                    );
                    let parsed = parse_args::<C>(v, q + 1, placeholder_for(func), custom, fuel - 1);
                    match parsed {
                        Some((args, p)) => {
                            proof {
                                crate::types::lemma_fview_seq_len(args@);
                            }
                            let n = args.len();
                            let ok = match func {
                                Function::Abs => n == 1,
                                Function::Not => n == 1,
                                Function::Negate => n == 1,
                                Function::IsBlank => n == 1,
                                Function::Year => n == 1,
                                Function::Month => n == 1,
                                Function::Day => n == 1,
                                Function::IsError => n == 1,
                                Function::Find => n == 2 || n == 3,
                                Function::Search => n == 2 || n == 3,
                                _ => true,
                            };
                            proof {
                                assert(fview_seq(args@).len() == args_spec.unwrap().0.len());
                            }
                            if ok {
                                Some(
                                    (
                                        Formula::Operation(
                                            Expression {
                                                op: Operator::Function(func),
                                                values: args,
                                            },
                                        ),
                                        p,
                                    ),
                                )
                            } else {
                                parse_custom_call(v, i, j, q + 1, custom, fuel - 1)
                            }
                        },
                        None => None,
                    }
                },
                None => parse_custom_call(v, i, j, q + 1, custom, fuel - 1),
            }
        } else {
            // a boolean word or a reference
            if true_word(v, i, j) {
                Some((Formula::Value(Value::Boolean(Boolean::True)), j))
            } else if false_word(v, i, j) {
                Some((Formula::Value(Value::Boolean(Boolean::False)), j))
            } else {
                let name = substring_chars(v, i, j);
                Some((Formula::Reference(string_of(&name)), j))
            }
        }
    } else {
        None
    }
}

/// An array literal after `{`: one or more expressions, comma-separated.
fn parse_array<C: CustomFunctions>(v: &Vec<char>, i: usize, custom: Option<&C>, fuel: u64) -> (r:
    Option<(Formula, usize)>)
    requires
        i <= v@.len(),
    ensures
        r is Some ==> r.unwrap().1 <= v@.len(),
        custom is None ==> parse_agrees(r, sp_parse_array(v@, i as int, fuel as nat)),
        parse_hosted(r, sp_parse_array(v@, i as int, fuel as nat)),
    decreases fuel,
{
    if fuel == 0 {
        return None;
    }
    proof {
        assert(fview_seq(Seq::<Formula>::empty()) =~= Seq::<FormulaV>::empty());
    }
    parse_array_rest(v, i, Vec::new(), Ghost(Seq::empty()), custom, fuel - 1)
}

fn parse_array_rest<C: CustomFunctions>(
    v: &Vec<char>,
    i: usize,
    acc: Vec<Formula>,
    Ghost(acc_spec): Ghost<Seq<FormulaV>>,
    custom: Option<&C>,
    fuel: u64,
) -> (r: Option<(Formula, usize)>)
    requires
        i <= v@.len(),
        sp_host_variant_seq(fview_seq(acc@), acc_spec),
        custom is None ==> fview_seq(acc@) == acc_spec,
    ensures
        r is Some ==> r.unwrap().1 <= v@.len(),
        custom is None ==> parse_agrees(
            r,
            sp_parse_array_rest(v@, i as int, acc_spec, fuel as nat),
        ),
        parse_hosted(r, sp_parse_array_rest(v@, i as int, acc_spec, fuel as nat)),
    decreases fuel,
{
    if fuel == 0 {
        return None;
    }
    let mut acc = acc;
    let j = skip_ws(v, i);
    let ghost fspec = sp_parse_level(v@, j as int, 0, (fuel - 1) as nat);
    match parse_level(v, j, 0, custom, fuel - 1) {
        Some((f, p)) => {
            let ghost prev = acc@;
            let ghost fv = f;
            acc.push(f);
            proof {
                assert(acc@ =~= prev.push(fv));
                crate::types::lemma_fview_push(prev, fv);
                lemma_host_variant_seq_push(
                    fview_seq(prev),
                    acc_spec,
                    fview(fv),
                    fspec.unwrap().0,
                );
            }
            let q = skip_ws(v, p);
            if q < v.len() && v[q] == '}' {
                Some((Formula::Iterator(acc), q + 1))
            } else if q < v.len() && v[q] == ',' {
                parse_array_rest(
                    v,
                    q + 1,
                    acc,
                    Ghost(acc_spec.push(fspec.unwrap().0)),
                    custom,
                    fuel - 1,
                )
            } else {
                None
            }
        },
        None => None,
    }
}

/// A call of a host-defined function: the numeric literal arguments are
/// collected, other arguments are omitted, and the host's answer (or the
/// reference error, without a host table) is embedded as a literal, with
/// unsupported result kinds mapped as a reference's would be.
/// Collects the arguments handed to a host-defined function: the values
/// of the numeric literal argument expressions, in order; any other
/// argument is omitted.
fn collect_numeric_args(args: &Vec<Formula>) -> (r: Vec<Num>)
    ensures
        r@ == sp_numeric_args(fview_seq(args@)),
{
    let mut nums: Vec<Num> = Vec::new();
    let mut k: usize = 0;
    proof {
        crate::types::lemma_fview_seq_len(args@);
        assert(args@.subrange(0, 0) =~= Seq::<Formula>::empty());
        assert(fview_seq(Seq::<Formula>::empty()) =~= Seq::<FormulaV>::empty());
    }
    while k < args.len()
        invariant
            k <= args@.len(),
            nums@ == sp_numeric_args(fview_seq(args@.subrange(0, k as int))),
        decreases args@.len() - k,
    {
        proof {
            crate::types::lemma_fsub_step(args@, k as int + 1);
        }
        match &args[k] {
            Formula::Value(Value::Number(n)) => {
                nums.push(*n);
            },
            _ => {},
        }
        k = k + 1;
    }
    proof {
        assert(args@.subrange(0, args@.len() as int) =~= args@);
    }
    nums
}

/// Embeds a host-defined function's answer as a literal: error kinds
/// other than the value error become the reference error, as an
/// unsupported reference would.
fn embed_custom_result(v: Value) -> (r: Formula)
    ensures
        fview(r) == FormulaV::Value(sp_embed_custom(vview(v))),
{
    match v {
        Value::Error(Error::Value) => Formula::Value(Value::Error(Error::Value)),
        Value::Error(_) => Formula::Value(Value::Error(Error::Reference)),
        other => Formula::Value(other),
    }
}

fn parse_custom_call<C: CustomFunctions>(
    v: &Vec<char>,
    name_from: usize,
    name_to: usize,
    i: usize,
    custom: Option<&C>,
    fuel: u64,
) -> (r: Option<(Formula, usize)>)
    requires
        name_from <= name_to <= v@.len(),
        i <= v@.len(),
    ensures
        r is Some ==> r.unwrap().1 <= v@.len(),
        custom is None ==> parse_agrees(r, sp_custom_call(v@, i as int, fuel as nat)),
        parse_hosted(r, sp_custom_call(v@, i as int, fuel as nat)),
    decreases fuel,
{
    if fuel == 0 {
        return None;
    }
    match parse_args::<C>(v, i, Formula::Value(Value::Blank), custom, fuel - 1) {
        Some((args, p)) => {
            let nums = collect_numeric_args(&args);
            let namev = substring_chars(v, name_from, name_to);
            let names = string_of(&namev);
            let res: Value = match custom {
                Some(c) => c.call(names.as_str(), &nums),
                None => Value::Error(Error::Reference),
            };
            let embedded = embed_custom_result(res);
            proof {
                assert(sp_embed_custom(sp_embed_custom(vview(res))) == sp_embed_custom(
                    vview(res),
                ));
            }
            Some((embedded, p))
        },
        None => None,
    }
}

/// Parses a formula string: text starting with `=` is an expression (a
/// failed parse is the parse-error literal); anything else is a text
/// constant with leading apostrophes stripped.  With a custom-function
/// table, the tree equals the no-table parse except at host-call
/// positions, each of which holds the table's answer for the call's name
/// and numeric literal arguments, embedded by `sp_embed_custom`.
pub fn parse_string_to_formula<C: CustomFunctions>(s: &str, f: Option<&C>) -> (r: Formula)
    ensures
        (s@.len() == 0 || s@[0] != '=') ==> fview(r) == FormulaV::Value(
            ValueV::Text(sp_trim_quotes(s@)),
        ),
        f is None ==> fview(r) == sp_parse_string(s@),
        sp_host_variant(fview(r), sp_parse_string(s@)),
{
    let v = str_chars(s);
    if v.len() == 0 || v[0] != '=' {
        let mut start: usize = 0;
        proof {
            assert(v@.subrange(0, v@.len() as int) =~= v@);
        }
        while start < v.len() && v[start] == '\u{27}'
            invariant
                start <= v@.len(),
                v@ == s@,
                sp_trim_quotes(v@.subrange(start as int, v@.len() as int)) == sp_trim_quotes(v@),
            decreases v@.len() - start,
        {
            proof {
                let sub = v@.subrange(start as int, v@.len() as int);
                assert(sub[0] == v@[start as int]);
                assert(sub.subrange(1, sub.len() as int) =~= v@.subrange(
                    start as int + 1,
                    v@.len() as int,
                ));
            }
            start = start + 1;
        }
        proof {
            let sub = v@.subrange(start as int, v@.len() as int);
            if start < v@.len() {
                assert(sub[0] == v@[start as int]);
            }
            assert(sp_trim_quotes(sub) == sub);
        }
        let t = substring_chars(&v, start, v.len());
        Formula::Value(Value::Text(string_of(&t)))
    } else {
        let vl64: u64 = v.len() as u64;
        let fuel: u64 = if vl64 > 0x0100_0000_0000_0000u64 {
            0x1000_0000_0000_0000u64
        } else {
            16 * vl64 + 64
        };
        match parse_level(&v, 1, 0, f, fuel) {
            Some((formula, p)) => {
                let q = skip_ws(&v, p);
                if q == v.len() {
                    formula
                } else {
                    Formula::Value(Value::Error(Error::Parse))
                }
            },
            None => Formula::Value(Value::Error(Error::Parse)),
        }
    }
}

} // verus!
