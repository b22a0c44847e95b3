//! The function dispatcher and the text functions, including the
//! pattern matcher behind FIND and SEARCH.

use vstd::prelude::*;
use crate::number::{
    Num, sp_format_num, format_num, sp_trunc_i64, trunc_i64, sp_from_i64, str_chars, push_char,
};
use crate::types::{
    Value, ValueV, Error, Boolean, Function, ArithOp, BoolOp, CmpOp, Formula, FormulaV, Expression,
    Bindings, sp_boolean, vview, fview, fview_seq, lemma_fview_seq_index, lemma_fview_seq_len,
};
use crate::calculate::{sp_formula_v, sp_env, MAX_FUEL};
use crate::calculate::args::{
    sp_unary_arg, sp_binary_args, sp_ternary_args, sp_number_and_string, get_unary_function_arg,
    get_binary_function_args, get_ternary_function_args, get_number_and_string_values,
};
use crate::calculate::operation::number::{
    sp_collective, sp_collective_product, sp_average, sp_abs, calculate_collective_operator,
    calculate_collective_product_operator, calculate_average, calculate_abs,
};
use crate::calculate::operation::boolean::{
    sp_boolean_reduce, sp_negation, sp_negate, sp_isblank, sp_iserror, calculate_boolean,
    calculate_negation, calculate_negate, calculate_isblank, calculate_iserror,
};
use crate::number::{sp_fold_u, fold_u_x};
use crate::calculate::operation::date::{
    sp_calculate_days, sp_calculate_year, sp_calculate_month, sp_calculate_day, calculate_days,
    calculate_year, calculate_month, calculate_day,
};

verus! {

/// The trim count of the text functions: a numeric operand truncated
/// toward zero (never below zero); any other operand counts zero.
pub open spec fn sp_trim_len(v: ValueV) -> int {
    match v {
        ValueV::Number(x) => {
            let t = sp_trunc_i64(x) as int;
            if t < 0 {
                0
            } else {
                t
            }
        },
        _ => 0,
    }
}

/// The text a trimming function works on: text itself, a number's decimal
/// text, anything else the empty text.
pub open spec fn sp_trim_text(v: ValueV) -> Seq<char> {
    match v {
        ValueV::Text(s) => s,
        ValueV::Number(n) => sp_format_num(n),
        _ => Seq::empty(),
    }
}

/// The last `n` characters of the operand's text.
pub open spec fn sp_right(string: ValueV, number: ValueV) -> ValueV {
    let t = sp_trim_text(string);
    let n = sp_trim_len(number);
    let k = if n > t.len() {
        t.len() as int
    } else {
        n
    };
    ValueV::Text(t.subrange(t.len() - k, t.len() as int))
}

/// The first `n` characters of the operand's text.
pub open spec fn sp_left(string: ValueV, number: ValueV) -> ValueV {
    let t = sp_trim_text(string);
    let n = sp_trim_len(number);
    let k = if n > t.len() {
        t.len() as int
    } else {
        n
    };
    ValueV::Text(t.subrange(0, k))
}

fn trim_parts(string: Value, number: Value) -> (r: (Vec<char>, usize))
    ensures
        r.0@ == sp_trim_text(vview(string)),
        ({
            let t = sp_trim_text(vview(string));
            let n = sp_trim_len(vview(number));
            r.1 as int == if n > t.len() {
                t.len() as int
            } else {
                n
            }
        }),
{
    let t: Vec<char> = match string {
        Value::Text(s) => str_chars(s.as_str()),
        Value::Number(n) => {
            let f = format_num(n);
            str_chars(f.as_str())
        },
        _ => Vec::new(),
    };
    let n: i64 = match number {
        Value::Number(x) => {
            let v = trunc_i64(x);
            if v < 0 {
                0
            } else {
                v
            }
        },
        _ => 0,
    };
    let k: usize = if n as u64 > t.len() as u64 {
        t.len()
    } else {
        n as usize
    };
    (t, k)
}

fn chars_to_string(v: &Vec<char>, from: usize, to: usize) -> (r: String)
    requires
        from <= to <= v@.len(),
    ensures
        r@ == v@.subrange(from as int, to as int),
{
    let mut s = String::new();
    let mut i = from;
    proof {
        assert(s@ =~= v@.subrange(from as int, from as int));
    }
    while i < to
        invariant
            from <= i <= to <= v@.len(),
            s@ == v@.subrange(from as int, i as int),
        decreases to - i,
    {
        push_char(&mut s, v[i]);
        i = i + 1;
        proof {
            assert(s@ =~= v@.subrange(from as int, i as int));
        }
    }
    s
}

/// The last characters of a text operand.
pub fn calculate_right(string: Value, number: Value) -> (r: Value)
    ensures
        vview(r) == sp_right(vview(string), vview(number)),
{
    let (t, k) = trim_parts(string, number);
    let out = chars_to_string(&t, t.len() - k, t.len());
    Value::Text(out)
}

/// The first characters of a text operand.
pub fn calculate_left(string: Value, number: Value) -> (r: Value)
    ensures
        vview(r) == sp_left(vview(string), vview(number)),
{
    let (t, k) = trim_parts(string, number);
    let out = chars_to_string(&t, 0, k);
    Value::Text(out)
}

/// The conditional: a boolean or number (nonzero) picks the branch, a
/// blank condition picks the false branch, an error condition propagates,
/// and any other condition is a value error.
pub open spec fn sp_iff(cond: ValueV, tv: ValueV, fv: ValueV) -> ValueV {
    match cond {
        ValueV::Boolean(b) => if b is True {
            tv
        } else {
            fv
        },
        ValueV::Number(n) => if crate::number::sp_is_zero(n) {
            fv
        } else {
            tv
        },
        ValueV::Blank => fv,
        ValueV::Error(_) => cond,
        _ => ValueV::Error(Error::Value),
    }
}

pub fn calculate_iff(bool_expression: Value, true_value: Value, false_value: Value) -> (r: Value)
    ensures
        vview(r) == sp_iff(vview(bool_expression), vview(true_value), vview(false_value)),
{
    match bool_expression {
        Value::Boolean(b) => {
            if b.to_bool() {
                true_value
            } else {
                false_value
            }
        },
        Value::Number(n) => {
            if n.is_zero() {
                false_value
            } else {
                true_value
            }
        },
        Value::Blank => false_value,
        Value::Error(e) => Value::Error(e),
        _ => Value::Error(Error::Value),
    }
}

/// Whether the folded pattern matches a prefix of the folded text:
/// `?` matches one character, `*` any run, `~` makes the next character
/// literal; other characters match case-insensitively (ASCII case).
pub open spec fn sp_pat_match(p: Seq<char>, t: Seq<char>) -> bool
    decreases p.len(), t.len(), 0int,
{
    if p.len() == 0 {
        true
    } else if p[0] == '~' && p.len() >= 2 {
        t.len() > 0 && sp_fold_u(t[0]) == sp_fold_u(p[1]) && sp_pat_match(
            p.subrange(2, p.len() as int),
            t.subrange(1, t.len() as int),
        )
    } else if p[0] == '*' {
        sp_star(p.subrange(1, p.len() as int), t)
    } else if p[0] == '?' {
        t.len() > 0 && sp_pat_match(p.subrange(1, p.len() as int), t.subrange(1, t.len() as int))
    } else {
        t.len() > 0 && sp_fold_u(t[0]) == sp_fold_u(p[0]) && sp_pat_match(
            p.subrange(1, p.len() as int),
            t.subrange(1, t.len() as int),
        )
    }
}

/// A `*` consumes any run: the rest of the pattern matches somewhere in
/// the remaining text.
pub open spec fn sp_star(p: Seq<char>, t: Seq<char>) -> bool
    decreases p.len(), t.len(), 1int,
{
    sp_pat_match(p, t) || (t.len() > 0 && sp_star(p, t.subrange(1, t.len() as int)))
}

fn pat_match_x(p: &Vec<char>, pi: usize, t: &Vec<char>, ti: usize) -> (r: bool)
    requires
        pi <= p@.len(),
        ti <= t@.len(),
    ensures
        r == sp_pat_match(p@.subrange(pi as int, p@.len() as int), t@.subrange(ti as int, t@.len() as int)),
    decreases p@.len() - pi, t@.len() - ti, 0int,
{
    let ghost ps = p@.subrange(pi as int, p@.len() as int);
    let ghost ts = t@.subrange(ti as int, t@.len() as int);
    if pi == p.len() {
        proof {
            assert(ps.len() == 0);
        }
        true
    } else {
        proof {
            assert(ps[0] == p@[pi as int]);
            assert(ps.subrange(1, ps.len() as int) =~= p@.subrange(pi as int + 1, p@.len() as int));
            if ps.len() >= 2 {
                assert(ps[1] == p@[pi as int + 1]);
                assert(ps.subrange(2, ps.len() as int) =~= p@.subrange(
                    pi as int + 2,
                    p@.len() as int,
                ));
            }
            if ts.len() > 0 {
                assert(ts[0] == t@[ti as int]);
                assert(ts.subrange(1, ts.len() as int) =~= t@.subrange(
                    ti as int + 1,
                    t@.len() as int,
                ));
            }
        }
        let pc = p[pi];
        if pc == '~' && pi + 1 < p.len() {
            if ti < t.len() && fold_u_x(t[ti]) == fold_u_x(p[pi + 1]) {
                pat_match_x(p, pi + 2, t, ti + 1)
            } else {
                false
            }
        } else if pc == '*' {
            star_x(p, pi + 1, t, ti)
        } else if pc == '?' {
            if ti < t.len() {
                pat_match_x(p, pi + 1, t, ti + 1)
            } else {
                false
            }
        } else {
            if ti < t.len() && fold_u_x(t[ti]) == fold_u_x(pc) {
                pat_match_x(p, pi + 1, t, ti + 1)
            } else {
                false
            }
        }
    }
}

fn star_x(p: &Vec<char>, pi: usize, t: &Vec<char>, ti: usize) -> (r: bool)
    requires
        pi <= p@.len(),
        ti <= t@.len(),
    ensures
        r == sp_star(p@.subrange(pi as int, p@.len() as int), t@.subrange(ti as int, t@.len() as int)),
    decreases p@.len() - pi, t@.len() - ti, 1int,
{
    proof {
        let ts = t@.subrange(ti as int, t@.len() as int);
        if ts.len() > 0 {
            assert(ts.subrange(1, ts.len() as int) =~= t@.subrange(ti as int + 1, t@.len() as int));
        }
    }
    if pat_match_x(p, pi, t, ti) {
        true
    } else if ti < t.len() {
        star_x(p, pi, t, ti + 1)
    } else {
        false
    }
}

/// The scan for the leftmost matching offset, at or after `pos`.
pub open spec fn sp_scan(p: Seq<char>, w: Seq<char>, pos: int) -> Option<int>
    decreases w.len() - pos,
{
    if pos > w.len() {
        None
    } else if sp_pat_match(p, w.subrange(pos, w.len() as int)) {
        Some(pos)
    } else if pos == w.len() {
        None
    } else {
        sp_scan(p, w, pos + 1)
    }
}

fn scan_x(p: &Vec<char>, w: &Vec<char>, pos: usize) -> (r: Option<usize>)
    requires
        pos <= w@.len(),
    ensures
        match r {
            Some(q) => sp_scan(p@, w@, pos as int) == Some(q as int),
            None => sp_scan(p@, w@, pos as int) is None,
        },
    decreases w@.len() - pos,
{
    proof {
        assert(p@.subrange(0, p@.len() as int) =~= p@);
    }
    if pat_match_x(p, 0, w, pos) {
        Some(pos)
    } else if pos == w.len() {
        None
    } else {
        scan_x(p, w, pos + 1)
    }
}

/// Leading `*`s of a search pattern are dropped: the reported position is
/// where the remainder of the pattern first matches.
pub open spec fn sp_strip_stars(p: Seq<char>) -> Seq<char>
    decreases p.len(),
{
    if p.len() > 0 && p[0] == '*' {
        sp_strip_stars(p.subrange(1, p.len() as int))
    } else {
        p
    }
}

fn strip_stars_x(p: Vec<char>) -> (r: Vec<char>)
    ensures
        r@ == sp_strip_stars(p@),
{
    let mut i: usize = 0;
    let n = p.len();
    proof {
        assert(p@.subrange(0, n as int) =~= p@);
    }
    while i < n && p[i] == '*'
        invariant
            i <= n,
            n == p@.len(),
            sp_strip_stars(p@.subrange(i as int, n as int)) == sp_strip_stars(p@),
        decreases n - i,
    {
        proof {
            let s = p@.subrange(i as int, n as int);
            assert(s.subrange(1, s.len() as int) =~= p@.subrange(i as int + 1, n as int));
        }
        i = i + 1;
    }
    proof {
        let s = p@.subrange(i as int, n as int);
        if i < n {
            assert(s[0] == p@[i as int]);
        }
        assert(sp_strip_stars(s) == s);
    }
    let mut out: Vec<char> = Vec::new();
    let mut j = i;
    while j < n
        invariant
            i <= j <= n,
            n == p@.len(),
            out@ == p@.subrange(i as int, j as int),
        decreases n - j,
    {
        out.push(p[j]);
        j = j + 1;
        proof {
            assert(out@ =~= p@.subrange(i as int, j as int));
        }
    }
    proof {
        assert(out@ =~= p@.subrange(i as int, n as int));
    }
    out
}

/// The text a search operand coerces to: text itself, a number's decimal
/// text, TRUE/FALSE for booleans, empty for a blank.
pub open spec fn sp_find_text(v: ValueV) -> Option<Seq<char>> {
    match v {
        ValueV::Text(t) => Some(t),
        ValueV::Number(n) => Some(sp_format_num(n)),
        ValueV::Boolean(b) => Some(crate::calculate::display::sp_boolean_text(b)),
        ValueV::Blank => Some(Seq::empty()),
        _ => None,
    }
}

fn find_text_x(v: Value) -> (r: Option<Vec<char>>)
    ensures
        match r {
            Some(s) => sp_find_text(vview(v)) == Some(s@),
            None => sp_find_text(vview(v)) is None,
        },
{
    match v {
        Value::Text(t) => Some(str_chars(t.as_str())),
        Value::Number(n) => {
            let f = format_num(n);
            Some(str_chars(f.as_str()))
        },
        Value::Boolean(b) => {
            let f = crate::calculate::display::boolean_text(b);
            Some(str_chars(f.as_str()))
        },
        Value::Blank => Some(Vec::new()),
        _ => None,
    }
}

/// The start offset of a search: a number truncated toward zero; a blank
/// starts at one; anything else is rejected.
pub open spec fn sp_start_of(v: ValueV) -> Option<int> {
    match v {
        ValueV::Number(n) => Some(sp_trunc_i64(n) as int),
        ValueV::Blank => Some(1),
        _ => None,
    }
}

/// The shared search pipeline: an error operand propagates; both texts
/// coerce; the start must lie between one and the length of the searched
/// text; the result is the leftmost 1-based match offset or the value
/// error.
pub open spec fn sp_find_like(ft: ValueV, wt: ValueV, sn: ValueV, wild: bool) -> ValueV {
    if ft is Error {
        ft
    } else if wt is Error {
        wt
    } else if sn is Error {
        sn
    } else {
        match (sp_find_text(ft), sp_find_text(wt), sp_start_of(sn)) {
            (Some(f0), Some(w), Some(st)) => {
                if st < 1 || st > w.len() {
                    ValueV::Error(Error::Value)
                } else {
                    let f = if wild {
                        sp_strip_stars(f0)
                    } else {
                        f0
                    };
                    let res = if wild {
                        sp_scan(f, w, st - 1)
                    } else {
                        sp_scan_plain(f, w, st - 1)
                    };
                    match res {
                        Some(q) => ValueV::Number(sp_from_i64_pos(q + 1)),
                        None => ValueV::Error(Error::Value),
                    }
                }
            },
            _ => ValueV::Error(Error::Value),
        }
    }
}

pub open spec fn sp_from_i64_pos(v: int) -> Num {
    crate::number::sp_norm(false, (if v >= 0 {
        v
    } else {
        0
    }) as nat, 0)
}

/// The scan of a literal (case-sensitive, wildcard-free) needle.
pub open spec fn sp_scan_plain(f: Seq<char>, w: Seq<char>, pos: int) -> Option<int>
    decreases w.len() - pos,
{
    if pos > w.len() {
        None
    } else if pos + f.len() <= w.len() && w.subrange(pos, pos + f.len()) == f {
        Some(pos)
    } else if pos == w.len() {
        None
    } else {
        sp_scan_plain(f, w, pos + 1)
    }
}

fn prefix_eq_x(f: &Vec<char>, w: &Vec<char>, pos: usize) -> (r: bool)
    requires
        pos <= w@.len(),
    ensures
        r == (pos + f@.len() <= w@.len() && w@.subrange(pos as int, pos as int + f@.len() as int)
            == f@),
{
    if f.len() > w.len() - pos {
        proof {
            assert(!(pos + f@.len() <= w@.len()));
        }
        false
    } else {
        let n = f.len();
        let wl = w.len();
        let mut i: usize = 0;
        while i < n
            invariant
                i <= n,
                n == f@.len(),
                wl == w@.len(),
                pos + n <= wl,
                forall|j: int| 0 <= j < i ==> w@[pos + j] == f@[j],
            decreases n - i,
        {
            if w[pos + i] != f[i] {
                proof {
                    assert(w@.subrange(pos as int, pos as int + n as int)[i as int] != f@[i as int]);
                }
                return false;
            }
            i = i + 1;
        }
        proof {
            assert(w@.subrange(pos as int, pos as int + n as int) =~= f@);
        }
        true
    }
}

fn scan_plain_x(f: &Vec<char>, w: &Vec<char>, pos: usize) -> (r: Option<usize>)
    requires
        pos <= w@.len(),
    ensures
        match r {
            Some(q) => sp_scan_plain(f@, w@, pos as int) == Some(q as int),
            None => sp_scan_plain(f@, w@, pos as int) is None,
        },
    decreases w@.len() - pos,
{
    if prefix_eq_x(f, w, pos) {
        Some(pos)
    } else if pos == w.len() {
        None
    } else {
        scan_plain_x(f, w, pos + 1)
    }
}

fn find_like_x(ft: Value, wt: Value, sn: Value, wild: bool) -> (r: Value)
    ensures
        vview(r) == sp_find_like(vview(ft), vview(wt), vview(sn), wild),
{
    if matches!(ft, Value::Error(_)) {
        ft
    } else if matches!(wt, Value::Error(_)) {
        wt
    } else if matches!(sn, Value::Error(_)) {
        sn
    } else {
        let f0 = find_text_x(ft);
        let w0 = find_text_x(wt);
        let st0: Option<i64> = match sn {
            Value::Number(n) => Some(trunc_i64(n)),
            Value::Blank => Some(1),
            _ => None,
        };
        match (f0, w0, st0) {
            (Some(f0v), Some(w), Some(st)) => {
                if st < 1 || st as u64 > w.len() as u64 {
                    Value::Error(Error::Value)
                } else {
                    let res: Option<usize> = if wild {
                        let f = strip_stars_x(f0v);
                        scan_x(&f, &w, (st - 1) as usize)
                    } else {
                        scan_plain_x(&f0v, &w, (st - 1) as usize)
                    };
                    match res {
                        Some(q) => Value::Number(
                            crate::number::normalize(false, q as u128 + 1, 0),
                        ),
                        None => Value::Error(Error::Value),
                    }
                }
            },
            _ => Value::Error(Error::Value),
        }
    }
}

/// FIND: case-sensitive, wildcard-free, 1-based.
pub fn calculate_find(find_text: Value, within_text: Value, start_num: Value) -> (r: Value)
    ensures
        vview(r) == sp_find_like(vview(find_text), vview(within_text), vview(start_num), false),
{
    find_like_x(find_text, within_text, start_num, false)
}

/// SEARCH: case-insensitive, `?`/`*`/`~` wildcards, 1-based.
pub fn calculate_search(find_text: Value, within_text: Value, start_num: Value) -> (r: Value)
    ensures
        vview(r) == sp_find_like(vview(find_text), vview(within_text), vview(start_num), true),
{
    find_like_x(find_text, within_text, start_num, true)
}

} // verus!

verus! {

/// The operands of a search function: the needle, the searched text, and
/// an optional start (defaulting to one); any other operand count is an
/// argument error.  Operands evaluate from the last to the first.
pub open spec fn sp_find_args(values: Seq<FormulaV>, env: Option<Bindings>, fuel: nat) -> Option<
    (ValueV, ValueV, ValueV),
>
    decreases fuel,
{
    if fuel == 0 {
        Some(
            (
                ValueV::Error(Error::Reference),
                ValueV::Error(Error::Reference),
                ValueV::Error(Error::Reference),
            ),
        )
    } else if values.len() == 2 {
        Some(
            (
                sp_formula_v(values[0], env, (fuel - 1) as nat),
                sp_formula_v(values[1], env, (fuel - 1) as nat),
                ValueV::Number(Num::Finite { neg: false, mant: 1, exp: 0 }),
            ),
        )
    } else if values.len() == 3 {
        Some(
            (
                sp_formula_v(values[0], env, (fuel - 1) as nat),
                sp_formula_v(values[1], env, (fuel - 1) as nat),
                sp_formula_v(values[2], env, (fuel - 1) as nat),
            ),
        )
    } else {
        None
    }
}

fn find_args_x(exp: &Expression, refs: Option<&Bindings>, fuel: u64) -> (r: Option<
    (Value, Value, Value),
>)
    requires
        fuel <= crate::calculate::MAX_FUEL,
    ensures
        match r {
            Some(t) => sp_find_args(fview_seq(exp.values@), sp_env(refs), fuel as nat) == Some(
                (vview(t.0), vview(t.1), vview(t.2)),
            ),
            None => sp_find_args(fview_seq(exp.values@), sp_env(refs), fuel as nat) is None,
        },
    decreases fuel, 0int,
{
    if fuel == 0 {
        return Some(
            (
                Value::Error(Error::Reference),
                Value::Error(Error::Reference),
                Value::Error(Error::Reference),
            ),
        );
    }
    let n = exp.values.len();
    proof {
        lemma_fview_seq_len(exp.values@);
    }
    if n == 2 {
        proof {
            lemma_fview_seq_index(exp.values@, 0);
            lemma_fview_seq_index(exp.values@, 1);
        }
        let wt = crate::calculate::calculate_formula_ref(&exp.values[1], refs, fuel - 1);
        let ft = crate::calculate::calculate_formula_ref(&exp.values[0], refs, fuel - 1);
        Some((ft, wt, Value::Number(Num::Finite { neg: false, mant: 1, exp: 0 })))
    } else if n == 3 {
        proof {
            lemma_fview_seq_index(exp.values@, 0);
            lemma_fview_seq_index(exp.values@, 1);
            lemma_fview_seq_index(exp.values@, 2);
        }
        let sn = crate::calculate::calculate_formula_ref(&exp.values[2], refs, fuel - 1);
        let wt = crate::calculate::calculate_formula_ref(&exp.values[1], refs, fuel - 1);
        let ft = crate::calculate::calculate_formula_ref(&exp.values[0], refs, fuel - 1);
        Some((ft, wt, sn))
    } else {
        None
    }
}

/// A function application.
pub open spec fn sp_function(
    func: Function,
    values: Seq<FormulaV>,
    env: Option<Bindings>,
    fuel: nat,
) -> ValueV
    decreases fuel,
{
    if fuel == 0 {
        ValueV::Error(Error::Reference)
    } else {
        let fl = (fuel - 1) as nat;
        match func {
            Function::Abs => sp_abs(sp_unary_arg(values, env, fl)),
            Function::Sum => sp_collective(
                ValueV::Number(Num::Finite { neg: false, mant: 0, exp: 0 }),
                values,
                env,
                ArithOp::Add,
                false,
                fl,
            ),
            Function::Product => {
                let out = sp_collective(ValueV::Blank, values, env, ArithOp::Mul, true, fl);
                match out {
                    ValueV::Blank => ValueV::Number(Num::Finite { neg: false, mant: 0, exp: 0 }),
                    _ => out,
                }
            },
            Function::Average => {
                let lc = crate::calculate::operation::number::sp_avg_loop(
                    ValueV::Number(Num::Finite { neg: false, mant: 0, exp: 0 }),
                    0,
                    values,
                    env,
                    fl,
                );
                if lc.1 == 0 {
                    ValueV::Error(Error::Div0)
                } else {
                    crate::calculate::operation::number::sp_numeric_operator(
                        lc.0,
                        ValueV::Number(crate::calculate::operation::number::sp_num_of_count(lc.1)),
                        ArithOp::Div,
                        fl,
                    )
                }
            },
            Function::Or => sp_boolean_reduce(values, env, BoolOp::Or, true, fl),
            Function::And => sp_boolean_reduce(values, env, BoolOp::And, false, fl),
            Function::Xor => sp_boolean_reduce(values, env, BoolOp::Xor, true, fl),
            Function::Not => sp_negation(sp_unary_arg(values, env, fl)),
            Function::Negate => sp_negate(sp_unary_arg(values, env, fl)),
            Function::Days => {
                let ab = sp_binary_args(values, env, fl);
                sp_calculate_days(ab.1, ab.0)
            },
            Function::Right => {
                let sn = sp_number_and_string(values, env, fl);
                sp_right(sn.0, sn.1)
            },
            Function::Left => {
                let sn = sp_number_and_string(values, env, fl);
                sp_left(sn.0, sn.1)
            },
            Function::Iff => {
                let ctf = sp_ternary_args(values, env, fl);
                sp_iff(ctf.0, ctf.1, ctf.2)
            },
            Function::IsBlank => sp_isblank(sp_unary_arg(values, env, fl)),
            Function::Year => sp_calculate_year(sp_unary_arg(values, env, fl)),
            Function::Month => sp_calculate_month(sp_unary_arg(values, env, fl)),
            Function::Day => sp_calculate_day(sp_unary_arg(values, env, fl)),
            Function::IsError => sp_iserror(sp_unary_arg(values, env, fl)),
            Function::Find => match sp_find_args(values, env, fl) {
                Some(t) => sp_find_like(t.0, t.1, t.2, false),
                None => ValueV::Error(Error::Argument),
            },
            Function::Search => match sp_find_args(values, env, fl) {
                Some(t) => sp_find_like(t.0, t.1, t.2, true),
                None => ValueV::Error(Error::Argument),
            },
        }
    }
}

/// Applies a library function to its operand formulas.
pub fn calculate_function(func: Function, exp: &Expression, refs: Option<&Bindings>, fuel: u64) -> (r: Value)
    requires
        fuel <= MAX_FUEL,
    ensures
        vview(r) == sp_function(func, fview_seq(exp.values@), sp_env(refs), fuel as nat),
    decreases fuel, 0int,
{
    if fuel == 0 {
        Value::Error(Error::Reference)
    } else {
        let fl = fuel - 1;
        match func {
            Function::Abs => calculate_abs(get_unary_function_arg(exp, refs, fl)),
            Function::Sum => {
                let kk = exp.values.len();
                proof {
                    assert(exp.values@.subrange(0, kk as int) =~= exp.values@);
                }
                crate::calculate::operation::number::collective_ref(
                    Value::Number(Num::Finite { neg: false, mant: 0, exp: 0 }),
                    &exp.values,
                    kk,
                    refs,
                    ArithOp::Add,
                    false,
                    fl,
                )
            },
            Function::Product => {
                let kk = exp.values.len();
                proof {
                    assert(exp.values@.subrange(0, kk as int) =~= exp.values@);
                }
                let out = crate::calculate::operation::number::collective_ref(
                    Value::Blank,
                    &exp.values,
                    kk,
                    refs,
                    ArithOp::Mul,
                    true,
                    fl,
                );
                match out {
                    Value::Blank => Value::Number(Num::Finite { neg: false, mant: 0, exp: 0 }),
                    other => other,
                }
            },
            Function::Average => {
                let kk = exp.values.len();
                proof {
                    assert(exp.values@.subrange(0, kk as int) =~= exp.values@);
                }
                let lc = crate::calculate::operation::number::avg_loop_x(
                    Value::Number(Num::Finite { neg: false, mant: 0, exp: 0 }),
                    0,
                    &exp.values,
                    kk,
                    refs,
                    fl,
                );
                if lc.1 == 0 {
                    Value::Error(Error::Div0)
                } else {
                    let cnum = Num::from_i64(lc.1);
                    proof {
                        assert(cnum == crate::calculate::operation::number::sp_num_of_count(
                            lc.1 as int,
                        ));
                    }
                    crate::calculate::operation::number::calculate_numeric_operator(
                        lc.0,
                        Value::Number(cnum),
                        ArithOp::Div,
                        fl,
                    )
                }
            },
            Function::Or => calculate_boolean(exp, refs, BoolOp::Or, true, fl),
            Function::And => calculate_boolean(exp, refs, BoolOp::And, false, fl),
            Function::Xor => calculate_boolean(exp, refs, BoolOp::Xor, true, fl),
            Function::Not => calculate_negation(get_unary_function_arg(exp, refs, fl)),
            Function::Negate => calculate_negate(get_unary_function_arg(exp, refs, fl)),
            Function::Days => {
                let (endv, startv) = get_binary_function_args(exp, refs, fl);
                calculate_days(startv, endv)
            },
            Function::Right => {
                let (s, n) = get_number_and_string_values(exp, refs, fl);
                calculate_right(s, n)
            },
            Function::Left => {
                let (s, n) = get_number_and_string_values(exp, refs, fl);
                calculate_left(s, n)
            },
            Function::Iff => {
                let (c, t, f) = get_ternary_function_args(exp, refs, fl);
                calculate_iff(c, t, f)
            },
            Function::IsBlank => calculate_isblank(get_unary_function_arg(exp, refs, fl)),
            Function::Year => calculate_year(get_unary_function_arg(exp, refs, fl)),
            Function::Month => calculate_month(get_unary_function_arg(exp, refs, fl)),
            Function::Day => calculate_day(get_unary_function_arg(exp, refs, fl)),
            Function::IsError => calculate_iserror(get_unary_function_arg(exp, refs, fl)),
            Function::Find => match find_args_x(exp, refs, fl) {
                Some(t) => calculate_find(t.0, t.1, t.2),
                None => Value::Error(Error::Argument),
            },
            Function::Search => match find_args_x(exp, refs, fl) {
                Some(t) => calculate_search(t.0, t.1, t.2),
                None => Value::Error(Error::Argument),
            },
        }
    }
}

} // verus!
