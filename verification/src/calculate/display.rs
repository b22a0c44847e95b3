//! Display of results: numbers (an infinite number shows the
//! division-by-zero token), booleans, errors, arrays and dates.

use vstd::prelude::*;
use crate::number::{Num, format_num, sp_format_num, push_char, str_chars};
use crate::datetime::{format_ts, sp_format_ts};
use crate::types::{Value, Error, Boolean};

verus! {

pub open spec fn sp_error_text(e: Error) -> Seq<char> {
    match e {
        Error::Div0 => seq!['#', 'D', 'I', 'V', '/', '0', '!'],
        Error::Cast => seq!['#', 'C', 'A', 'S', 'T', '!'],
        Error::Parse => seq!['#', 'P', 'A', 'R', 'S', 'E', '!'],
        Error::Value => seq!['#', 'V', 'A', 'L', 'U', 'E', '!'],
        Error::Argument => seq!['#', 'A', 'R', 'G', '!'],
        Error::Reference => seq!['#', 'R', 'E', 'F', '!'],
    }
}

/// The fixed display token of an error.
pub fn error_text(e: Error) -> (r: String)
    ensures
        r@ == sp_error_text(e),
{
    let mut s = String::new();
    push_char(&mut s, '#');
    match e {
        Error::Div0 => {
            push_char(&mut s, 'D');
            push_char(&mut s, 'I');
            push_char(&mut s, 'V');
            push_char(&mut s, '/');
            push_char(&mut s, '0');
        },
        Error::Cast => {
            push_char(&mut s, 'C');
            push_char(&mut s, 'A');
            push_char(&mut s, 'S');
            push_char(&mut s, 'T');
        },
        Error::Parse => {
            push_char(&mut s, 'P');
            push_char(&mut s, 'A');
            push_char(&mut s, 'R');
            push_char(&mut s, 'S');
            push_char(&mut s, 'E');
        },
        Error::Value => {
            push_char(&mut s, 'V');
            push_char(&mut s, 'A');
            push_char(&mut s, 'L');
            push_char(&mut s, 'U');
            push_char(&mut s, 'E');
        },
        Error::Argument => {
            push_char(&mut s, 'A');
            push_char(&mut s, 'R');
            push_char(&mut s, 'G');
        },
        Error::Reference => {
            push_char(&mut s, 'R');
            push_char(&mut s, 'E');
            push_char(&mut s, 'F');
        },
    }
    push_char(&mut s, '!');
    proof {
        assert(s@ =~= sp_error_text(e));
    }
    s
}

pub open spec fn sp_boolean_text(b: Boolean) -> Seq<char> {
    match b {
        Boolean::True => seq!['T', 'R', 'U', 'E'],
        Boolean::False => seq!['F', 'A', 'L', 'S', 'E'],
    }
}

/// `TRUE` or `FALSE`.
pub fn boolean_text(b: Boolean) -> (r: String)
    ensures
        r@ == sp_boolean_text(b),
{
    let mut s = String::new();
    match b {
        Boolean::True => {
            push_char(&mut s, 'T');
            push_char(&mut s, 'R');
            push_char(&mut s, 'U');
            push_char(&mut s, 'E');
        },
        Boolean::False => {
            push_char(&mut s, 'F');
            push_char(&mut s, 'A');
            push_char(&mut s, 'L');
            push_char(&mut s, 'S');
            push_char(&mut s, 'E');
        },
    }
    proof {
        assert(s@ =~= sp_boolean_text(b));
    }
    s
}

pub open spec fn sp_show_number(n: Num) -> Seq<char> {
    if n is Infinite {
        sp_error_text(Error::Div0)
    } else {
        sp_format_num(n)
    }
}

/// A number's display text; an infinite value shows the division-by-zero
/// token.
pub fn show_number(number: Num) -> (r: String)
    ensures
        r@ == sp_show_number(number),
{
    if number.is_infinite() {
        error_text(Error::Div0)
    } else {
        format_num(number)
    }
}

/// What a blank shows: the zero rendering.
pub fn show_blank() -> (r: String)
    ensures
        r@ == seq!['0'],
{
    let mut s = String::new();
    push_char(&mut s, '0');
    proof {
        assert(s@ =~= seq!['0']);
    }
    s
}

/// The element texts of an array, each followed by a comma.
pub open spec fn sp_show_inner(s: Seq<Value>) -> Seq<char>
    decreases s, 0int,
{
    if s.len() == 0 {
        Seq::empty()
    } else {
        sp_show_inner(s.drop_last()) + sp_result_to_string(s.last()) + seq![',']
    }
}

/// Trailing commas stripped (as the array rendering does).
pub open spec fn sp_strip_commas(s: Seq<char>) -> Seq<char>
    decreases s.len(),
{
    if s.len() > 0 && s.last() == ',' {
        sp_strip_commas(s.drop_last())
    } else {
        s
    }
}

pub open spec fn sp_show_iterator(s: Seq<Value>) -> Seq<char>
    decreases s, 1int,
{
    seq!['{'] + sp_strip_commas(sp_show_inner(s)) + seq!['}']
}

/// The display text of a value.
pub open spec fn sp_result_to_string(v: Value) -> Seq<char>
    decreases v, 2int,
{
    match v {
        Value::Number(n) => sp_show_number(n),
        Value::Text(t) => t@,
        Value::Error(e) => sp_error_text(e),
        Value::Boolean(b) => sp_boolean_text(b),
        Value::Iterator(vec) => sp_show_iterator(vec@),
        Value::Date(d) => sp_format_ts(d),
        Value::Blank => seq!['0'],
    }
}

/// Renders a value.
pub fn show_value(v: Value) -> (r: String)
    ensures
        r@ == sp_result_to_string(v),
{
    show_value_ref(&v)
}

/// Renders an array as `{a,b,c}`, elements comma-joined in order (with
/// trailing commas of the joined text stripped).
pub fn show_iterator(value_vec: Vec<Value>) -> (r: String)
    ensures
        r@ == sp_show_iterator(value_vec@),
{
    let v = Value::Iterator(value_vec);
    show_value_ref(&v)
}

fn show_value_ref(v: &Value) -> (r: String)
    ensures
        r@ == sp_result_to_string(*v),
    decreases v,
{
    match v {
        Value::Number(n) => show_number(*n),
        Value::Text(t) => t.clone(),
        Value::Error(e) => error_text(*e),
        Value::Boolean(b) => boolean_text(*b),
        Value::Date(d) => format_ts(*d),
        Value::Blank => show_blank(),
        Value::Iterator(vec) => {
            let mut buf: Vec<char> = Vec::new();
            let mut i: usize = 0;
            let n = vec.len();
            while i < n
                invariant
                    i <= n,
                    n == vec@.len(),
                    *v == Value::Iterator(*vec),
                    buf@ == sp_show_inner(vec@.subrange(0, i as int)),
                decreases n - i,
            {
                proof {
                    assert(decreases_to!(*v => (*v)->Iterator_0));
                    assert((*v)->Iterator_0 == *vec);
                    assert(decreases_to!(*vec => vec@[i as int]));
                }
                let t = show_value_ref(&vec[i]);
                let tchars = str_chars(t.as_str());
                let mut j: usize = 0;
                let m = tchars.len();
                proof {
                    assert(buf@ =~= sp_show_inner(vec@.subrange(0, i as int)) + tchars@.subrange(
                        0,
                        0,
                    ));
                }
                while j < m
                    invariant
                        j <= m,
                        m == tchars@.len(),
                        i < n,
                        n == vec@.len(),
                        buf@ == sp_show_inner(vec@.subrange(0, i as int)) + tchars@.subrange(
                            0,
                            j as int,
                        ),
                    decreases m - j,
                {
                    buf.push(tchars[j]);
                    j = j + 1;
                    proof {
                        assert(buf@ =~= sp_show_inner(vec@.subrange(0, i as int))
                            + tchars@.subrange(0, j as int));
                    }
                }
                buf.push(',');
                i = i + 1;
                proof {
                    assert(vec@.subrange(0, i as int).drop_last() =~= vec@.subrange(
                        0,
                        i as int - 1,
                    ));
                    assert(vec@.subrange(0, i as int).last() == vec@[i as int - 1]);
                    assert(tchars@.subrange(0, m as int) =~= tchars@);
                    assert(buf@ =~= sp_show_inner(vec@.subrange(0, i as int)));
                }
            }
            proof {
                assert(vec@.subrange(0, n as int) =~= vec@);
            }
            while buf.len() > 0 && buf[buf.len() - 1] == ','
                invariant
                    sp_strip_commas(buf@) == sp_strip_commas(sp_show_inner(vec@)),
                decreases buf.len(),
            {
                buf.pop();
            }
            let mut out = String::new();
            push_char(&mut out, '{');
            let mut k: usize = 0;
            let bn = buf.len();
            while k < bn
                invariant
                    k <= bn,
                    bn == buf@.len(),
                    out@ == seq!['{'] + buf@.subrange(0, k as int),
                decreases bn - k,
            {
                push_char(&mut out, buf[k]);
                k = k + 1;
                proof {
                    assert(out@ =~= seq!['{'] + buf@.subrange(0, k as int));
                }
            }
            push_char(&mut out, '}');
            proof {
                assert(buf@.subrange(0, bn as int) =~= buf@);
                assert(buf@.len() == 0 || buf@.last() != ',');
                assert(sp_strip_commas(buf@) == buf@);
                assert(out@ =~= sp_show_iterator(vec@));
            }
            out
        },
    }
}

} // verus!
