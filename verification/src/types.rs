//! The data model: values, formulas, operators, functions, errors, and the
//! binding table that resolves references.

use vstd::prelude::*;
use crate::number::Num;
use crate::datetime::Timestamp;

verus! {

/// The functions of the fixed library.
#[derive(Debug, Copy, Clone, PartialEq, Eq, Structural)]
pub enum Function {
    Abs,
    Sum,
    Product,
    Average,
    Or,
    And,
    Xor,
    Not,
    Negate,
    Days,
    Right,
    Left,
    Iff,
    IsBlank,
    Year,
    Month,
    Day,
    Find,
    Search,
    IsError,
}

/// The operators of the formula language.
#[derive(Debug, Copy, Clone, PartialEq, Eq, Structural)]
pub enum Operator {
    Plus,
    Minus,
    Multiply,
    Divide,
    Power,
    Concat,
    Equal,
    NotEqual,
    Greater,
    Less,
    GreaterOrEqual,
    LessOrEqual,
    Function(Function),
}

/// The error kinds; each has a fixed display token.
#[derive(Debug, Copy, Clone, PartialEq, Eq, Structural)]
pub enum Error {
    Div0,
    Cast,
    Parse,
    Value,
    Argument,
    Reference,
}

/// A logical value.
#[derive(Debug, Copy, Clone, PartialEq, Eq, Structural)]
pub enum Boolean {
    True,
    False,
}

impl Boolean {
    pub fn from_bool(b: bool) -> (r: Boolean)
        ensures
            r == sp_boolean(b),
    {
        if b {
            Boolean::True
        } else {
            Boolean::False
        }
    }

    pub fn to_bool(self) -> (r: bool)
        ensures
            r == (self is True),
    {
        matches!(self, Boolean::True)
    }
}

pub open spec fn sp_boolean(b: bool) -> Boolean {
    if b {
        Boolean::True
    } else {
        Boolean::False
    }
}

/// The result of an evaluation: always fully resolved, never a formula.
#[derive(Debug, PartialEq)]
#[verifier::ext_equal]
pub enum Value {
    Number(Num),
    Text(String),
    Boolean(Boolean),
    Iterator(Vec<Value>),
    Error(Error),
    Date(Timestamp),
    Blank,
}

/// An operation node: an operator applied to ordered operand formulas.
#[derive(Debug)]
#[verifier::ext_equal]
pub struct Expression {
    pub op: Operator,
    pub values: Vec<Formula>,
}

/// An unevaluated expression tree.
#[derive(Debug)]
#[verifier::ext_equal]
pub enum Formula {
    Operation(Expression),
    Value(Value),
    Reference(String),
    Iterator(Vec<Formula>),
}

/// The reference table a host supplies: an ordered list of name-to-value
/// bindings, standing for the host's resolver.  The latest binding of a
/// name wins; an unbound name resolves to the value error, and references
/// are resolved without side effects.  A bound text value is re-parsed as
/// a formula each time a reference to its name is resolved, so chained
/// references work and a malformed text surfaces the parse error.
#[derive(Debug)]
pub struct Bindings {
    pub entries: Vec<(String, Value)>,
}

/// The latest value bound to `name`.
pub open spec fn sp_lookup(entries: Seq<(String, Value)>, name: Seq<char>) -> Option<Value>
    decreases entries.len(),
{
    if entries.len() == 0 {
        None
    } else if entries.last().0@ == name {
        Some(entries.last().1)
    } else {
        sp_lookup(entries.drop_last(), name)
    }
}

impl Bindings {
    pub fn new() -> (r: Bindings)
        ensures
            r.entries@.len() == 0,
    {
        Bindings { entries: Vec::new() }
    }

    /// Looks the latest binding of `name` up.
    pub fn lookup(&self, name: &str) -> (r: Option<&Value>)
        ensures
            match r {
                Some(v) => sp_lookup(self.entries@, name@) == Some(*v),
                None => sp_lookup(self.entries@, name@) is None,
            },
    {
        let n = self.entries.len();
        proof {
            assert(self.entries@.subrange(0, n as int) =~= self.entries@);
        }
        lookup_from(&self.entries, name, n)
    }
}

fn lookup_from<'a>(entries: &'a Vec<(String, Value)>, name: &str, upto: usize) -> (r: Option<
    &'a Value,
>)
    requires
        upto <= entries@.len(),
    ensures
        match r {
            Some(v) => sp_lookup(entries@.subrange(0, upto as int), name@) == Some(*v),
            None => sp_lookup(entries@.subrange(0, upto as int), name@) is None,
        },
    decreases upto,
{
    if upto == 0 {
        proof {
            assert(entries@.subrange(0, 0) =~= Seq::<(String, Value)>::empty());
        }
        None
    } else {
        let e = &entries[upto - 1];
        proof {
            assert(entries@.subrange(0, upto as int).last() == entries@[upto - 1]);
            assert(entries@.subrange(0, upto as int).drop_last() =~= entries@.subrange(
                0,
                upto as int - 1,
            ));
        }
        if str_eq(e.0.as_str(), name) {
            Some(&e.1)
        } else {
            lookup_from(entries, name, upto - 1)
        }
    }
}

/// The mathematical shape of a value: strings as character sequences,
/// arrays as sequences of shapes.  Contracts speak of values through this
/// view.
#[verifier::ext_equal]
pub enum ValueV {
    Number(Num),
    Text(Seq<char>),
    Boolean(Boolean),
    List(Seq<ValueV>),
    Error(Error),
    Date(Timestamp),
    Blank,
}

/// The mathematical shape of a formula.
#[verifier::ext_equal]
pub enum FormulaV {
    Operation(Operator, Seq<FormulaV>),
    Value(ValueV),
    Reference(Seq<char>),
    List(Seq<FormulaV>),
}

pub open spec fn vview_seq(s: Seq<Value>) -> Seq<ValueV>
    decreases s,
{
    if s.len() == 0 {
        Seq::empty()
    } else {
        vview_seq(s.drop_last()).push(vview(s.last()))
    }
}

/// The view of a value.
pub open spec fn vview(v: Value) -> ValueV
    decreases v,
{
    match v {
        Value::Number(n) => ValueV::Number(n),
        Value::Text(t) => ValueV::Text(t@),
        Value::Boolean(b) => ValueV::Boolean(b),
        Value::Iterator(vec) => ValueV::List(vview_seq(vec@)),
        Value::Error(e) => ValueV::Error(e),
        Value::Date(d) => ValueV::Date(d),
        Value::Blank => ValueV::Blank,
    }
}

pub open spec fn fview_seq(s: Seq<Formula>) -> Seq<FormulaV>
    decreases s,
{
    if s.len() == 0 {
        Seq::empty()
    } else {
        fview_seq(s.drop_last()).push(fview(s.last()))
    }
}

/// The view of a formula.
pub open spec fn fview(f: Formula) -> FormulaV
    decreases f,
{
    match f {
        Formula::Operation(exp) => FormulaV::Operation(exp.op, fview_seq(exp.values@)),
        Formula::Value(v) => FormulaV::Value(vview(v)),
        Formula::Reference(name) => FormulaV::Reference(name@),
        Formula::Iterator(vec) => FormulaV::List(fview_seq(vec@)),
    }
}

/// The view of a binding table.
pub open spec fn envview(entries: Seq<(String, Value)>) -> Seq<(Seq<char>, ValueV)>
    decreases entries,
{
    if entries.len() == 0 {
        Seq::empty()
    } else {
        envview(entries.drop_last()).push(
            (entries.last().0@, vview(entries.last().1)),
        )
    }
}

pub proof fn lemma_envview_len(entries: Seq<(String, Value)>)
    ensures
        envview(entries).len() == entries.len(),
    decreases entries,
{
    if entries.len() > 0 {
        lemma_envview_len(entries.drop_last());
    }
}

/// The element of a viewed sequence is the view of the element.
pub proof fn lemma_vview_seq_index(s: Seq<Value>, i: int)
    requires
        0 <= i < s.len(),
    ensures
        vview_seq(s).len() == s.len(),
        vview_seq(s)[i] == vview(s[i]),
    decreases s,
{
    lemma_vview_seq_len(s);
    if s.len() > 0 {
        if i < s.len() - 1 {
            lemma_vview_seq_index(s.drop_last(), i);
        }
    }
}

pub proof fn lemma_vview_seq_len(s: Seq<Value>)
    ensures
        vview_seq(s).len() == s.len(),
    decreases s,
{
    if s.len() > 0 {
        lemma_vview_seq_len(s.drop_last());
    }
}

pub proof fn lemma_fview_seq_index(s: Seq<Formula>, i: int)
    requires
        0 <= i < s.len(),
    ensures
        fview_seq(s).len() == s.len(),
        fview_seq(s)[i] == fview(s[i]),
    decreases s,
{
    lemma_fview_seq_len(s);
    if s.len() > 0 {
        if i < s.len() - 1 {
            lemma_fview_seq_index(s.drop_last(), i);
        }
    }
}

pub proof fn lemma_fview_seq_len(s: Seq<Formula>)
    ensures
        fview_seq(s).len() == s.len(),
    decreases s,
{
    if s.len() > 0 {
        lemma_fview_seq_len(s.drop_last());
    }
}

/// Appending an element appends its view.
pub proof fn lemma_vview_push(s: Seq<Value>, x: Value)
    ensures
        vview_seq(s.push(x)) == vview_seq(s).push(vview(x)),
{
    assert(s.push(x).drop_last() =~= s);
    assert(s.push(x).last() == x);
    assert(vview_seq(s.push(x)) == vview_seq(s.push(x).drop_last()).push(
        vview(s.push(x).last()),
    ));
}

pub proof fn lemma_fview_push(s: Seq<Formula>, x: Formula)
    ensures
        fview_seq(s.push(x)) == fview_seq(s).push(fview(x)),
{
    assert(s.push(x).drop_last() =~= s);
    assert(s.push(x).last() == x);
    assert(fview_seq(s.push(x)) == fview_seq(s.push(x).drop_last()).push(
        fview(s.push(x).last()),
    ));
}

/// Splitting the view of a nonempty sequence at its head.
pub proof fn lemma_vview_prepend(s: Seq<Value>)
    requires
        s.len() > 0,
    ensures
        vview_seq(s) =~= seq![vview(s[0])] + vview_seq(s.subrange(1, s.len() as int)),
    decreases s,
{
    lemma_vview_seq_len(s);
    if s.len() == 1 {
        assert(s.drop_last().len() == 0);
        assert(vview_seq(s) =~= seq![vview(s[0])]);
        assert(s.subrange(1, 1) =~= Seq::<Value>::empty());
    } else {
        lemma_vview_prepend(s.drop_last());
        assert(s.drop_last()[0] == s[0]);
        assert(s.drop_last().subrange(1, s.drop_last().len() as int) =~= s.subrange(
            1,
            s.len() as int,
        ).drop_last());
        assert(vview_seq(s) == vview_seq(s.drop_last()).push(vview(s.last())));
        assert(vview_seq(s.subrange(1, s.len() as int)) == vview_seq(
            s.subrange(1, s.len() as int).drop_last(),
        ).push(vview(s.subrange(1, s.len() as int).last())));
        assert(s.subrange(1, s.len() as int).last() == s.last());
    }
}

/// The viewed prefix of length `k`: its last element and shorter prefix.
pub proof fn lemma_fsub_step(s: Seq<Formula>, k: int)
    requires
        1 <= k <= s.len(),
    ensures
        fview_seq(s.subrange(0, k)).len() == k,
        fview_seq(s.subrange(0, k)).last() == fview(s[k - 1]),
        fview_seq(s.subrange(0, k)).drop_last() == fview_seq(s.subrange(0, k - 1)),
{
    lemma_fview_seq_len(s.subrange(0, k));
    lemma_fview_seq_index(s.subrange(0, k), k - 1);
    assert(s.subrange(0, k)[k - 1] == s[k - 1]);
    assert(s.subrange(0, k).drop_last() =~= s.subrange(0, k - 1));
    assert(fview_seq(s.subrange(0, k)).drop_last() =~= fview_seq(s.subrange(0, k).drop_last()));
}

/// A new first element, in front of a freshly built vector.
pub fn cons_value(v: Value, rest: Vec<Value>) -> (r: Vec<Value>)
    ensures
        vview_seq(r@) == seq![vview(v)] + vview_seq(rest@),
{
    let ghost rv = rest@;
    let mut rest = rest;
    rest.insert(0, v);
    proof {
        lemma_vview_prepend(rest@);
        assert(rest@[0] == v);
        assert(rest@.subrange(1, rest@.len() as int) =~= rv);
        assert(vview_seq(rest@) =~= seq![vview(v)] + vview_seq(rv));
    }
    rest
}

/// A fresh value with the same view.
pub fn copy_value(v: &Value) -> (r: Value)
    ensures
        vview(r) == vview(*v),
    decreases v,
{
    match v {
        Value::Number(n) => Value::Number(*n),
        Value::Text(t) => Value::Text(t.clone()),
        Value::Boolean(b) => Value::Boolean(*b),
        Value::Error(e) => Value::Error(*e),
        Value::Date(d) => Value::Date(*d),
        Value::Blank => Value::Blank,
        Value::Iterator(vec) => {
            let mut out: Vec<Value> = Vec::new();
            let mut i: usize = 0;
            let n = vec.len();
            while i < n
                invariant
                    i <= n,
                    n == vec@.len(),
                    out@.len() == i,
                    *v == Value::Iterator(*vec),
                    vview_seq(out@) =~= vview_seq(vec@.subrange(0, i as int)),
                decreases n - i,
            {
                proof {
                    assert(decreases_to!(*v => (*v)->Iterator_0));
                    assert((*v)->Iterator_0 == *vec);
                    assert(decreases_to!(*vec => vec@[i as int]));
                }
                let c = copy_value(&vec[i]);
                let ghost prev = out@;
                let ghost cv = c;
                out.push(c);
                i = i + 1;
                proof {
                    assert(out@.drop_last() =~= prev);
                    assert(out@.last() == cv);
                    assert(vview_seq(out@) == vview_seq(prev).push(vview(cv)));
                    assert(vec@.subrange(0, i as int).drop_last() =~= vec@.subrange(
                        0,
                        i as int - 1,
                    ));
                    assert(vec@.subrange(0, i as int).last() == vec@[i as int - 1]);
                    assert(vview_seq(vec@.subrange(0, i as int)) == vview_seq(
                        vec@.subrange(0, i as int - 1),
                    ).push(vview(vec@[i as int - 1])));
                    assert(vview_seq(out@) =~= vview_seq(vec@.subrange(0, i as int)));
                }
            }
            proof {
                assert(vec@.subrange(0, n as int) =~= vec@);
                assert(vview(Value::Iterator(out)) =~= vview(*v));
            }
            Value::Iterator(out)
        },
    }
}

/// Whether two strings hold the same characters.
pub fn str_eq(a: &str, b: &str) -> (r: bool)
    ensures
        r == (a@ == b@),
{
    let n = a.unicode_len();
    if n != b.unicode_len() {
        proof {
            assert(a@ != b@);
        }
        return false;
    }
    let mut i: usize = 0;
    while i < n
        invariant
            i <= n,
            n == a@.len() && n == b@.len(),
            forall|j: int| 0 <= j < i ==> a@[j] == b@[j],
        decreases n - i,
    {
        if a.get_char(i) != b.get_char(i) {
            proof {
                assert(a@[i as int] != b@[i as int]);
            }
            return false;
        }
        i = i + 1;
    }
    proof {
        assert(a@ =~= b@);
    }
    true
}

/// An owned copy of a string slice.
pub fn clone_str(s: &str) -> (r: String)
    ensures
        r@ == s@,
{
    String::from_str(s)
}

} // verus!

verus! {

/// The arithmetic of a binary numeric operator.
#[derive(Debug, Copy, Clone, PartialEq, Eq, Structural)]
pub enum ArithOp {
    Add,
    Sub,
    Mul,
    Div,
    Pow,
}

/// A comparison operator.
#[derive(Debug, Copy, Clone, PartialEq, Eq, Structural)]
pub enum CmpOp {
    Eq,
    Ne,
    Gt,
    Lt,
    Ge,
    Le,
}

/// A boolean reducer's connective.
#[derive(Debug, Copy, Clone, PartialEq, Eq, Structural)]
pub enum BoolOp {
    Or,
    And,
    Xor,
}

} // verus!
