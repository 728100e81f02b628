use vstd::prelude::*;
use crate::interner::StringInterner;
use crate::text::int_text;
use crate::text::int_to_string;

verus! {

broadcast use {
    vstd::std_specs::vec::axiom_vec_index_decreases,
    vstd::std_specs::vec::axiom_vec_decreases_to_view,
    vstd::seq::axiom_seq_index_decreases,
    vstd::seq::axiom_seq_subrange_decreases,
};

/// Tag for each host-implemented procedure of the fixed native table.
#[derive(Debug, Clone, Copy, PartialEq, Eq)]
pub enum NativeOp {
    PolyEq,
    IsNull,
    IsBoolean,
    IsSymbol,
    IsInteger,
    IsChar,
    IsString,
    IsProcedure,
    IsList,
    CharToInteger,
    IntegerToChar,
    NumberToString,
    StringToNumber,
    SymbolToString,
    StringToSymbol,
    Plus,
    Minus,
    Multiply,
    Quotient,
    Remainder,
    NumEq,
    Gt,
    Ge,
    Lt,
    Le,
    MakeList,
    First,
    Rest,
    SymbolSpace,
}

/// A syntactic form evaluated by its own rule, carrying its operand
/// expressions; recognized before symbol lookup, so these keywords are
/// not ordinary bindings and cannot be shadowed.
#[derive(Debug, PartialEq)]
pub enum SpecialForm {
    /// Return the operand unevaluated.
    Quote(Value),
    /// Evaluate the test; everything but `#f` selects the first branch.
    If(Value, Value, Value),
    /// Evaluate the operand and bind it to the handle in the current frame.
    Define(usize, Value),
    /// Build a closure over the current frame.
    Lambda(Vec<usize>, Value),
}

/// A user-defined procedure: parameter handles, body expression, and the
/// frame that was current at its definition point (lexical scoping).
#[derive(Debug, PartialEq)]
pub struct Procedure {
    pub params: Vec<usize>,
    pub body: Value,
    pub env: usize,
}

/// The closed sum of every runtime datum.
#[derive(Debug, PartialEq)]
pub enum Value {
    Null,
    Boolean(bool),
    Integer(i64),
    Character(char),
    Str(String),
    Symbol(usize),
    List(Vec<Value>),
    NativeProcedure(NativeOp),
    Procedure(Box<Procedure>),
    SpecialForm(Box<SpecialForm>),
    Condition(Box<Value>),
}

/// Mathematical image of a `Procedure`.
pub struct ProcV {
    pub params: Seq<usize>,
    pub body: Box<Val>,
    pub env: usize,
}

/// Mathematical image of a `SpecialForm`.
pub enum FormV {
    Quote(Box<Val>),
    If(Box<Val>, Box<Val>, Box<Val>),
    Define(usize, Box<Val>),
    Lambda(Seq<usize>, Box<Val>),
}

/// Mathematical image of a `Value`: the same tree over `Seq` and `int`.
pub enum Val {
    Null,
    Bool(bool),
    Int(int),
    Char(char),
    Str(Seq<char>),
    Sym(usize),
    List(Seq<Val>),
    Native(NativeOp),
    Proc(ProcV),
    Form(FormV),
    Cond(Box<Val>),
}

/// The mathematical value a `Value` stands for.
pub open spec fn deep(v: Value) -> Val
    decreases v,
{
    match v {
        Value::Null => Val::Null,
        Value::Boolean(b) => Val::Bool(b),
        Value::Integer(i) => Val::Int(i as int),
        Value::Character(c) => Val::Char(c),
        Value::Str(s) => Val::Str(s@),
        Value::Symbol(h) => Val::Sym(h),
        Value::List(items) => Val::List(deep_seq(items@)),
        Value::NativeProcedure(op) => Val::Native(op),
        Value::Procedure(p) => Val::Proc(
            ProcV { params: p.params@, body: Box::new(deep(p.body)), env: p.env },
        ),
        Value::SpecialForm(f) => Val::Form(deep_form(*f)),
        Value::Condition(p) => Val::Cond(Box::new(deep(*p))),
    }
}

pub open spec fn deep_seq(s: Seq<Value>) -> Seq<Val>
    decreases s,
{
    if s.len() == 0 {
        Seq::empty()
    } else {
        seq![deep(s[0])] + deep_seq(s.subrange(1, s.len() as int))
    }
}

pub open spec fn deep_form(f: SpecialForm) -> FormV
    decreases f,
{
    match f {
        SpecialForm::Quote(e) => FormV::Quote(Box::new(deep(e))),
        SpecialForm::If(c, t, e) => FormV::If(
            Box::new(deep(c)),
            Box::new(deep(t)),
            Box::new(deep(e)),
        ),
        SpecialForm::Define(h, e) => FormV::Define(h, Box::new(deep(e))),
        SpecialForm::Lambda(ps, b) => FormV::Lambda(ps@, Box::new(deep(b))),
    }
}

impl View for Value {
    type V = Val;

    open spec fn view(&self) -> Val {
        deep(*self)
    }
}

/// `deep_seq` is the element-wise image.
pub proof fn lemma_deep_seq_index(s: Seq<Value>, i: int)
    requires
        0 <= i < s.len(),
    ensures
        deep_seq(s).len() == s.len(),
        deep_seq(s)[i] == deep(s[i]),
    decreases s.len(),
{
    lemma_deep_seq_len(s);
    if i > 0 {
        lemma_deep_seq_index(s.subrange(1, s.len() as int), i - 1);
    }
}

pub proof fn lemma_deep_seq_len(s: Seq<Value>)
    ensures
        deep_seq(s).len() == s.len(),
    decreases s.len(),
{
    if s.len() > 0 {
        lemma_deep_seq_len(s.subrange(1, s.len() as int));
    }
}

/// Well-formedness of a value against the interner and frame arena
/// sizes: every symbol handle resolves and every captured environment
/// index names an existing frame.
pub open spec fn wf_val(v: Val, nsyms: nat, nframes: nat) -> bool
    decreases v,
{
    match v {
        Val::Sym(h) => h < nsyms,
        Val::List(items) => forall|i: int|
            0 <= i < items.len() ==> wf_val(#[trigger] items[i], nsyms, nframes),
        Val::Proc(p) => p.env < nframes && wf_val(*p.body, nsyms, nframes),
        Val::Form(f) => wf_form(f, nsyms, nframes),
        Val::Cond(p) => wf_val(*p, nsyms, nframes),
        _ => true,
    }
}

pub open spec fn wf_form(f: FormV, nsyms: nat, nframes: nat) -> bool
    decreases f,
{
    match f {
        FormV::Quote(e) => wf_val(*e, nsyms, nframes),
        FormV::If(c, t, e) => wf_val(*c, nsyms, nframes) && wf_val(*t, nsyms, nframes)
            && wf_val(*e, nsyms, nframes),
        FormV::Define(h, e) => h < nsyms && wf_val(*e, nsyms, nframes),
        FormV::Lambda(ps, b) => (forall|i: int| 0 <= i < ps.len() ==> #[trigger] ps[i] < nsyms)
            && wf_val(*b, nsyms, nframes),
    }
}

/// Well-formedness only ever asks that indices lie below the table
/// sizes, so it survives growth of both tables.
pub proof fn lemma_wf_val_mono(v: Val, n1: nat, f1: nat, n2: nat, f2: nat)
    requires
        wf_val(v, n1, f1),
        n1 <= n2,
        f1 <= f2,
    ensures
        wf_val(v, n2, f2),
    decreases v,
{
    match v {
        Val::List(items) => {
            assert forall|i: int| 0 <= i < items.len() implies wf_val(
                #[trigger] items[i],
                n2,
                f2,
            ) by {
                lemma_wf_val_mono(items[i], n1, f1, n2, f2);
            }
        },
        Val::Proc(p) => {
            lemma_wf_val_mono(*p.body, n1, f1, n2, f2);
        },
        Val::Form(f) => {
            lemma_wf_form_mono(f, n1, f1, n2, f2);
        },
        Val::Cond(p) => {
            lemma_wf_val_mono(*p, n1, f1, n2, f2);
        },
        _ => {},
    }
}

/// Relies on `String::push`: appends exactly the given character.
pub assume_specification[ String::push ](s: &mut String, c: char)
    ensures
        final(s)@ == old(s)@.push(c),
;

/// Printed form of a value, suitable for condition payloads: enough
/// text to reconstruct the offending symbol, value, or operation.
pub open spec fn printed(v: Val, syms: Seq<Seq<char>>) -> Seq<char>
    decreases v,
{
    match v {
        Val::Null => "()"@,
        Val::Bool(b) => if b {
            "#t"@
        } else {
            "#f"@
        },
        Val::Int(i) => int_text(i),
        Val::Char(c) => "#\\"@.push(c),
        Val::Str(s) => "\""@ + s + "\""@,
        Val::Sym(h) => if h < syms.len() {
            syms[h as int]
        } else {
            "#<unknown symbol>"@
        },
        Val::List(items) => "("@ + printed_items(items, syms) + ")"@,
        Val::Native(_) => "#<native procedure>"@,
        Val::Proc(_) => "#<procedure>"@,
        Val::Form(_) => "#<special form>"@,
        Val::Cond(p) => "#<condition: "@ + printed(*p, syms) + ">"@,
    }
}

/// Printed forms of list elements, separated by single spaces.
pub open spec fn printed_items(items: Seq<Val>, syms: Seq<Seq<char>>) -> Seq<char>
    decreases items,
{
    if items.len() == 0 {
        Seq::empty()
    } else if items.len() == 1 {
        printed(items[0], syms)
    } else {
        printed(items[0], syms) + " "@ + printed_items(items.subrange(1, items.len() as int), syms)
    }
}

/// Render a value as display text, resolving symbol handles through the
/// interner.
pub fn to_text(v: &Value, interner: &StringInterner) -> (r: String)
    ensures
        r@ == printed(deep(*v), interner@),
    decreases v, 0int, 0int,
{
    match v {
        Value::Null => String::from_str("()"),
        Value::Boolean(b) => if *b {
            String::from_str("#t")
        } else {
            String::from_str("#f")
        },
        Value::Integer(i) => int_to_string(*i),
        Value::Character(c) => {
            let mut r = String::from_str("#\\");
            r.push(*c);
            r
        },
        Value::Str(s) => {
            let mut r = String::from_str("\"");
            r.append(s.as_str());
            r.append("\"");
            proof {
                assert(r@ =~= printed(deep(*v), interner@));
            }
            r
        },
        Value::Symbol(h) => {
            if *h < interner.len() {
                interner.resolve(*h).clone()
            } else {
                String::from_str("#<unknown symbol>")
            }
        },
        Value::List(items) => {
            let mut r = String::from_str("(");
            let inner = to_text_items(items, 0, interner);
            r.append(inner.as_str());
            r.append(")");
            proof {
                assert(deep_seq(items@).subrange(0, deep_seq(items@).len() as int) =~= deep_seq(
                    items@,
                ));
                assert(r@ =~= printed(deep(*v), interner@));
            }
            r
        },
        Value::NativeProcedure(_) => String::from_str("#<native procedure>"),
        Value::Procedure(_) => String::from_str("#<procedure>"),
        Value::SpecialForm(_) => String::from_str("#<special form>"),
        Value::Condition(p) => {
            let mut r = String::from_str("#<condition: ");
            let inner = to_text(p, interner);
            r.append(inner.as_str());
            r.append(">");
            proof {
                assert(r@ =~= printed(deep(*v), interner@));
            }
            r
        },
    }
}

fn to_text_items(items: &Vec<Value>, start: usize, interner: &StringInterner) -> (r: String)
    requires
        start <= items@.len(),
    ensures
        r@ == printed_items(
            deep_seq(items@).subrange(start as int, deep_seq(items@).len() as int),
            interner@,
        ),
    decreases items, 1int, items@.len() - start,
{
    proof {
        lemma_deep_seq_len(items@);
    }
    if start == items.len() {
        let r = String::new();
        proof {
            assert(r@ =~= printed_items(
                deep_seq(items@).subrange(start as int, deep_seq(items@).len() as int),
                interner@,
            ));
        }
        r
    } else {
        let mut r = to_text(&items[start], interner);
        proof {
            lemma_deep_seq_index(items@, start as int);
        }
        if start + 1 == items.len() {
            proof {
                let whole = deep_seq(items@).subrange(start as int, deep_seq(items@).len() as int);
                assert(whole.len() == 1);
                assert(whole[0] == deep(items@[start as int]));
            }
            r
        } else {
            r.append(" ");
            let rest = to_text_items(items, start + 1, interner);
            r.append(rest.as_str());
            proof {
                let all = deep_seq(items@);
                let whole = all.subrange(start as int, all.len() as int);
                assert(whole.subrange(1, whole.len() as int) =~= all.subrange(
                    start + 1,
                    all.len() as int,
                ));
                assert(whole[0] == deep(items@[start as int]));
                assert(r@ =~= printed_items(whole, interner@));
            }
            r
        }
    }
}

pub proof fn lemma_wf_form_mono(f: FormV, n1: nat, f1: nat, n2: nat, f2: nat)
    requires
        wf_form(f, n1, f1),
        n1 <= n2,
        f1 <= f2,
    ensures
        wf_form(f, n2, f2),
    decreases f,
{
    match f {
        FormV::Quote(e) => lemma_wf_val_mono(*e, n1, f1, n2, f2),
        FormV::If(c, t, e) => {
            lemma_wf_val_mono(*c, n1, f1, n2, f2);
            lemma_wf_val_mono(*t, n1, f1, n2, f2);
            lemma_wf_val_mono(*e, n1, f1, n2, f2);
        },
        FormV::Define(_, e) => lemma_wf_val_mono(*e, n1, f1, n2, f2),
        FormV::Lambda(_, b) => lemma_wf_val_mono(*b, n1, f1, n2, f2),
    }
}

/// A structurally identical copy: the evaluator returns copies of
/// self-evaluating inputs and of looked-up bindings.
pub fn duplicate(v: &Value) -> (r: Value)
    ensures
        deep(r) == deep(*v),
    decreases v,
{
    match v {
        Value::Null => Value::Null,
        Value::Boolean(b) => Value::Boolean(*b),
        Value::Integer(i) => Value::Integer(*i),
        Value::Character(c) => Value::Character(*c),
        Value::Str(s) => Value::Str(s.clone()),
        Value::Symbol(h) => Value::Symbol(*h),
        Value::List(items) => Value::List(duplicate_vec(items)),
        Value::NativeProcedure(op) => Value::NativeProcedure(*op),
        Value::Procedure(p) => Value::Procedure(
            Box::new(
                Procedure {
                    params: duplicate_params(&p.params),
                    body: duplicate(&p.body),
                    env: p.env,
                },
            ),
        ),
        Value::SpecialForm(f) => Value::SpecialForm(Box::new(duplicate_form(f))),
        Value::Condition(p) => Value::Condition(Box::new(duplicate(p))),
    }
}

fn duplicate_vec(items: &Vec<Value>) -> (r: Vec<Value>)
    ensures
        deep_seq(r@) == deep_seq(items@),
        r@.len() == items@.len(),
    decreases items, 1int,
{
    let n = items.len();
    let mut out: Vec<Value> = Vec::new();
    let mut i: usize = 0;
    while i < n
        invariant
            n == items@.len(),
            out@.len() == i <= n,
            forall|j: int| 0 <= j < i ==> deep(#[trigger] out@[j]) == deep(items@[j]),
        decreases n - i,
    {
        out.push(duplicate(&items[i]));
        i = i + 1;
    }
    proof {
        assert forall|j: int| 0 <= j < n implies deep_seq(out@)[j] == deep_seq(items@)[j] by {
            lemma_deep_seq_index(out@, j);
            lemma_deep_seq_index(items@, j);
        }
        lemma_deep_seq_len(out@);
        lemma_deep_seq_len(items@);
        assert(deep_seq(out@) =~= deep_seq(items@));
    }
    out
}

pub fn duplicate_params(params: &Vec<usize>) -> (r: Vec<usize>)
    ensures
        r@ == params@,
{
    let r = params.clone();
    proof {
        assert(r@ =~= params@);
    }
    r
}

fn duplicate_form(f: &SpecialForm) -> (r: SpecialForm)
    ensures
        deep_form(r) == deep_form(*f),
    decreases f,
{
    match f {
        SpecialForm::Quote(e) => SpecialForm::Quote(duplicate(e)),
        SpecialForm::If(c, t, e) => SpecialForm::If(duplicate(c), duplicate(t), duplicate(e)),
        SpecialForm::Define(h, e) => SpecialForm::Define(*h, duplicate(e)),
        SpecialForm::Lambda(ps, b) => SpecialForm::Lambda(duplicate_params(ps), duplicate(b)),
    }
}

/// Decides structural equality of the mathematical values two data
/// stand for; the `eq?` native answers with it.
pub fn value_eq(a: &Value, b: &Value) -> (r: bool)
    ensures
        r == (deep(*a) == deep(*b)),
    decreases a,
{
    match (a, b) {
        (Value::Null, Value::Null) => true,
        (Value::Boolean(x), Value::Boolean(y)) => x == y,
        (Value::Integer(x), Value::Integer(y)) => x == y,
        (Value::Character(x), Value::Character(y)) => x == y,
        (Value::Str(x), Value::Str(y)) => x.eq(y),
        (Value::Symbol(x), Value::Symbol(y)) => x == y,
        (Value::List(x), Value::List(y)) => value_vec_eq(x, y),
        (Value::NativeProcedure(x), Value::NativeProcedure(y)) => native_op_eq(*x, *y),
        (Value::Procedure(x), Value::Procedure(y)) => {
            let pe = params_eq(&x.params, &y.params);
            pe && x.env == y.env && value_eq(&x.body, &y.body)
        },
        (Value::SpecialForm(x), Value::SpecialForm(y)) => form_eq(x, y),
        (Value::Condition(x), Value::Condition(y)) => value_eq(x, y),
        _ => false,
    }
}

fn value_vec_eq(x: &Vec<Value>, y: &Vec<Value>) -> (r: bool)
    ensures
        r == (deep_seq(x@) == deep_seq(y@)),
    decreases x, 1int,
{
    proof {
        lemma_deep_seq_len(x@);
        lemma_deep_seq_len(y@);
    }
    if x.len() != y.len() {
        return false;
    }
    let n = x.len();
    let mut i: usize = 0;
    while i < n
        invariant
            n == x@.len() == y@.len(),
            i <= n,
            forall|j: int| 0 <= j < i ==> deep(#[trigger] x@[j]) == deep(y@[j]),
        decreases n - i,
    {
        if !value_eq(&x[i], &y[i]) {
            proof {
                lemma_deep_seq_index(x@, i as int);
                lemma_deep_seq_index(y@, i as int);
            }
            return false;
        }
        i = i + 1;
    }
    proof {
        assert forall|j: int| 0 <= j < n implies deep_seq(x@)[j] == deep_seq(y@)[j] by {
            lemma_deep_seq_index(x@, j);
            lemma_deep_seq_index(y@, j);
        }
        assert(deep_seq(x@) =~= deep_seq(y@));
    }
    true
}

fn params_eq(x: &Vec<usize>, y: &Vec<usize>) -> (r: bool)
    ensures
        r == (x@ == y@),
{
    if x.len() != y.len() {
        return false;
    }
    let n = x.len();
    let mut i: usize = 0;
    while i < n
        invariant
            n == x@.len() == y@.len(),
            i <= n,
            forall|j: int| 0 <= j < i ==> x@[j] == y@[j],
        decreases n - i,
    {
        if x[i] != y[i] {
            return false;
        }
        i = i + 1;
    }
    proof {
        assert(x@ =~= y@);
    }
    true
}

fn form_eq(x: &SpecialForm, y: &SpecialForm) -> (r: bool)
    ensures
        r == (deep_form(*x) == deep_form(*y)),
    decreases x,
{
    match (x, y) {
        (SpecialForm::Quote(a), SpecialForm::Quote(b)) => value_eq(a, b),
        (SpecialForm::If(a1, a2, a3), SpecialForm::If(b1, b2, b3)) => {
            let c1 = value_eq(a1, b1);
            let c2 = value_eq(a2, b2);
            let c3 = value_eq(a3, b3);
            c1 && c2 && c3
        },
        (SpecialForm::Define(h1, e1), SpecialForm::Define(h2, e2)) => h1 == h2 && value_eq(e1, e2),
        (SpecialForm::Lambda(p1, b1), SpecialForm::Lambda(p2, b2)) => {
            let pe = params_eq(p1, p2);
            pe && value_eq(b1, b2)
        },
        _ => false,
    }
}

fn native_op_eq(a: NativeOp, b: NativeOp) -> (r: bool)
    ensures
        r == (a == b),
{
    match (a, b) {
        (NativeOp::PolyEq, NativeOp::PolyEq) => true,
        (NativeOp::IsNull, NativeOp::IsNull) => true,
        (NativeOp::IsBoolean, NativeOp::IsBoolean) => true,
        (NativeOp::IsSymbol, NativeOp::IsSymbol) => true,
        (NativeOp::IsInteger, NativeOp::IsInteger) => true,
        (NativeOp::IsChar, NativeOp::IsChar) => true,
        (NativeOp::IsString, NativeOp::IsString) => true,
        (NativeOp::IsProcedure, NativeOp::IsProcedure) => true,
        (NativeOp::IsList, NativeOp::IsList) => true,
        (NativeOp::CharToInteger, NativeOp::CharToInteger) => true,
        (NativeOp::IntegerToChar, NativeOp::IntegerToChar) => true,
        (NativeOp::NumberToString, NativeOp::NumberToString) => true,
        (NativeOp::StringToNumber, NativeOp::StringToNumber) => true,
        (NativeOp::SymbolToString, NativeOp::SymbolToString) => true,
        (NativeOp::StringToSymbol, NativeOp::StringToSymbol) => true,
        (NativeOp::Plus, NativeOp::Plus) => true,
        (NativeOp::Minus, NativeOp::Minus) => true,
        (NativeOp::Multiply, NativeOp::Multiply) => true,
        (NativeOp::Quotient, NativeOp::Quotient) => true,
        (NativeOp::Remainder, NativeOp::Remainder) => true,
        (NativeOp::NumEq, NativeOp::NumEq) => true,
        (NativeOp::Gt, NativeOp::Gt) => true,
        (NativeOp::Ge, NativeOp::Ge) => true,
        (NativeOp::Lt, NativeOp::Lt) => true,
        (NativeOp::Le, NativeOp::Le) => true,
        (NativeOp::MakeList, NativeOp::MakeList) => true,
        (NativeOp::First, NativeOp::First) => true,
        (NativeOp::Rest, NativeOp::Rest) => true,
        (NativeOp::SymbolSpace, NativeOp::SymbolSpace) => true,
        _ => false,
    }
}

} // verus!
