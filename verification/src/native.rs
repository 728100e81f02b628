use vstd::prelude::*;
use crate::interner::StringInterner;
use crate::interner::find_text;
use crate::text::int_text;
use crate::text::int_to_string;
use crate::value::NativeOp;
use crate::value::Val;
use crate::value::Value;
use crate::value::deep;
use crate::value::deep_seq;
use crate::value::lemma_deep_seq_index;
use crate::value::lemma_deep_seq_len;
use crate::value::value_eq;
use crate::value::wf_val;

verus! {

broadcast use {
    vstd::std_specs::vec::axiom_vec_index_decreases,
    vstd::seq::axiom_seq_index_decreases,
    vstd::seq::axiom_seq_subrange_decreases,
};

/// The condition value carrying the given text.
pub open spec fn cond_of(text: Seq<char>) -> Val {
    Val::Cond(Box::new(Val::Str(text)))
}

pub open spec fn arity_msg() -> Seq<char> {
    "wrong number of arguments"@
}

pub open spec fn type_msg() -> Seq<char> {
    "wrong type of argument"@
}

pub open spec fn overflow_msg() -> Seq<char> {
    "integer overflow"@
}

pub open spec fn div_zero_msg() -> Seq<char> {
    "division by zero"@
}

pub open spec fn empty_list_msg() -> Seq<char> {
    "empty list"@
}

pub open spec fn bad_symbol_msg() -> Seq<char> {
    "unknown symbol handle"@
}

pub open spec fn char_range_msg() -> Seq<char> {
    "character code out of range"@
}

pub open spec fn in_i64(n: int) -> bool {
    i64::MIN <= n <= i64::MAX
}

pub open spec fn abs_i(n: int) -> int {
    if n < 0 {
        -n
    } else {
        n
    }
}

/// Truncated integer division, as `quotient` computes it.
pub open spec fn trunc_div(a: int, b: int) -> int {
    if (a < 0) != (b < 0) {
        -(abs_i(a) / abs_i(b))
    } else {
        abs_i(a) / abs_i(b)
    }
}

/// Truncated remainder: the sign follows the dividend.
pub open spec fn trunc_rem(a: int, b: int) -> int {
    if a < 0 {
        -(abs_i(a) % abs_i(b))
    } else {
        abs_i(a) % abs_i(b)
    }
}

/// Left-to-right checked addition of integers.
pub open spec fn fold_plus(vals: Seq<Val>, acc: int) -> Result<int, Val>
    decreases vals.len(),
{
    if vals.len() == 0 {
        Ok(acc)
    } else {
        match vals[0] {
            Val::Int(x) => if in_i64(acc + x) {
                fold_plus(vals.subrange(1, vals.len() as int), acc + x)
            } else {
                Err(cond_of(overflow_msg()))
            },
            _ => Err(cond_of(type_msg())),
        }
    }
}

/// Left-to-right checked subtraction of integers from `acc`.
pub open spec fn fold_minus(vals: Seq<Val>, acc: int) -> Result<int, Val>
    decreases vals.len(),
{
    if vals.len() == 0 {
        Ok(acc)
    } else {
        match vals[0] {
            Val::Int(x) => if in_i64(acc - x) {
                fold_minus(vals.subrange(1, vals.len() as int), acc - x)
            } else {
                Err(cond_of(overflow_msg()))
            },
            _ => Err(cond_of(type_msg())),
        }
    }
}

/// Left-to-right checked multiplication of integers.
pub open spec fn fold_mul(vals: Seq<Val>, acc: int) -> Result<int, Val>
    decreases vals.len(),
{
    if vals.len() == 0 {
        Ok(acc)
    } else {
        match vals[0] {
            Val::Int(x) => if in_i64(acc * x) {
                fold_mul(vals.subrange(1, vals.len() as int), acc * x)
            } else {
                Err(cond_of(overflow_msg()))
            },
            _ => Err(cond_of(type_msg())),
        }
    }
}

pub open spec fn all_ints(vals: Seq<Val>) -> bool {
    forall|i: int| 0 <= i < vals.len() ==> (#[trigger] vals[i]) is Int
}

pub open spec fn as_int(v: Val) -> int {
    match v {
        Val::Int(x) => x,
        _ => 0,
    }
}

/// One ordering step of a comparison chain.
pub open spec fn cmp_ints(op: NativeOp, a: int, b: int) -> bool {
    match op {
        NativeOp::NumEq => a == b,
        NativeOp::Gt => a > b,
        NativeOp::Ge => a >= b,
        NativeOp::Lt => a < b,
        NativeOp::Le => a <= b,
        _ => false,
    }
}

/// Does the ordering hold between every adjacent pair?
pub open spec fn chain_ok(vals: Seq<Val>, op: NativeOp) -> bool
    decreases vals.len(),
{
    if vals.len() <= 1 {
        true
    } else {
        cmp_ints(op, as_int(vals[0]), as_int(vals[1])) && chain_ok(
            vals.subrange(1, vals.len() as int),
            op,
        )
    }
}

pub open spec fn is_type_predicate_true(op: NativeOp, v: Val) -> bool {
    match op {
        NativeOp::IsNull => v is Null,
        NativeOp::IsBoolean => v is Bool,
        NativeOp::IsSymbol => v is Sym,
        NativeOp::IsInteger => v is Int,
        NativeOp::IsChar => v is Char,
        NativeOp::IsString => v is Str,
        NativeOp::IsProcedure => v is Native || v is Proc,
        NativeOp::IsList => v is List,
        _ => false,
    }
}

pub open spec fn is_predicate(op: NativeOp) -> bool {
    match op {
        NativeOp::IsNull | NativeOp::IsBoolean | NativeOp::IsSymbol | NativeOp::IsInteger
            | NativeOp::IsChar | NativeOp::IsString | NativeOp::IsProcedure
            | NativeOp::IsList => true,
        _ => false,
    }
}

pub open spec fn is_comparison(op: NativeOp) -> bool {
    match op {
        NativeOp::NumEq | NativeOp::Gt | NativeOp::Ge | NativeOp::Lt | NativeOp::Le => true,
        _ => false,
    }
}

/// What one native procedure returns, and how it changes the interner,
/// once its argument expressions have been evaluated to `vals`.
pub open spec fn native_step_spec(syms: Seq<Seq<char>>, op: NativeOp, vals: Seq<Val>) -> (
    Seq<Seq<char>>,
    Val,
) {
    if is_predicate(op) {
        if vals.len() != 1 {
            (syms, cond_of(arity_msg()))
        } else {
            (syms, Val::Bool(is_type_predicate_true(op, vals[0])))
        }
    } else if is_comparison(op) {
        if vals.len() < 2 {
            (syms, cond_of(arity_msg()))
        } else if !all_ints(vals) {
            (syms, cond_of(type_msg()))
        } else {
            (syms, Val::Bool(chain_ok(vals, op)))
        }
    } else {
        match op {
            NativeOp::PolyEq => if vals.len() != 2 {
                (syms, cond_of(arity_msg()))
            } else {
                (syms, Val::Bool(vals[0] == vals[1]))
            },
            NativeOp::CharToInteger => if vals.len() != 1 {
                (syms, cond_of(arity_msg()))
            } else {
                match vals[0] {
                    Val::Char(c) => (syms, Val::Int((c as u32) as int)),
                    _ => (syms, cond_of(type_msg())),
                }
            },
            NativeOp::IntegerToChar => if vals.len() != 1 {
                (syms, cond_of(arity_msg()))
            } else {
                match vals[0] {
                    Val::Int(i) => if 0 <= i <= 255 {
                        (syms, Val::Char((i as u8) as char))
                    } else {
                        (syms, cond_of(char_range_msg()))
                    },
                    _ => (syms, cond_of(type_msg())),
                }
            },
            NativeOp::NumberToString => if vals.len() != 1 {
                (syms, cond_of(arity_msg()))
            } else {
                match vals[0] {
                    Val::Int(i) => (syms, Val::Str(int_text(i))),
                    _ => (syms, cond_of(type_msg())),
                }
            },
            NativeOp::StringToNumber => if vals.len() != 1 {
                (syms, cond_of(arity_msg()))
            } else {
                match vals[0] {
                    Val::Str(s) => (
                        syms,
                        match crate::text::parse_int(s) {
                            Some(n) => Val::Int(n),
                            None => Val::Bool(false),
                        },
                    ),
                    _ => (syms, cond_of(type_msg())),
                }
            },
            NativeOp::SymbolToString => if vals.len() != 1 {
                (syms, cond_of(arity_msg()))
            } else {
                match vals[0] {
                    Val::Sym(h) => if h < syms.len() {
                        (syms, Val::Str(syms[h as int]))
                    } else {
                        (syms, cond_of(bad_symbol_msg()))
                    },
                    _ => (syms, cond_of(type_msg())),
                }
            },
            NativeOp::StringToSymbol => if vals.len() != 1 {
                (syms, cond_of(arity_msg()))
            } else {
                match vals[0] {
                    Val::Str(s) => match find_text(syms, s) {
                        Some(i) => (syms, Val::Sym(i as usize)),
                        None => (syms.push(s), Val::Sym(syms.len() as usize)),
                    },
                    _ => (syms, cond_of(type_msg())),
                }
            },
            NativeOp::Plus => (
                syms,
                match fold_plus(vals, 0) {
                    Ok(n) => Val::Int(n),
                    Err(c) => c,
                },
            ),
            NativeOp::Minus => if vals.len() == 0 {
                (syms, cond_of(arity_msg()))
            } else {
                match vals[0] {
                    Val::Int(first) => if vals.len() == 1 {
                        if in_i64(-first) {
                            (syms, Val::Int(-first))
                        } else {
                            (syms, cond_of(overflow_msg()))
                        }
                    } else {
                        (
                            syms,
                            match fold_minus(vals.subrange(1, vals.len() as int), first) {
                                Ok(n) => Val::Int(n),
                                Err(c) => c,
                            },
                        )
                    },
                    _ => (syms, cond_of(type_msg())),
                }
            },
            NativeOp::Multiply => (
                syms,
                match fold_mul(vals, 1) {
                    Ok(n) => Val::Int(n),
                    Err(c) => c,
                },
            ),
            NativeOp::Quotient => if vals.len() != 2 {
                (syms, cond_of(arity_msg()))
            } else if !(vals[0] is Int) || !(vals[1] is Int) {
                (syms, cond_of(type_msg()))
            } else if as_int(vals[1]) == 0 {
                (syms, cond_of(div_zero_msg()))
            } else if in_i64(trunc_div(as_int(vals[0]), as_int(vals[1]))) {
                (syms, Val::Int(trunc_div(as_int(vals[0]), as_int(vals[1]))))
            } else {
                (syms, cond_of(overflow_msg()))
            },
            NativeOp::Remainder => if vals.len() != 2 {
                (syms, cond_of(arity_msg()))
            } else if !(vals[0] is Int) || !(vals[1] is Int) {
                (syms, cond_of(type_msg()))
            } else if as_int(vals[1]) == 0 {
                (syms, cond_of(div_zero_msg()))
            } else {
                (syms, Val::Int(trunc_rem(as_int(vals[0]), as_int(vals[1]))))
            },
            NativeOp::MakeList => (syms, Val::List(vals)),
            NativeOp::First => if vals.len() != 1 {
                (syms, cond_of(arity_msg()))
            } else {
                match vals[0] {
                    Val::List(items) => if items.len() > 0 {
                        (syms, items[0])
                    } else {
                        (syms, cond_of(empty_list_msg()))
                    },
                    _ => (syms, cond_of(type_msg())),
                }
            },
            NativeOp::Rest => if vals.len() != 1 {
                (syms, cond_of(arity_msg()))
            } else {
                match vals[0] {
                    Val::List(items) => if items.len() > 0 {
                        (syms, Val::List(items.subrange(1, items.len() as int)))
                    } else {
                        (syms, cond_of(empty_list_msg()))
                    },
                    _ => (syms, cond_of(type_msg())),
                }
            },
            NativeOp::SymbolSpace => if vals.len() != 0 {
                (syms, cond_of(arity_msg()))
            } else if syms.len() <= i64::MAX {
                (syms, Val::Int(syms.len() as int))
            } else {
                (syms, cond_of(overflow_msg()))
            },
            _ => (syms, cond_of(type_msg())),
        }
    }
}

pub open spec fn is_arith_fold(op: NativeOp) -> bool {
    match op {
        NativeOp::Plus | NativeOp::Minus | NativeOp::Multiply => true,
        _ => false,
    }
}

pub open spec fn fold_op(op: NativeOp, vals: Seq<Val>, acc: int) -> Result<int, Val> {
    match op {
        NativeOp::Plus => fold_plus(vals, acc),
        NativeOp::Minus => fold_minus(vals, acc),
        NativeOp::Multiply => fold_mul(vals, acc),
        _ => Err(cond_of(type_msg())),
    }
}

fn run_fold(op: NativeOp, args: &Vec<Value>, start: usize, init: i64) -> (r: Result<i64, Value>)
    requires
        is_arith_fold(op),
        start <= args@.len(),
    ensures
        match r {
            Ok(n) => fold_op(
                op,
                deep_seq(args@).subrange(start as int, deep_seq(args@).len() as int),
                init as int,
            ) == Ok::<int, Val>(n as int),
            Err(c) => fold_op(
                op,
                deep_seq(args@).subrange(start as int, deep_seq(args@).len() as int),
                init as int,
            ) == Err::<int, Val>(deep(c)),
        },
{
    proof {
        lemma_deep_seq_len(args@);
    }
    let ghost vals = deep_seq(args@);
    let n = args.len();
    let mut acc: i64 = init;
    let mut i: usize = start;
    while i < n
        invariant
            is_arith_fold(op),
            n == args@.len(),
            vals == deep_seq(args@),
            vals.len() == n,
            start <= i <= n,
            fold_op(op, vals.subrange(i as int, n as int), acc as int) == fold_op(
                op,
                vals.subrange(start as int, n as int),
                init as int,
            ),
        decreases n - i,
    {
        proof {
            lemma_deep_seq_index(args@, i as int);
            assert(vals.subrange(i as int, n as int)[0] == vals[i as int]);
        }
        match &args[i] {
            Value::Integer(x) => {
                proof {
                    let ai = acc as int;
                    let xi = *x as int;
                    assert(ai * xi <= 0x8000_0000_0000_0000int * 0x8000_0000_0000_0000int && ai
                        * xi >= -(0x8000_0000_0000_0000int * 0x8000_0000_0000_0000int))
                        by (nonlinear_arith)
                        requires
                            -0x8000_0000_0000_0000int <= ai <= 0x7fff_ffff_ffff_ffffint,
                            -0x8000_0000_0000_0000int <= xi <= 0x7fff_ffff_ffff_ffffint,
                    ;
                }
                let nxt: i128 = match op {
                    NativeOp::Plus => acc as i128 + *x as i128,
                    NativeOp::Minus => acc as i128 - *x as i128,
                    NativeOp::Multiply => acc as i128 * *x as i128,
                    _ => 0,
                };
                if nxt > i64::MAX as i128 || nxt < i64::MIN as i128 {
                    return Err(cond_value("integer overflow"));
                }
                proof {
                    assert(vals.subrange(i as int, n as int).subrange(
                        1,
                        vals.subrange(i as int, n as int).len() as int,
                    ) =~= vals.subrange(i + 1, n as int));
                }
                acc = nxt as i64;
            },
            _ => {
                return Err(cond_value("wrong type of argument"));
            },
        }
        i = i + 1;
    }
    proof {
        assert(vals.subrange(n as int, n as int).len() == 0);
    }
    Ok(acc)
}

fn predicate_holds(op: NativeOp, v: &Value) -> (r: bool)
    requires
        is_predicate(op),
    ensures
        r == is_type_predicate_true(op, deep(*v)),
{
    match op {
        NativeOp::IsNull => matches!(v, Value::Null),
        NativeOp::IsBoolean => matches!(v, Value::Boolean(_)),
        NativeOp::IsSymbol => matches!(v, Value::Symbol(_)),
        NativeOp::IsInteger => matches!(v, Value::Integer(_)),
        NativeOp::IsChar => matches!(v, Value::Character(_)),
        NativeOp::IsString => matches!(v, Value::Str(_)),
        NativeOp::IsProcedure => matches!(v, Value::NativeProcedure(_))
            || matches!(v, Value::Procedure(_)),
        NativeOp::IsList => matches!(v, Value::List(_)),
        _ => false,
    }
}

fn extract_ints(args: &Vec<Value>) -> (r: Option<Vec<i64>>)
    ensures
        match r {
            Some(xs) => {
                &&& all_ints(deep_seq(args@))
                &&& xs@.len() == args@.len()
                &&& forall|i: int|
                    0 <= i < xs@.len() ==> #[trigger] xs@[i] as int == as_int(deep_seq(args@)[i])
            },
            None => !all_ints(deep_seq(args@)),
        },
{
    proof {
        lemma_deep_seq_len(args@);
    }
    let n = args.len();
    let mut xs: Vec<i64> = Vec::new();
    let mut i: usize = 0;
    while i < n
        invariant
            n == args@.len(),
            i <= n,
            xs@.len() == i,
            forall|j: int|
                0 <= j < i ==> (#[trigger] deep_seq(args@)[j]) is Int && xs@[j] as int == as_int(
                    deep_seq(args@)[j],
                ),
        decreases n - i,
    {
        proof {
            lemma_deep_seq_index(args@, i as int);
        }
        match &args[i] {
            Value::Integer(x) => {
                xs.push(*x);
            },
            _ => {
                return None;
            },
        }
        i = i + 1;
    }
    Some(xs)
}

fn chain_all(op: NativeOp, xs: &Vec<i64>, Ghost(vals): Ghost<Seq<Val>>) -> (r: bool)
    requires
        is_comparison(op),
        xs@.len() == vals.len(),
        xs@.len() >= 2,
        forall|i: int| 0 <= i < vals.len() ==> #[trigger] xs@[i] as int == as_int(vals[i]),
    ensures
        r == chain_ok(vals, op),
{
    let n = xs.len();
    let mut i: usize = 0;
    proof {
        assert(vals.subrange(0, n as int) =~= vals);
    }
    while i < n - 1
        invariant
            n == xs@.len() == vals.len(),
            n >= 2,
            i <= n - 1,
            forall|j: int| 0 <= j < vals.len() ==> #[trigger] xs@[j] as int == as_int(vals[j]),
            chain_ok(vals, op) == chain_ok(vals.subrange(i as int, n as int), op),
            is_comparison(op),
        decreases n - i,
    {
        let a = xs[i];
        let b = xs[i + 1];
        let holds = match op {
            NativeOp::NumEq => a == b,
            NativeOp::Gt => a > b,
            NativeOp::Ge => a >= b,
            NativeOp::Lt => a < b,
            NativeOp::Le => a <= b,
            _ => false,
        };
        proof {
            let sub = vals.subrange(i as int, n as int);
            assert(sub[0] == vals[i as int]);
            assert(sub[1] == vals[i + 1]);
            assert(holds == cmp_ints(op, as_int(vals[i as int]), as_int(vals[i + 1])));
            assert(sub.subrange(1, sub.len() as int) =~= vals.subrange(i + 1, n as int));
        }
        if !holds {
            return false;
        }
        i = i + 1;
    }
    proof {
        assert(vals.subrange(i as int, n as int).len() <= 1);
    }
    true
}

/// Run one native procedure on its already-evaluated arguments.  Only
/// `string->symbol` and the interner inspection hook touch the interner;
/// every other native leaves it unchanged.
pub fn native_step(interner: &mut StringInterner, op: NativeOp, args: Vec<Value>) -> (r: Value)
    ensures
        final(interner)@ == native_step_spec(old(interner)@, op, deep_seq(args@)).0,
        deep(r) == native_step_spec(old(interner)@, op, deep_seq(args@)).1,
{
    proof {
        lemma_deep_seq_len(args@);
        if args@.len() > 0 {
            lemma_deep_seq_index(args@, 0);
        }
        if args@.len() > 1 {
            lemma_deep_seq_index(args@, 1);
        }
    }
    let ghost vals = deep_seq(args@);
    match op {
        NativeOp::IsNull | NativeOp::IsBoolean | NativeOp::IsSymbol | NativeOp::IsInteger
            | NativeOp::IsChar | NativeOp::IsString | NativeOp::IsProcedure | NativeOp::IsList => {
            if args.len() != 1 {
                cond_value("wrong number of arguments")
            } else {
                Value::Boolean(predicate_holds(op, &args[0]))
            }
        },
        NativeOp::NumEq | NativeOp::Gt | NativeOp::Ge | NativeOp::Lt | NativeOp::Le => {
            if args.len() < 2 {
                cond_value("wrong number of arguments")
            } else {
                match extract_ints(&args) {
                    None => cond_value("wrong type of argument"),
                    Some(xs) => Value::Boolean(chain_all(op, &xs, Ghost(vals))),
                }
            }
        },
        NativeOp::PolyEq => {
            if args.len() != 2 {
                cond_value("wrong number of arguments")
            } else {
                Value::Boolean(value_eq(&args[0], &args[1]))
            }
        },
        NativeOp::CharToInteger => {
            if args.len() != 1 {
                cond_value("wrong number of arguments")
            } else {
                match &args[0] {
                    Value::Character(c) => Value::Integer((*c as u32) as i64),
                    _ => cond_value("wrong type of argument"),
                }
            }
        },
        NativeOp::IntegerToChar => {
            if args.len() != 1 {
                cond_value("wrong number of arguments")
            } else {
                match &args[0] {
                    Value::Integer(i) => {
                        if 0 <= *i && *i <= 255 {
                            Value::Character((*i as u8) as char)
                        } else {
                            cond_value("character code out of range")
                        }
                    },
                    _ => cond_value("wrong type of argument"),
                }
            }
        },
        NativeOp::NumberToString => {
            if args.len() != 1 {
                cond_value("wrong number of arguments")
            } else {
                match &args[0] {
                    Value::Integer(i) => Value::Str(int_to_string(*i)),
                    _ => cond_value("wrong type of argument"),
                }
            }
        },
        NativeOp::StringToNumber => {
            if args.len() != 1 {
                cond_value("wrong number of arguments")
            } else {
                match &args[0] {
                    Value::Str(s) => {
                        match crate::text::parse_i64(s.as_str()) {
                            Some(n) => Value::Integer(n),
                            None => Value::Boolean(false),
                        }
                    },
                    _ => cond_value("wrong type of argument"),
                }
            }
        },
        NativeOp::SymbolToString => {
            if args.len() != 1 {
                cond_value("wrong number of arguments")
            } else {
                match &args[0] {
                    Value::Symbol(h) => {
                        if *h < interner.len() {
                            Value::Str(interner.resolve(*h).clone())
                        } else {
                            cond_value("unknown symbol handle")
                        }
                    },
                    _ => cond_value("wrong type of argument"),
                }
            }
        },
        NativeOp::StringToSymbol => {
            if args.len() != 1 {
                cond_value("wrong number of arguments")
            } else {
                match &args[0] {
                    Value::Str(s) => {
                        let h = interner.intern(s.as_str());
                        Value::Symbol(h)
                    },
                    _ => cond_value("wrong type of argument"),
                }
            }
        },
        NativeOp::Plus => {
            match run_fold(op, &args, 0, 0) {
                Ok(n) => {
                    proof {
                        assert(vals.subrange(0, vals.len() as int) =~= vals);
                    }
                    Value::Integer(n)
                },
                Err(c) => {
                    proof {
                        assert(vals.subrange(0, vals.len() as int) =~= vals);
                    }
                    c
                },
            }
        },
        NativeOp::Minus => {
            if args.len() == 0 {
                cond_value("wrong number of arguments")
            } else {
                match &args[0] {
                    Value::Integer(first) => {
                        if args.len() == 1 {
                            if *first == i64::MIN {
                                cond_value("integer overflow")
                            } else {
                                Value::Integer(-*first)
                            }
                        } else {
                            match run_fold(op, &args, 1, *first) {
                                Ok(n) => Value::Integer(n),
                                Err(c) => c,
                            }
                        }
                    },
                    _ => cond_value("wrong type of argument"),
                }
            }
        },
        NativeOp::Multiply => {
            match run_fold(op, &args, 0, 1) {
                Ok(n) => {
                    proof {
                        assert(vals.subrange(0, vals.len() as int) =~= vals);
                    }
                    Value::Integer(n)
                },
                Err(c) => {
                    proof {
                        assert(vals.subrange(0, vals.len() as int) =~= vals);
                    }
                    c
                },
            }
        },
        NativeOp::Quotient | NativeOp::Remainder => div_like(interner, op, &args),
        NativeOp::MakeList => Value::List(args),
        NativeOp::First => {
            let mut rest = args;
            if rest.len() != 1 {
                cond_value("wrong number of arguments")
            } else {
                match rest.remove(0) {
                    Value::List(mut items) => {
                        if items.len() > 0 {
                            proof {
                                lemma_deep_seq_index(items@, 0);
                            }
                            items.remove(0)
                        } else {
                            cond_value("empty list")
                        }
                    },
                    _ => cond_value("wrong type of argument"),
                }
            }
        },
        NativeOp::Rest => {
            let mut rest = args;
            if rest.len() != 1 {
                cond_value("wrong number of arguments")
            } else {
                match rest.remove(0) {
                    Value::List(mut items) => {
                        if items.len() > 0 {
                            let ghost before = items@;
                            items.remove(0);
                            proof {
                                assert(items@ =~= before.subrange(1, before.len() as int));
                                lemma_deep_seq_subrange_tail(before);
                            }
                            Value::List(items)
                        } else {
                            cond_value("empty list")
                        }
                    },
                    _ => cond_value("wrong type of argument"),
                }
            }
        },
        NativeOp::SymbolSpace => {
            if args.len() != 0 {
                cond_value("wrong number of arguments")
            } else {
                let l = interner.len();
                if l as u64 <= i64::MAX as u64 {
                    Value::Integer(l as i64)
                } else {
                    cond_value("integer overflow")
                }
            }
        },
    }
}

/// Pulling the head off a list shifts the image of the tail.
proof fn lemma_deep_seq_subrange_tail(s: Seq<Value>)
    requires
        s.len() > 0,
    ensures
        deep_seq(s.subrange(1, s.len() as int)) == deep_seq(s).subrange(1, deep_seq(s).len() as int),
{
    let t = s.subrange(1, s.len() as int);
    lemma_deep_seq_len(s);
    lemma_deep_seq_len(t);
    assert forall|j: int| 0 <= j < t.len() implies deep_seq(t)[j] == deep_seq(s).subrange(
        1,
        deep_seq(s).len() as int,
    )[j] by {
        lemma_deep_seq_index(t, j);
        lemma_deep_seq_index(s, j + 1);
    }
    assert(deep_seq(t) =~= deep_seq(s).subrange(1, deep_seq(s).len() as int));
}

fn div_like(interner: &StringInterner, op: NativeOp, args: &Vec<Value>) -> (r: Value)
    requires
        op == NativeOp::Quotient || op == NativeOp::Remainder,
    ensures
        deep(r) == native_step_spec(interner@, op, deep_seq(args@)).1,
        native_step_spec(interner@, op, deep_seq(args@)).0 == interner@,
{
    proof {
        lemma_deep_seq_len(args@);
        if args@.len() > 0 {
            lemma_deep_seq_index(args@, 0);
        }
        if args@.len() > 1 {
            lemma_deep_seq_index(args@, 1);
        }
    }
    if args.len() != 2 {
        return cond_value("wrong number of arguments");
    }
    let a: i64;
    let b: i64;
    match (&args[0], &args[1]) {
        (Value::Integer(x), Value::Integer(y)) => {
            a = *x;
            b = *y;
        },
        _ => {
            return cond_value("wrong type of argument");
        },
    }
    if b == 0 {
        return cond_value("division by zero");
    }
    let aa: u64 = if a < 0 {
        (-(a as i128)) as u64
    } else {
        a as u64
    };
    let bb: u64 = if b < 0 {
        (-(b as i128)) as u64
    } else {
        b as u64
    };
    proof {
        assert(aa as int == abs_i(a as int));
        assert(bb as int == abs_i(b as int));
        vstd::arithmetic::div_mod::lemma_div_nonincreasing(aa as int, bb as int);
        vstd::arithmetic::div_mod::lemma_mod_division_less_than_divisor(aa as int, bb as int);
    }
    match op {
        NativeOp::Quotient => {
            let q: u64 = aa / bb;
            let neg = (a < 0) != (b < 0);
            if neg {
                Value::Integer((-(q as i128)) as i64)
            } else {
                if q > i64::MAX as u64 {
                    cond_value("integer overflow")
                } else {
                    Value::Integer(q as i64)
                }
            }
        },
        _ => {
            let rr: u64 = aa % bb;
            if a < 0 {
                Value::Integer(-(rr as i64))
            } else {
                Value::Integer(rr as i64)
            }
        },
    }
}

/// Condition values built from a bare message are always well formed.
pub proof fn lemma_wf_cond(t: Seq<char>, nsyms: nat, nframes: nat)
    ensures
        wf_val(cond_of(t), nsyms, nframes),
{
    assert(wf_val(Val::Str(t), nsyms, nframes));
}

/// An arithmetic fold fails only with a plain-text condition.
proof fn lemma_fold_err_wf(op: NativeOp, vals: Seq<Val>, acc: int, nsyms: nat, nframes: nat)
    ensures
        match fold_op(op, vals, acc) {
            Err(c) => wf_val(c, nsyms, nframes),
            Ok(_) => true,
        },
    decreases vals.len(),
{
    lemma_wf_cond(type_msg(), nsyms, nframes);
    lemma_wf_cond(overflow_msg(), nsyms, nframes);
    if vals.len() > 0 {
        match vals[0] {
            Val::Int(x) => {
                lemma_fold_err_wf(op, vals.subrange(1, vals.len() as int), acc + x, nsyms, nframes);
                lemma_fold_err_wf(op, vals.subrange(1, vals.len() as int), acc - x, nsyms, nframes);
                lemma_fold_err_wf(op, vals.subrange(1, vals.len() as int), acc * x, nsyms, nframes);
            },
            _ => {},
        }
    }
}

/// A native's result is as well formed as its arguments, and the
/// interner only ever grows.
pub proof fn lemma_native_step_wf(syms: Seq<Seq<char>>, op: NativeOp, vals: Seq<Val>, nframes: nat)
    requires
        forall|i: int| 0 <= i < vals.len() ==> wf_val(#[trigger] vals[i], syms.len(), nframes),
    ensures
        syms.len() <= native_step_spec(syms, op, vals).0.len(),
        wf_val(native_step_spec(syms, op, vals).1, native_step_spec(syms, op, vals).0.len(), nframes),
{
    let s2 = native_step_spec(syms, op, vals).0;
    let r = native_step_spec(syms, op, vals).1;
    lemma_wf_cond(arity_msg(), syms.len(), nframes);
    lemma_wf_cond(type_msg(), syms.len(), nframes);
    lemma_wf_cond(overflow_msg(), syms.len(), nframes);
    lemma_wf_cond(div_zero_msg(), syms.len(), nframes);
    lemma_wf_cond(empty_list_msg(), syms.len(), nframes);
    lemma_wf_cond(bad_symbol_msg(), syms.len(), nframes);
    lemma_wf_cond(char_range_msg(), syms.len(), nframes);
    match op {
        NativeOp::Plus => {
            lemma_fold_err_wf(op, vals, 0, syms.len(), nframes);
        },
        NativeOp::Multiply => {
            lemma_fold_err_wf(op, vals, 1, syms.len(), nframes);
        },
        NativeOp::Minus => {
            if vals.len() > 0 {
                match vals[0] {
                    Val::Int(first) => {
                        lemma_fold_err_wf(
                            op,
                            vals.subrange(1, vals.len() as int),
                            first,
                            syms.len(),
                            nframes,
                        );
                    },
                    _ => {},
                }
            }
        },
        _ => {},
    }
    match op {
        NativeOp::StringToSymbol => {
            if vals.len() == 1 {
                match vals[0] {
                    Val::Str(s) => {
                        match find_text(syms, s) {
                            Some(i) => {
                                crate::interner::lemma_find_text_bound(syms, s);
                            },
                            None => {},
                        }
                    },
                    _ => {},
                }
            }
        },
        NativeOp::First => {
            if vals.len() == 1 {
                match vals[0] {
                    Val::List(items) => {
                        if items.len() > 0 {
                            assert(wf_val(vals[0], syms.len(), nframes));
                            assert(wf_val(items[0], syms.len(), nframes));
                        }
                    },
                    _ => {},
                }
            }
        },
        NativeOp::Rest => {
            if vals.len() == 1 {
                match vals[0] {
                    Val::List(items) => {
                        if items.len() > 0 {
                            assert(wf_val(vals[0], syms.len(), nframes));
                            let t = items.subrange(1, items.len() as int);
                            assert forall|j: int| 0 <= j < t.len() implies wf_val(
                                #[trigger] t[j],
                                syms.len(),
                                nframes,
                            ) by {
                                assert(t[j] == items[j + 1]);
                                assert(wf_val(items[j + 1], syms.len(), nframes));
                            }
                        }
                    },
                    _ => {},
                }
            }
        },
        NativeOp::MakeList => {
            assert(wf_val(r, s2.len(), nframes));
        },
        _ => {},
    }
}

/// A condition value with the given message text.
pub fn cond_value(msg: &str) -> (r: Value)
    ensures
        deep(r) == cond_of(msg@),
{
    let inner = Value::Str(String::from_str(msg));
    proof {
        assert(deep(inner) == Val::Str(msg@));
    }
    Value::Condition(Box::new(inner))
}

} // verus!
