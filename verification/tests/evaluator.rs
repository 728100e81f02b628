use lisp_core::interpreter::Interpreter;
use lisp_core::value::NativeOp;
use lisp_core::value::SpecialForm;
use lisp_core::value::Value;

fn num(i: i64) -> Value {
    Value::Integer(i)
}

fn sym(interp: &mut Interpreter, name: &str) -> Value {
    Value::Symbol(interp.interner.intern(name))
}

fn call(interp: &mut Interpreter, name: &str, args: Vec<Value>) -> Value {
    let mut items = vec![sym(interp, name)];
    items.extend(args);
    let expr = Value::List(items);
    interp.evaluate(&expr)
}

fn condition_text(v: &Value) -> String {
    match v {
        Value::Condition(payload) => match payload.as_ref() {
            Value::Str(s) => s.clone(),
            other => panic!("condition payload is not a string: {:?}", other),
        },
        other => panic!("not a condition: {:?}", other),
    }
}

#[test]
fn self_evaluating_boolean() {
    let mut interp = Interpreter::new();
    assert_eq!(interp.evaluate(&Value::Boolean(true)), Value::Boolean(true));
}

#[test]
fn self_evaluating_integer() {
    let mut interp = Interpreter::new();
    assert_eq!(interp.evaluate(&num(42)), num(42));
}

#[test]
fn self_evaluating_character() {
    let mut interp = Interpreter::new();
    assert_eq!(interp.evaluate(&Value::Character('q')), Value::Character('q'));
}

#[test]
fn self_evaluating_string() {
    let mut interp = Interpreter::new();
    let s = Value::Str("hello".to_string());
    assert_eq!(interp.evaluate(&s), s);
}

#[test]
fn self_evaluating_null() {
    let mut interp = Interpreter::new();
    assert_eq!(interp.evaluate(&Value::Null), Value::Null);
}

#[test]
fn bound_symbol_evaluates_to_binding() {
    let mut interp = Interpreter::new();
    let h = interp.interner.intern("answer");
    let define = Value::SpecialForm(Box::new(SpecialForm::Define(h, num(17))));
    assert_eq!(interp.evaluate(&define), Value::Null);
    assert_eq!(interp.evaluate(&Value::Symbol(h)), num(17));
}

#[test]
fn unbound_symbol_in_fresh_interpreter() {
    let mut interp = Interpreter::new();
    let x = sym(&mut interp, "x");
    let result = interp.evaluate(&x);
    let text = condition_text(&result);
    assert_eq!(text, "undefined ident: x");
    assert!(text.contains('x'));
}

#[test]
fn empty_application_is_a_condition() {
    let mut interp = Interpreter::new();
    let result = interp.evaluate(&Value::List(vec![]));
    assert_eq!(condition_text(&result), "tried to evaluate ()");
}

#[test]
fn calling_an_integer_mentions_it() {
    let mut interp = Interpreter::new();
    let expr = Value::List(vec![num(5), num(1), num(2)]);
    let result = interp.evaluate(&expr);
    let text = condition_text(&result);
    assert_eq!(text, "tried to call 5, which is not possible");
    assert!(text.contains('5'));
}

#[test]
fn eq_on_equal_and_unequal_integers() {
    let mut interp = Interpreter::new();
    assert_eq!(call(&mut interp, "eq?", vec![num(3), num(3)]), Value::Boolean(true));
    assert_eq!(call(&mut interp, "eq?", vec![num(3), num(4)]), Value::Boolean(false));
}

#[test]
fn plus_sums_three_arguments() {
    let mut interp = Interpreter::new();
    assert_eq!(call(&mut interp, "+", vec![num(1), num(2), num(3)]), num(6));
}

#[test]
fn plus_of_nothing_is_zero() {
    let mut interp = Interpreter::new();
    assert_eq!(call(&mut interp, "+", vec![]), num(0));
}

#[test]
fn minus_unary_and_chained() {
    let mut interp = Interpreter::new();
    assert_eq!(call(&mut interp, "-", vec![num(5)]), num(-5));
    assert_eq!(call(&mut interp, "-", vec![num(10), num(3), num(2)]), num(5));
}

#[test]
fn multiply_folds_left_to_right() {
    let mut interp = Interpreter::new();
    assert_eq!(call(&mut interp, "*", vec![num(2), num(3), num(4)]), num(24));
}

#[test]
fn quotient_and_remainder_truncate_toward_zero() {
    let mut interp = Interpreter::new();
    assert_eq!(call(&mut interp, "quotient", vec![num(7), num(2)]), num(3));
    assert_eq!(call(&mut interp, "quotient", vec![num(7), num(-2)]), num(-3));
    assert_eq!(call(&mut interp, "quotient", vec![num(-7), num(2)]), num(-3));
    assert_eq!(call(&mut interp, "remainder", vec![num(7), num(-2)]), num(1));
    assert_eq!(call(&mut interp, "remainder", vec![num(-7), num(2)]), num(-1));
}

#[test]
fn division_by_zero_is_a_condition() {
    let mut interp = Interpreter::new();
    let result = call(&mut interp, "quotient", vec![num(1), num(0)]);
    assert_eq!(condition_text(&result), "division by zero");
}

#[test]
fn quotient_overflow_is_a_condition() {
    let mut interp = Interpreter::new();
    let result = call(&mut interp, "quotient", vec![num(i64::MIN), num(-1)]);
    assert_eq!(condition_text(&result), "integer overflow");
}

#[test]
fn addition_overflow_is_a_condition() {
    let mut interp = Interpreter::new();
    let result = call(&mut interp, "+", vec![num(i64::MAX), num(1)]);
    assert_eq!(condition_text(&result), "integer overflow");
}

#[test]
fn negating_the_smallest_integer_is_a_condition() {
    let mut interp = Interpreter::new();
    let result = call(&mut interp, "-", vec![num(i64::MIN)]);
    assert_eq!(condition_text(&result), "integer overflow");
}

#[test]
fn arithmetic_on_a_boolean_is_a_type_condition() {
    let mut interp = Interpreter::new();
    let result = call(&mut interp, "+", vec![num(1), Value::Boolean(true)]);
    assert_eq!(condition_text(&result), "wrong type of argument");
}

#[test]
fn predicate_arity_is_checked() {
    let mut interp = Interpreter::new();
    let result = call(&mut interp, "null?", vec![num(1), num(2)]);
    assert_eq!(condition_text(&result), "wrong number of arguments");
}

#[test]
fn comparison_chains() {
    let mut interp = Interpreter::new();
    assert_eq!(call(&mut interp, "<", vec![num(1), num(2), num(3)]), Value::Boolean(true));
    assert_eq!(call(&mut interp, "<", vec![num(1), num(3), num(2)]), Value::Boolean(false));
    assert_eq!(call(&mut interp, "=", vec![num(2), num(2), num(2)]), Value::Boolean(true));
    assert_eq!(call(&mut interp, ">=", vec![num(3), num(3), num(1)]), Value::Boolean(true));
    assert_eq!(call(&mut interp, ">", vec![num(3), num(2)]), Value::Boolean(true));
    assert_eq!(call(&mut interp, "<=", vec![num(3), num(2)]), Value::Boolean(false));
}

#[test]
fn type_predicates_answer_for_each_kind() {
    let mut interp = Interpreter::new();
    assert_eq!(call(&mut interp, "null?", vec![Value::Null]), Value::Boolean(true));
    assert_eq!(call(&mut interp, "boolean?", vec![Value::Boolean(false)]), Value::Boolean(true));
    assert_eq!(call(&mut interp, "integer?", vec![num(1)]), Value::Boolean(true));
    assert_eq!(call(&mut interp, "char?", vec![Value::Character('a')]), Value::Boolean(true));
    assert_eq!(
        call(&mut interp, "string?", vec![Value::Str("s".to_string())]),
        Value::Boolean(true)
    );
    assert_eq!(call(&mut interp, "integer?", vec![Value::Boolean(true)]), Value::Boolean(false));
    let quoted = Value::SpecialForm(Box::new(SpecialForm::Quote(sym(&mut interp, "a"))));
    assert_eq!(call(&mut interp, "symbol?", vec![quoted]), Value::Boolean(true));
    assert_eq!(
        call(&mut interp, "procedure?", vec![Value::NativeProcedure(NativeOp::Plus)]),
        Value::Boolean(true)
    );
    let quoted_list = Value::SpecialForm(Box::new(SpecialForm::Quote(Value::List(vec![num(9)]))));
    assert_eq!(call(&mut interp, "list?", vec![quoted_list]), Value::Boolean(true));
    assert_eq!(call(&mut interp, "list?", vec![num(1)]), Value::Boolean(false));
}

#[test]
fn list_first_and_rest() {
    let mut interp = Interpreter::new();
    let built = call(&mut interp, "list", vec![num(1), num(2), num(3)]);
    assert_eq!(built, Value::List(vec![num(1), num(2), num(3)]));
    let inner = sym(&mut interp, "list");
    let first = call(
        &mut interp,
        "first",
        vec![Value::List(vec![inner, num(1), num(2), num(3)])],
    );
    assert_eq!(first, num(1));
    let inner = sym(&mut interp, "list");
    let rest = call(
        &mut interp,
        "rest",
        vec![Value::List(vec![inner, num(1), num(2), num(3)])],
    );
    assert_eq!(rest, Value::List(vec![num(2), num(3)]));
}

#[test]
fn first_of_an_empty_list_is_a_condition() {
    let mut interp = Interpreter::new();
    let list_sym = sym(&mut interp, "list");
    let result = call(&mut interp, "first", vec![Value::List(vec![list_sym])]);
    assert_eq!(condition_text(&result), "empty list");
}

#[test]
fn eq_is_structural_on_lists() {
    let mut interp = Interpreter::new();
    let first_head = sym(&mut interp, "list");
    let second_head = sym(&mut interp, "list");
    let a = Value::List(vec![first_head, num(1), num(2)]);
    let b = Value::List(vec![second_head, num(1), num(2)]);
    assert_eq!(call(&mut interp, "eq?", vec![a, b]), Value::Boolean(true));
}

#[test]
fn char_integer_conversions() {
    let mut interp = Interpreter::new();
    assert_eq!(call(&mut interp, "char->integer", vec![Value::Character('A')]), num(65));
    assert_eq!(call(&mut interp, "integer->char", vec![num(66)]), Value::Character('B'));
    let out_of_range = call(&mut interp, "integer->char", vec![num(300)]);
    assert_eq!(condition_text(&out_of_range), "character code out of range");
}

#[test]
fn number_string_conversions() {
    let mut interp = Interpreter::new();
    assert_eq!(
        call(&mut interp, "number->string", vec![num(-42)]),
        Value::Str("-42".to_string())
    );
    assert_eq!(
        call(&mut interp, "string->number", vec![Value::Str("123".to_string())]),
        num(123)
    );
    assert_eq!(
        call(&mut interp, "string->number", vec![Value::Str("12x".to_string())]),
        Value::Boolean(false)
    );
    assert_eq!(
        call(
            &mut interp,
            "string->number",
            vec![Value::Str("-9223372036854775808".to_string())]
        ),
        num(i64::MIN)
    );
    assert_eq!(
        call(
            &mut interp,
            "string->number",
            vec![Value::Str("9223372036854775808".to_string())]
        ),
        Value::Boolean(false)
    );
}

#[test]
fn number_text_round_trip() {
    let mut interp = Interpreter::new();
    for &i in &[0i64, 7, -7, 1234567, i64::MAX, i64::MIN] {
        let text = call(&mut interp, "number->string", vec![num(i)]);
        let back = call(&mut interp, "string->number", vec![text]);
        assert_eq!(back, num(i));
    }
}

#[test]
fn symbol_string_conversions() {
    let mut interp = Interpreter::new();
    let quoted = Value::SpecialForm(Box::new(SpecialForm::Quote(sym(&mut interp, "list"))));
    assert_eq!(
        call(&mut interp, "symbol->string", vec![quoted]),
        Value::Str("list".to_string())
    );
    let s1 = call(&mut interp, "string->symbol", vec![Value::Str("fresh".to_string())]);
    let s2 = call(&mut interp, "string->symbol", vec![Value::Str("fresh".to_string())]);
    assert_eq!(s1, s2);
    let existing = call(&mut interp, "string->symbol", vec![Value::Str("eq?".to_string())]);
    assert_eq!(existing, Value::Symbol(0));
}

#[test]
fn symbol_space_counts_interned_names() {
    let mut interp = Interpreter::new();
    match call(&mut interp, "symbol-space", vec![]) {
        Value::Integer(n) => assert!(n >= 29),
        other => panic!("unexpected: {:?}", other),
    }
}

#[test]
fn interning_is_idempotent() {
    let mut interp = Interpreter::new();
    let a = interp.interner.intern("brand-new");
    let b = interp.interner.intern("brand-new");
    assert_eq!(a, b);
    assert_eq!(interp.interner.intern("eq?"), 0);
}

#[test]
fn quote_returns_operand_unevaluated() {
    let mut interp = Interpreter::new();
    let payload = Value::List(vec![num(1), num(2)]);
    let quoted = Value::SpecialForm(Box::new(SpecialForm::Quote(payload)));
    assert_eq!(interp.evaluate(&quoted), Value::List(vec![num(1), num(2)]));
}

#[test]
fn if_selects_on_falseness_only() {
    let mut interp = Interpreter::new();
    let pick = |interp: &mut Interpreter, test: Value| {
        let form = Value::SpecialForm(Box::new(SpecialForm::If(test, num(1), num(2))));
        interp.evaluate(&form)
    };
    assert_eq!(pick(&mut interp, Value::Boolean(false)), num(2));
    assert_eq!(pick(&mut interp, Value::Boolean(true)), num(1));
    assert_eq!(pick(&mut interp, num(0)), num(1));
}

#[test]
fn define_inside_a_call_frame_is_invisible_afterwards() {
    let mut interp = Interpreter::new();
    let z = interp.interner.intern("z");
    let helper = interp.interner.intern("helper");
    let body = Value::SpecialForm(Box::new(SpecialForm::Define(z, num(5))));
    let lambda = Value::SpecialForm(Box::new(SpecialForm::Lambda(vec![], body)));
    let def = Value::SpecialForm(Box::new(SpecialForm::Define(helper, lambda)));
    interp.evaluate(&def);
    assert_eq!(interp.evaluate(&Value::List(vec![Value::Symbol(helper)])), Value::Null);
    let after = interp.evaluate(&Value::Symbol(z));
    assert_eq!(condition_text(&after), "undefined ident: z");
}

#[test]
fn global_redefinition_overrides_later_lookups() {
    let mut interp = Interpreter::new();
    let w = interp.interner.intern("w");
    let def1 = Value::SpecialForm(Box::new(SpecialForm::Define(w, num(1))));
    let def2 = Value::SpecialForm(Box::new(SpecialForm::Define(w, num(2))));
    interp.evaluate(&def1);
    interp.evaluate(&def2);
    assert_eq!(interp.evaluate(&Value::Symbol(w)), num(2));
    let getter = interp.interner.intern("getter");
    let lambda = Value::SpecialForm(Box::new(SpecialForm::Lambda(vec![], Value::Symbol(w))));
    let def_getter = Value::SpecialForm(Box::new(SpecialForm::Define(getter, lambda)));
    interp.evaluate(&def_getter);
    let def3 = Value::SpecialForm(Box::new(SpecialForm::Define(w, num(3))));
    interp.evaluate(&def3);
    assert_eq!(interp.evaluate(&Value::List(vec![Value::Symbol(getter)])), num(3));
}

#[test]
fn closure_returns_captured_not_shadowed_value() {
    let mut interp = Interpreter::new();
    let y = interp.interner.intern("y");
    let f = interp.interner.intern("f");
    let g = interp.interner.intern("g");
    let def_y = Value::SpecialForm(Box::new(SpecialForm::Define(y, num(10))));
    interp.evaluate(&def_y);
    let f_lambda = Value::SpecialForm(Box::new(SpecialForm::Lambda(vec![], Value::Symbol(y))));
    let def_f = Value::SpecialForm(Box::new(SpecialForm::Define(f, f_lambda)));
    interp.evaluate(&def_f);
    let g_body = Value::List(vec![Value::Symbol(f)]);
    let g_lambda = Value::SpecialForm(Box::new(SpecialForm::Lambda(vec![y], g_body)));
    let def_g = Value::SpecialForm(Box::new(SpecialForm::Define(g, g_lambda)));
    interp.evaluate(&def_g);
    let result = interp.evaluate(&Value::List(vec![Value::Symbol(g), num(99)]));
    assert_eq!(result, num(10));
}

#[test]
fn parameters_bind_positionally() {
    let mut interp = Interpreter::new();
    let a = interp.interner.intern("a");
    let b = interp.interner.intern("b");
    let sub = interp.interner.intern("sub");
    let body = Value::List(vec![sym(&mut interp, "-"), Value::Symbol(a), Value::Symbol(b)]);
    let lambda = Value::SpecialForm(Box::new(SpecialForm::Lambda(vec![a, b], body)));
    let def = Value::SpecialForm(Box::new(SpecialForm::Define(sub, lambda)));
    interp.evaluate(&def);
    let call_expr = Value::List(vec![Value::Symbol(sub), num(9), num(4)]);
    assert_eq!(interp.evaluate(&call_expr), num(5));
}

#[test]
fn procedure_arity_mismatch_is_a_condition() {
    let mut interp = Interpreter::new();
    let a = interp.interner.intern("a");
    let one = interp.interner.intern("one");
    let lambda = Value::SpecialForm(Box::new(SpecialForm::Lambda(vec![a], Value::Symbol(a))));
    let def = Value::SpecialForm(Box::new(SpecialForm::Define(one, lambda)));
    interp.evaluate(&def);
    let result = interp.evaluate(&Value::List(vec![Value::Symbol(one)]));
    assert_eq!(condition_text(&result), "wrong number of arguments");
}

#[test]
fn condition_in_an_argument_propagates() {
    let mut interp = Interpreter::new();
    let bad = Value::List(vec![sym(&mut interp, "+"), num(1), Value::List(vec![])]);
    let result = interp.evaluate(&bad);
    assert_eq!(condition_text(&result), "tried to evaluate ()");
}
