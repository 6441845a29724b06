use nova_core::agent::Agent;
use nova_core::array::Array;
use nova_core::env::{EnvironmentKind, EnvironmentRecord};
use nova_core::eval::{perform_eval, LexicalDecl, ScriptDecls, VarScopedDecl};
use nova_core::global::GlobalObject;
use nova_core::heap::ObjectRecord;
use nova_core::iterator::{iterator_record_from_result, VmIterator};
use nova_core::value::PropertyKey;
use nova_core::strconv::{i64_to_string, str_chars};
use nova_core::value::{
    same_value, ExceptionType, IntoNumeric, Numeric, TryResult, Value, CANONICAL_NAN_BITS,
};

fn ok_is(r: &Result<Value, nova_core::value::JsError>, want: &Value) -> bool {
    match r {
        Ok(v) => same_value(v, want),
        Err(_) => false,
    }
}

fn cont_is(r: &TryResult<Value>, want: &Value) -> bool {
    match r {
        TryResult::Continue(v) => same_value(v, want),
        TryResult::Break => false,
    }
}

fn var_script(names: &[&str]) -> ScriptDecls {
    ScriptDecls {
        var_scoped: vec![VarScopedDecl::Variable {
            bound_names: names.iter().map(|n| String::from(*n)).collect(),
        }],
        lex_scoped: Vec::new(),
        has_use_strict: false,
        is_empty: false,
    }
}

/// An agent with a global environment installed.
fn agent_with_global() -> (Agent, u32) {
    let mut agent = Agent::new();
    let g = agent.create_env(EnvironmentRecord::new(EnvironmentKind::Global, None));
    agent.realm.global_env = Some(g);
    (agent, g)
}

#[test]
fn direct_eval_var_conflicts_with_global_lexical() {
    // In a scope with a lexical `x`, direct-evaluating `var x` is a
    // SyntaxError and the outer binding stays as it was.
    let (mut agent, g) = agent_with_global();
    {
        let mut rec = agent.env_take(g);
        rec.create_mutable_binding(&String::from("x"), false).unwrap();
        rec.initialize_binding(&String::from("x"), Value::Integer(1)).unwrap();
        agent.env_put(g, rec);
    }
    agent.execution_context_stack.push(nova_core::agent::ExecutionContext {
        lexical_environment: g,
        variable_environment: g,
        private_environment: None,
        is_strict_mode: false,
    });
    let script = var_script(&["x"]);
    let r = perform_eval(&mut agent, Some(&script), true, false);
    match r {
        Err(e) => assert_eq!(e.kind, ExceptionType::SyntaxError),
        Ok(_) => panic!("expected a SyntaxError"),
    }
    // The outer lexical binding is untouched.
    let rec = agent.env_ref(g);
    assert!(rec.has_lexical_declaration(&String::from("x")));
    assert!(matches!(rec.bindings[0].value, Some(Value::Integer(1))));
}

#[test]
fn indirect_sloppy_eval_creates_global_var() {
    // (0, eval)("var y = ...") at global scope completes normally and `y`
    // becomes a property of the global object.
    let (mut agent, g) = agent_with_global();
    let script = var_script(&["y"]);
    let r = GlobalObject::eval(&mut agent, Some(&script));
    assert!(ok_is(&r, &Value::Undefined));
    let rec = agent.env_ref(g);
    assert_eq!(rec.var_bindings.len(), 1);
    assert_eq!(rec.var_bindings[0].name, String::from("y"));
    assert!(matches!(rec.var_bindings[0].value, Some(Value::Undefined)));
}

#[test]
fn eval_binds_hoisted_functions() {
    // Function declarations hoist into the variable environment with a
    // function object as their value; the last declaration per name wins.
    let (mut agent, g) = agent_with_global();
    let script = ScriptDecls {
        var_scoped: vec![
            VarScopedDecl::Function {
                name: String::from("f"),
                is_async: false,
                is_generator: false,
            },
            VarScopedDecl::Function {
                name: String::from("f"),
                is_async: false,
                is_generator: false,
            },
        ],
        lex_scoped: Vec::new(),
        has_use_strict: false,
        is_empty: false,
    };
    let r = GlobalObject::eval(&mut agent, Some(&script));
    assert!(ok_is(&r, &Value::Undefined));
    let rec = agent.env_ref(g);
    assert_eq!(rec.var_bindings.len(), 1);
    assert_eq!(rec.var_bindings[0].name, String::from("f"));
    assert!(matches!(rec.var_bindings[0].value, Some(Value::Function(_))));
    assert_eq!(agent.heap.functions.len(), 1);
}

#[test]
fn eval_precreates_lexical_bindings() {
    // Lexical declarations are pre-created uninitialised; const ones are
    // immutable.
    let (mut agent, _g) = agent_with_global();
    let script = ScriptDecls {
        var_scoped: Vec::new(),
        lex_scoped: vec![
            LexicalDecl::Variable {
                is_const: true,
                bound_names: vec![String::from("c")],
            },
            LexicalDecl::Class { name: String::from("k") },
        ],
        has_use_strict: false,
        is_empty: false,
    };
    let r = GlobalObject::eval(&mut agent, Some(&script));
    assert!(ok_is(&r, &Value::Undefined));
    // The fresh declarative eval environment is the last created one.
    let lex = (agent.envs.len() - 1) as u32;
    let rec = agent.env_ref(lex);
    assert_eq!(rec.kind, EnvironmentKind::Declarative);
    assert_eq!(rec.bindings.len(), 2);
    assert_eq!(rec.bindings[0].name, String::from("c"));
    assert!(!rec.bindings[0].mutable);
    assert_eq!(rec.bindings[1].name, String::from("k"));
    assert!(rec.bindings[1].mutable);
}

#[test]
fn eval_parse_failure_is_syntax_error() {
    let (mut agent, _g) = agent_with_global();
    let r = GlobalObject::eval(&mut agent, None);
    match r {
        Err(e) => assert_eq!(e.kind, ExceptionType::SyntaxError),
        Ok(_) => panic!("expected a SyntaxError"),
    }
    assert_eq!(agent.execution_context_stack.len(), 0);
}

#[test]
fn eval_of_empty_script_is_undefined() {
    let (mut agent, _g) = agent_with_global();
    let script = ScriptDecls {
        var_scoped: Vec::new(),
        lex_scoped: Vec::new(),
        has_use_strict: false,
        is_empty: true,
    };
    assert!(ok_is(&GlobalObject::eval(&mut agent, Some(&script)), &Value::Undefined));
}

#[test]
fn strict_eval_keeps_vars_out_of_the_global() {
    // A strict eval binds its vars in the fresh environment, not on the
    // global object.
    let (mut agent, g) = agent_with_global();
    let mut script = var_script(&["z"]);
    script.has_use_strict = true;
    assert!(ok_is(&GlobalObject::eval(&mut agent, Some(&script)), &Value::Undefined));
    assert_eq!(agent.env_ref(g).var_bindings.len(), 0);
    let lex = (agent.envs.len() - 1) as u32;
    assert!(agent.env_ref(lex).has_binding(&String::from("z")));
}

#[test]
fn is_finite_and_is_nan_classify_bits() {
    let nan = Value::Number(CANONICAL_NAN_BITS);
    let one = Value::Number(0x3FF0_0000_0000_0000);
    let inf = Value::Number(0x7FF0_0000_0000_0000);
    let check = |r: TryResult<Result<Value, nova_core::value::JsError>>, b: bool| match r {
        TryResult::Continue(Ok(Value::Boolean(x))) => assert_eq!(x, b),
        _ => panic!("expected a boolean"),
    };
    check(GlobalObject::is_nan(&nan), true);
    check(GlobalObject::is_nan(&one), false);
    check(GlobalObject::is_nan(&inf), false);
    check(GlobalObject::is_finite(&nan), false);
    check(GlobalObject::is_finite(&one), true);
    check(GlobalObject::is_finite(&inf), false);
    check(GlobalObject::is_finite(&Value::Integer(3)), true);
    check(GlobalObject::is_nan(&Value::Undefined), true);
    // Strings need the host's numeric conversion.
    assert!(matches!(
        GlobalObject::is_finite(&Value::String(String::from("3"))),
        TryResult::Break
    ));
}

fn parse(s: &str, radix: Value) -> TryResult<Value> {
    GlobalObject::parse_int(&Value::String(String::from(s)), &radix)
}

#[test]
fn parse_int_parses_decimal() {
    assert!(cont_is(&parse("42", Value::Undefined), &Value::Integer(42)));
    assert!(cont_is(&parse("  42  ", Value::Undefined), &Value::Integer(42)));
    assert!(cont_is(&parse("-17", Value::Undefined), &Value::Integer(-17)));
    assert!(cont_is(&parse("+8", Value::Undefined), &Value::Integer(8)));
    assert!(cont_is(&parse("12abc", Value::Undefined), &Value::Integer(12)));
}

#[test]
fn parse_int_honours_radix_and_prefix() {
    assert!(cont_is(&parse("101", Value::Integer(2)), &Value::Integer(5)));
    assert!(cont_is(&parse("z", Value::Integer(36)), &Value::Integer(35)));
    assert!(cont_is(&parse("0x1A", Value::Undefined), &Value::Integer(26)));
    assert!(cont_is(&parse("-0x10", Value::Integer(16)), &Value::Integer(-16)));
    // A radix outside [2, 36] gives NaN.
    assert!(cont_is(&parse("5", Value::Integer(1)), &Value::Number(CANONICAL_NAN_BITS)));
}

#[test]
fn parse_int_wraps_the_radix_to_int32() {
    // A radix of 2^32 + 16 reads as 16 after ToInt32 wrapping.
    assert!(cont_is(&parse("10", Value::Integer(4294967312)), &Value::Integer(16)));
    // 2^32 wraps to 0, which defaults to base 10.
    assert!(cont_is(&parse("10", Value::Integer(4294967296)), &Value::Integer(10)));
}

#[test]
fn parse_int_rejects_empty_digits() {
    assert!(cont_is(&parse("", Value::Undefined), &Value::Number(CANONICAL_NAN_BITS)));
    assert!(cont_is(&parse("  hello", Value::Undefined), &Value::Number(CANONICAL_NAN_BITS)));
    assert!(cont_is(
        &GlobalObject::parse_int(&Value::Undefined, &Value::Undefined),
        &Value::Number(CANONICAL_NAN_BITS)
    ));
    assert!(cont_is(
        &GlobalObject::parse_int(&Value::Boolean(true), &Value::Undefined),
        &Value::Number(CANONICAL_NAN_BITS)
    ));
}

#[test]
fn parse_int_passes_integers_through_and_defers_huge_digits() {
    assert!(cont_is(
        &GlobalObject::parse_int(&Value::Integer(7), &Value::Integer(10)),
        &Value::Integer(7)
    ));
    // Beyond the safe integer range the host must approximate.
    assert!(matches!(
        parse("123456789012345678901234567890", Value::Undefined),
        TryResult::Break
    ));
}

#[test]
fn scoped_handles_reload_after_collection() {
    let mut agent = Agent::new();
    let _garbage = Array::from_slice(&mut agent.heap, &vec![Value::Integer(1)]);
    let a = Array::from_slice(&mut agent.heap, &vec![Value::Integer(2)]);
    let scoped = a.scope(&mut agent);
    let _c = nova_core::gc::mark_and_sweep(&mut agent.heap, &mut agent.rooted);
    let a2 = scoped.get(&agent);
    assert_eq!(a2.len(&agent.heap), 1);
    assert_eq!(agent.heap.arrays.len(), 1);
}

#[test]
fn remaining_length_estimates() {
    let mut h = nova_core::heap::Heap::new();
    let a = Array::from_slice(&mut h, &vec![Value::Integer(1), Value::Integer(2)]);
    let it = VmIterator::ArrayValues(nova_core::iterator::ArrayValuesIterator::new(a));
    assert_eq!(it.remaining_length_estimate(&h), Some(2));
    assert_eq!(VmIterator::EmptySliceIterator.remaining_length_estimate(&h), Some(0));
    assert_eq!(VmIterator::InvalidIterator.remaining_length_estimate(&h), None);
}

#[test]
fn decimal_formatting_and_char_reading() {
    assert_eq!(i64_to_string(5), String::from("5"));
    assert_eq!(i64_to_string(-17), String::from("-17"));
    assert_eq!(i64_to_string(0), String::from("0"));
    assert_eq!(str_chars("abc"), vec!['a', 'b', 'c']);
}

#[test]
fn numeric_conversion_is_identity() {
    let n = Numeric::Integer(4);
    assert_eq!(n.into_numeric(), Numeric::Integer(4));
    let d = Numeric::Number(0x3FF0_0000_0000_0000);
    assert_eq!(d.into_numeric(), d);
}

#[test]
fn direct_eval_var_conflicts_on_the_environment_chain() {
    // A declarative layer between the eval's lexical environment and the
    // variable environment binds `x` (an enclosing `let x = 1`): `var x`
    // in a direct sloppy eval is a SyntaxError and nothing was bound.
    let (mut agent, g) = agent_with_global();
    let block = agent.create_env(EnvironmentRecord::new(EnvironmentKind::Declarative, Some(g)));
    {
        let mut rec = agent.env_take(block);
        rec.create_mutable_binding(&String::from("x"), false).unwrap();
        rec.initialize_binding(&String::from("x"), Value::Integer(1)).unwrap();
        agent.env_put(block, rec);
    }
    agent.execution_context_stack.push(nova_core::agent::ExecutionContext {
        lexical_environment: block,
        variable_environment: g,
        private_environment: None,
        is_strict_mode: false,
    });
    let script = var_script(&["x"]);
    let r = perform_eval(&mut agent, Some(&script), true, false);
    match r {
        Err(e) => assert_eq!(e.kind, ExceptionType::SyntaxError),
        Ok(_) => panic!("expected a SyntaxError"),
    }
    // Neither the global nor the enclosing block gained or lost bindings.
    assert_eq!(agent.env_ref(g).var_bindings.len(), 0);
    assert_eq!(agent.env_ref(g).bindings.len(), 0);
    let rec = agent.env_ref(block);
    assert_eq!(rec.bindings.len(), 1);
    assert!(matches!(rec.bindings[0].value, Some(Value::Integer(1))));
}

#[test]
fn iterator_record_forms_from_the_method_call_result() {
    let mut h = nova_core::heap::Heap::new();
    // An object with a callable `next` forms a generic record.
    let with_next = h.create_object(ObjectRecord {
        prototype: None,
        extensible: true,
        properties: Vec::new(),
    });
    assert!(nova_core::object::ordinary_define_own_property(
        &mut h,
        with_next,
        &PropertyKey::String(String::from("next")),
        &nova_core::value::PropertyDescriptor::new_data(Value::Function(7), true, true, true),
    ));
    match iterator_record_from_result(&h, &Value::Object(with_next), None) {
        TryResult::Continue(Ok(VmIterator::GenericIterator { next_method, .. })) => {
            assert_eq!(next_method, 7);
        },
        _ => panic!("expected a generic iterator record"),
    }
    // An object without `next` leaves the record invalid: the first step
    // throws.
    let bare = h.create_object(ObjectRecord {
        prototype: None,
        extensible: true,
        properties: Vec::new(),
    });
    let mut it = match iterator_record_from_result(&h, &Value::Object(bare), None) {
        TryResult::Continue(Ok(it)) => {
            assert!(matches!(it, VmIterator::InvalidIterator));
            it
        },
        _ => panic!("expected an invalid iterator record"),
    };
    match it.step_value(&h, None) {
        TryResult::Continue(Err(e)) => assert_eq!(e.kind, ExceptionType::TypeError),
        _ => panic!("expected a TypeError"),
    }
    // A non-object result throws at once.
    match iterator_record_from_result(&h, &Value::Integer(1), None) {
        TryResult::Continue(Err(e)) => assert_eq!(e.kind, ExceptionType::TypeError),
        _ => panic!("expected a TypeError"),
    }
}


#[test]
fn eval_function_flags_take_last_declaration() {
    // Two hoisted declarations of one name: the binding holds a function
    // object carrying the flags of the last declaration.
    let (mut agent, g) = agent_with_global();
    let script = ScriptDecls {
        var_scoped: vec![
            VarScopedDecl::Function {
                name: String::from("f"),
                is_async: false,
                is_generator: true,
            },
            VarScopedDecl::Function {
                name: String::from("f"),
                is_async: true,
                is_generator: false,
            },
        ],
        lex_scoped: Vec::new(),
        has_use_strict: false,
        is_empty: false,
    };
    let r = GlobalObject::eval(&mut agent, Some(&script));
    assert!(ok_is(&r, &Value::Undefined));
    let rec = agent.env_ref(g);
    let f = match rec.var_bindings[0].value {
        Some(Value::Function(f)) => f,
        _ => panic!("expected a function binding"),
    };
    let (is_async, is_generator) = agent.heap.function_flags(f);
    assert!(is_async);
    assert!(!is_generator);
}

#[test]
fn eval_string_argument_compiles_only_strings() {
    // Only a string argument reaches the compiler; every other value is
    // handed back unchanged.
    let s = nova_core::eval::eval_string_argument(&Value::String(String::from("1 + 1")));
    assert_eq!(s, Some(String::from("1 + 1")));
    assert_eq!(nova_core::eval::eval_string_argument(&Value::Integer(2)), None);
    assert_eq!(nova_core::eval::eval_string_argument(&Value::Undefined), None);
}

#[test]
fn eval_initialises_fresh_vars_and_keeps_existing_ones() {
    // A fresh var binding comes out mutable and initialised to undefined;
    // a pre-existing one is left exactly as it was.
    let (mut agent, g) = agent_with_global();
    {
        let mut rec = agent.env_take(g);
        rec.create_global_function_binding(&String::from("kept"), Value::Integer(7));
        agent.env_put(g, rec);
    }
    let script = var_script(&["kept", "fresh"]);
    let r = GlobalObject::eval(&mut agent, Some(&script));
    assert!(ok_is(&r, &Value::Undefined));
    let rec = agent.env_ref(g);
    let kept = rec
        .var_bindings
        .iter()
        .find(|b| b.name == String::from("kept"))
        .unwrap();
    assert!(matches!(kept.value, Some(Value::Integer(7))));
    let fresh = rec
        .var_bindings
        .iter()
        .find(|b| b.name == String::from("fresh"))
        .unwrap();
    assert!(matches!(fresh.value, Some(Value::Undefined)));
    assert!(fresh.mutable);
    assert!(!fresh.deletable);
}
