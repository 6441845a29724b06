use nova_core::array::{array_try_set_length, Array};
use nova_core::elements::ElementDescriptor;
use nova_core::gc::mark_and_sweep;
use nova_core::heap::{Heap, ObjectHandle, ObjectRecord};
use nova_core::iterator::{ArrayValuesIterator, ObjectPropertiesIterator, VmIterator};
use nova_core::object::ordinary_define_own_property;
use nova_core::value::{
    same_value, ExceptionType, JsError, PropertyDescriptor, PropertyKey, TryResult, Value,
};

fn v_eq(a: &Value, b: &Value) -> bool {
    same_value(a, b)
}

fn ints(vals: &[i64]) -> Vec<Value> {
    vals.iter().map(|v| Value::Integer(*v)).collect()
}

fn full_data(v: Value) -> PropertyDescriptor {
    PropertyDescriptor::new_data(v, true, true, true)
}

fn value_only(v: Value) -> PropertyDescriptor {
    PropertyDescriptor {
        value: Some(v),
        writable: None,
        get: None,
        set: None,
        enumerable: None,
        configurable: None,
    }
}

fn expect_ok_bool(r: TryResult<Result<bool, JsError>>) -> bool {
    match r {
        TryResult::Continue(Ok(b)) => b,
        _ => panic!("expected a finished boolean"),
    }
}

fn get_value(h: &Heap, a: Array, i: i64) -> Value {
    match a.try_get(h, &PropertyKey::Integer(i), None) {
        TryResult::Continue(Ok(v)) => v,
        _ => panic!("expected a finished get"),
    }
}

#[test]
fn create_array_from_list_round_trip() {
    // Reading back the indices of a freshly created array returns the
    // values it was created from, in order.
    let mut h = Heap::new();
    let a = Array::from_slice(&mut h, &ints(&[7, 8, 9]));
    assert_eq!(a.len(&h), 3);
    assert!(!a.is_empty(&h));
    assert!(a.length_writable(&h));
    for i in 0..3 {
        assert!(v_eq(&get_value(&h, a, i), &Value::Integer(7 + i)));
    }
}

#[test]
fn get_own_property_beyond_length_is_absent() {
    let mut h = Heap::new();
    let a = Array::from_slice(&mut h, &ints(&[1]));
    match a.try_get_own_property(&h, &PropertyKey::Integer(1)) {
        TryResult::Continue(d) => assert!(d.is_none()),
        _ => panic!("expected a finished lookup"),
    }
    match a.try_get_own_property(&h, &PropertyKey::Integer(100)) {
        TryResult::Continue(d) => assert!(d.is_none()),
        _ => panic!("expected a finished lookup"),
    }
}

#[test]
fn define_then_get_own_round_trips() {
    let mut h = Heap::new();
    let a = Array::from_slice(&mut h, &ints(&[]));
    let desc = full_data(Value::Integer(42));
    let ok = expect_ok_bool(a.try_define_own_property(
        &mut h,
        &PropertyKey::Integer(3),
        &desc,
        None,
    ));
    assert!(ok);
    match a.try_get_own_property(&h, &PropertyKey::Integer(3)) {
        TryResult::Continue(Some(d)) => {
            assert!(matches!(d.value, Some(Value::Integer(42))));
            assert_eq!(d.writable, Some(true));
            assert_eq!(d.enumerable, Some(true));
            assert_eq!(d.configurable, Some(true));
        },
        _ => panic!("expected the defined property"),
    }
}

#[test]
fn length_shrink_stops_at_non_configurable() {
    // A = [10, 20, 30, 40]; define "2" non-configurable; set length to 1:
    // the define reports false and the length stops just above the blocker.
    let mut h = Heap::new();
    let a = Array::from_slice(&mut h, &ints(&[10, 20, 30, 40]));
    let frozen = PropertyDescriptor {
        value: Some(Value::Integer(30)),
        writable: None,
        get: None,
        set: None,
        enumerable: None,
        configurable: Some(false),
    };
    assert!(expect_ok_bool(a.try_define_own_property(
        &mut h,
        &PropertyKey::Integer(2),
        &frozen,
        None,
    )));
    let r = a.try_define_own_property(
        &mut h,
        &PropertyKey::String(String::from("length")),
        &value_only(Value::Integer(1)),
        None,
    );
    assert!(!expect_ok_bool(r));
    assert_eq!(a.len(&h), 3);
    assert!(v_eq(&get_value(&h, a, 0), &Value::Integer(10)));
    assert!(v_eq(&get_value(&h, a, 1), &Value::Integer(20)));
    assert!(v_eq(&get_value(&h, a, 2), &Value::Integer(30)));
}

#[test]
fn length_set_truncates() {
    let mut h = Heap::new();
    let a = Array::from_slice(&mut h, &ints(&[1, 2, 3, 4]));
    let r = array_try_set_length(&mut h, a, &value_only(Value::Integer(2)));
    assert!(expect_ok_bool(r));
    assert_eq!(a.len(&h), 2);
    // Truncated slots read as undefined through the (empty) prototype chain.
    assert!(v_eq(&get_value(&h, a, 2), &Value::Undefined));
}

#[test]
fn length_out_of_range_is_range_error() {
    let mut h = Heap::new();
    let a = Array::from_slice(&mut h, &ints(&[1]));
    let r = array_try_set_length(&mut h, a, &value_only(Value::Integer(-1)));
    match r {
        TryResult::Continue(Err(e)) => assert_eq!(e.kind, ExceptionType::RangeError),
        _ => panic!("expected a RangeError"),
    }
}

#[test]
fn frozen_length_blocks_growth() {
    let mut h = Heap::new();
    let a = Array::from_slice(&mut h, &ints(&[5]));
    // Freeze the length.
    let freeze = PropertyDescriptor {
        value: None,
        writable: Some(false),
        get: None,
        set: None,
        enumerable: None,
        configurable: None,
    };
    assert!(expect_ok_bool(array_try_set_length(&mut h, a, &freeze)));
    assert!(!a.length_writable(&h));
    // Defining at or beyond the length now fails, and the flag stays off.
    let r = a.try_define_own_property(
        &mut h,
        &PropertyKey::Integer(1),
        &full_data(Value::Integer(9)),
        None,
    );
    assert!(!expect_ok_bool(r));
    assert!(!a.length_writable(&h));
    assert_eq!(a.len(&h), 1);
}

#[test]
fn sparse_growth_fills_holes() {
    // A = []; define "5": the length becomes 6, indices 0-4 are holes that
    // read as undefined, and the own keys are the index and "length".
    let mut h = Heap::new();
    let a = Array::from_slice(&mut h, &ints(&[]));
    let ok = expect_ok_bool(a.try_define_own_property(
        &mut h,
        &PropertyKey::Integer(5),
        &full_data(Value::String(String::from("x"))),
        None,
    ));
    assert!(ok);
    assert_eq!(a.len(&h), 6);
    for i in 0..5 {
        assert!(v_eq(&get_value(&h, a, i), &Value::Undefined));
    }
    assert!(v_eq(&get_value(&h, a, 5), &Value::String(String::from("x"))));
    match a.try_own_property_keys(&h) {
        TryResult::Continue(keys) => {
            assert_eq!(keys.len(), 2);
            assert!(matches!(keys[0], PropertyKey::Integer(5)));
            assert!(matches!(&keys[1], PropertyKey::String(s) if s.as_str() == "length"));
        },
        _ => panic!("expected keys"),
    }
}

#[test]
fn own_keys_ascend_and_follow_insertion() {
    // Integer keys enumerate in ascending numeric order even when defined
    // out of order; string keys keep insertion order after them.
    let mut h = Heap::new();
    let o = h.create_object(ObjectRecord {
        prototype: None,
        extensible: true,
        properties: Vec::new(),
    });
    for key in [
        PropertyKey::String(String::from("zeta")),
        PropertyKey::Integer(9),
        PropertyKey::String(String::from("alpha")),
        PropertyKey::Integer(2),
    ] {
        assert!(ordinary_define_own_property(
            &mut h,
            o,
            &key,
            &full_data(Value::Integer(0)),
        ));
    }
    let keys = nova_core::object::ordinary_own_property_keys(&h, o);
    assert_eq!(keys.len(), 4);
    assert!(matches!(keys[0], PropertyKey::Integer(2)));
    assert!(matches!(keys[1], PropertyKey::Integer(9)));
    assert!(matches!(&keys[2], PropertyKey::String(s) if s == "zeta"));
    assert!(matches!(&keys[3], PropertyKey::String(s) if s == "alpha"));
}

#[test]
fn delete_clears_configurable_elements_only() {
    let mut h = Heap::new();
    let a = Array::from_slice(&mut h, &ints(&[1, 2]));
    // "length" deletes vacuously by convention.
    match a.try_delete(&mut h, &PropertyKey::String(String::from("length"))) {
        TryResult::Continue(b) => assert!(b),
        _ => panic!("expected a finished delete"),
    }
    // A default element deletes.
    match a.try_delete(&mut h, &PropertyKey::Integer(0)) {
        TryResult::Continue(b) => assert!(b),
        _ => panic!("expected a finished delete"),
    }
    assert!(v_eq(&get_value(&h, a, 0), &Value::Undefined));
    // A non-configurable element refuses.
    let frozen = PropertyDescriptor {
        value: Some(Value::Integer(2)),
        writable: None,
        get: None,
        set: None,
        enumerable: None,
        configurable: Some(false),
    };
    assert!(expect_ok_bool(a.try_define_own_property(
        &mut h,
        &PropertyKey::Integer(1),
        &frozen,
        None,
    )));
    match a.try_delete(&mut h, &PropertyKey::Integer(1)) {
        TryResult::Continue(b) => assert!(!b),
        _ => panic!("expected a finished delete"),
    }
}

#[test]
fn shallow_clone_drops_accessors() {
    // Cloning copies values but not descriptors: a cloned accessor slot
    // becomes a hole.
    let mut h = Heap::new();
    let a = Array::from_slice(&mut h, &ints(&[1, 2]));
    let accessor = PropertyDescriptor {
        value: None,
        writable: None,
        get: Some(0),
        set: None,
        enumerable: Some(true),
        configurable: Some(true),
    };
    assert!(expect_ok_bool(a.try_define_own_property(
        &mut h,
        &PropertyKey::Integer(0),
        &accessor,
        None,
    )));
    assert!(!a.is_simple(&h));
    assert!(!a.is_trivial(&h));
    assert!(!a.is_dense(&h));
    let c = a.to_cloned(&mut h);
    assert_eq!(c.len(&h), 2);
    assert!(c.is_trivial(&h));
    // The accessor slot of the clone is a hole now.
    match c.try_get_own_property(&h, &PropertyKey::Integer(0)) {
        TryResult::Continue(d) => assert!(d.is_none()),
        _ => panic!("expected a finished lookup"),
    }
    assert!(v_eq(&get_value(&h, c, 1), &Value::Integer(2)));
}

#[test]
fn array_values_iterate_in_order_single_pass() {
    let mut h = Heap::new();
    let a = Array::from_slice(&mut h, &ints(&[4, 5, 6]));
    let mut it = ArrayValuesIterator::new(a);
    for expected in [4i64, 5, 6] {
        match it.next(&h, None) {
            TryResult::Continue(Ok(Some(v))) => assert!(v_eq(&v, &Value::Integer(expected))),
            _ => panic!("expected an element"),
        }
    }
    for _ in 0..2 {
        match it.next(&h, None) {
            TryResult::Continue(Ok(None)) => {},
            _ => panic!("expected the iterator to stay finished"),
        }
    }
}

#[test]
fn array_values_accessor_slot_needs_the_host() {
    // for-of over [accessor, 2]: the accessor step breaks out to the host
    // (which would call the getter), then iteration resumes at the value.
    let mut h = Heap::new();
    let a = Array::from_slice(&mut h, &ints(&[1, 2]));
    let accessor = PropertyDescriptor {
        value: None,
        writable: None,
        get: Some(0),
        set: None,
        enumerable: Some(true),
        configurable: Some(true),
    };
    assert!(expect_ok_bool(a.try_define_own_property(
        &mut h,
        &PropertyKey::Integer(0),
        &accessor,
        None,
    )));
    let mut it = ArrayValuesIterator::new(a);
    assert!(matches!(it.next(&h, None), TryResult::Break));
    match it.next(&h, None) {
        TryResult::Continue(Ok(Some(v))) => assert!(v_eq(&v, &Value::Integer(2))),
        _ => panic!("expected the second element"),
    }
    assert!(matches!(it.next(&h, None), TryResult::Continue(Ok(None))));
}

#[test]
fn invalid_iterator_throws_type_error() {
    let h = Heap::new();
    let mut it = VmIterator::InvalidIterator;
    match it.step_value(&h, None) {
        TryResult::Continue(Err(e)) => assert_eq!(e.kind, ExceptionType::TypeError),
        _ => panic!("expected a TypeError"),
    }
}

#[test]
fn missing_iterator_method_throws_type_error() {
    // An object without @@iterator cannot begin iteration.
    let mut h = Heap::new();
    let o = h.create_object(ObjectRecord {
        prototype: None,
        extensible: true,
        properties: Vec::new(),
    });
    match VmIterator::from_value(&h, &Value::Object(o), None, None) {
        TryResult::Continue(Err(e)) => assert_eq!(e.kind, ExceptionType::TypeError),
        _ => panic!("expected a TypeError"),
    }
}

#[test]
fn for_in_never_repeats_shadowed_keys() {
    // proto has enumerable "a"; the child shadows "a" with a
    // non-enumerable own property and adds "b": enumeration yields only
    // "b", and the shadowed "a" is not reported again at the ancestor.
    let mut h = Heap::new();
    let proto = h.create_object(ObjectRecord {
        prototype: None,
        extensible: true,
        properties: Vec::new(),
    });
    assert!(ordinary_define_own_property(
        &mut h,
        proto,
        &PropertyKey::String(String::from("a")),
        &full_data(Value::Integer(1)),
    ));
    let child = h.create_object(ObjectRecord {
        prototype: Some(ObjectHandle::Ordinary(proto)),
        extensible: true,
        properties: Vec::new(),
    });
    let hidden = PropertyDescriptor {
        value: Some(Value::Integer(2)),
        writable: Some(true),
        get: None,
        set: None,
        enumerable: Some(false),
        configurable: Some(true),
    };
    assert!(ordinary_define_own_property(
        &mut h,
        child,
        &PropertyKey::String(String::from("a")),
        &hidden,
    ));
    assert!(ordinary_define_own_property(
        &mut h,
        child,
        &PropertyKey::String(String::from("b")),
        &full_data(Value::Integer(3)),
    ));
    let mut it = ObjectPropertiesIterator::new(ObjectHandle::Ordinary(child));
    let mut seen: Vec<String> = Vec::new();
    loop {
        match it.next(&h, None) {
            Ok(Some(PropertyKey::String(s))) => {
                assert!(!seen.contains(&s), "a key was yielded twice");
                seen.push(s);
            },
            Ok(Some(_)) => panic!("expected string keys"),
            Ok(None) => break,
            Err(_) => panic!("unexpected throw"),
        }
    }
    assert_eq!(seen, vec![String::from("b")]);
}

#[test]
fn collection_keeps_rooted_records() {
    // Two arrays; only one is rooted. After a cycle the rooted handle
    // resolves, through its rewritten index, to the same contents, and the
    // unrooted array is gone.
    let mut h = Heap::new();
    let _garbage = Array::from_slice(&mut h, &ints(&[100, 200]));
    let live = Array::from_slice(&mut h, &ints(&[7]));
    let mut roots = vec![Value::Array(live.0)];
    let _c = mark_and_sweep(&mut h, &mut roots);
    let new_handle = match roots[0] {
        Value::Array(x) => Array(x),
        _ => panic!("the root must stay an array"),
    };
    assert_eq!(new_handle.len(&h), 1);
    assert!(v_eq(&get_value(&h, new_handle, 0), &Value::Integer(7)));
    // Only the rooted array and its storage survive.
    assert_eq!(h.arrays.len(), 1);
    assert_eq!(h.storages.len(), 1);
}

#[test]
fn collection_rewrites_references_between_records() {
    // An array whose element refers to another array: rooting the outer
    // array keeps the inner one alive, with the reference rewritten.
    let mut h = Heap::new();
    let _garbage = Array::from_slice(&mut h, &ints(&[0]));
    let inner = Array::from_slice(&mut h, &ints(&[11]));
    let outer = Array::from_slice(&mut h, &vec![Value::Array(inner.0)]);
    let mut roots = vec![Value::Array(outer.0)];
    let _c = mark_and_sweep(&mut h, &mut roots);
    let outer2 = match roots[0] {
        Value::Array(x) => Array(x),
        _ => panic!("the root must stay an array"),
    };
    let inner2 = match get_value(&h, outer2, 0) {
        Value::Array(x) => Array(x),
        v => panic!("expected an array element, got {:?}", v),
    };
    assert_eq!(inner2.len(&h), 1);
    assert!(v_eq(&get_value(&h, inner2, 0), &Value::Integer(11)));
    assert_eq!(h.arrays.len(), 2);
}

#[test]
fn element_descriptor_round_trip() {
    let d = ElementDescriptor::new_with_wec(true, true, true);
    assert!(d.is_none());
    let d = ElementDescriptor::new_with_wec(false, true, true).unwrap();
    assert_eq!(d.is_writable(), Some(false));
    assert!(d.is_enumerable());
    assert!(d.is_configurable());
    assert!(d.getter_function().is_none());
}

#[test]
fn for_in_over_an_array_yields_index_strings() {
    // for-in over an array enumerates the element indices as strings; the
    // non-enumerable "length" is skipped.
    let mut h = Heap::new();
    let a = Array::from_slice(&mut h, &ints(&[9, 8]));
    let mut it = VmIterator::ObjectProperties(ObjectPropertiesIterator::new(
        ObjectHandle::Array(a.0),
    ));
    let mut seen: Vec<String> = Vec::new();
    loop {
        match it.step_value(&h, None) {
            TryResult::Continue(Ok(Some(Value::String(s)))) => seen.push(s),
            TryResult::Continue(Ok(Some(_))) => panic!("for-in keys must be strings"),
            TryResult::Continue(Ok(None)) => break,
            _ => panic!("unexpected step outcome"),
        }
    }
    assert_eq!(seen, vec![String::from("0"), String::from("1")]);
}

#[test]
fn key_and_value_helpers_classify() {
    assert!(nova_core::value::key_is_length(&PropertyKey::String(String::from("length"))));
    assert!(!nova_core::value::key_is_length(&PropertyKey::String(String::from("len"))));
    assert!(!nova_core::value::key_is_length(&PropertyKey::Integer(0)));
    assert!(Value::Undefined.is_undefined());
    assert!(!Value::Null.is_undefined());
    assert!(v_eq(&Value::nan(), &Value::Number(nova_core::value::CANONICAL_NAN_BITS)));
}

#[test]
fn sealing_freezes_length_and_backing() {
    let mut h = Heap::new();
    let a = Array::from_slice(&mut h, &ints(&[1]));
    a.internal_set_extensible(&mut h, false, None);
    assert!(!a.length_writable(&h));
    // Growth is now refused.
    let r = a.try_define_own_property(
        &mut h,
        &PropertyKey::Integer(1),
        &full_data(Value::Integer(2)),
        None,
    );
    assert!(!expect_ok_bool(r));
}

#[test]
fn setting_a_prototype_materialises_the_backing_object() {
    let mut h = Heap::new();
    let proto = h.create_object(ObjectRecord {
        prototype: None,
        extensible: true,
        properties: Vec::new(),
    });
    assert!(ordinary_define_own_property(
        &mut h,
        proto,
        &PropertyKey::Integer(0),
        &full_data(Value::Integer(99)),
    ));
    let a = Array::from_slice(&mut h, &ints(&[]));
    // Keeping the default prototype allocates nothing.
    a.internal_set_prototype(&mut h, None, None);
    assert!(a.get_backing_object(&h).is_none());
    // A custom prototype forces the backing object, and reads beyond the
    // length now fall through to it.
    a.internal_set_prototype(&mut h, Some(ObjectHandle::Ordinary(proto)), None);
    assert!(a.get_backing_object(&h).is_some());
    assert!(v_eq(&get_value(&h, a, 0), &Value::Integer(99)));
}

