use avm1_object::heap::{search_prototype, Heap};
use avm1_object::names::index_name;
use avm1_object::object::Object;
use avm1_object::value::{Attributes, DisplayObject, Error, Executable, Property, ReturnValue, Value};

fn text(s: &str) -> Value {
    Value::String(s.to_string())
}

fn immediate(v: Value) -> Result<ReturnValue, Error> {
    Ok(ReturnValue::Immediate(v))
}

fn sorted_keys(o: Object, heap: &Heap) -> Vec<String> {
    let mut keys = o.get_keys(heap);
    keys.sort();
    keys
}

/// Builds `count` objects, each the prototype of the next; returns them root first.
fn chain(heap: &mut Heap, count: usize) -> Vec<Object> {
    let mut objects: Vec<Object> = Vec::new();
    let mut proto = None;
    for _ in 0..count {
        let o = heap.new_script_object(proto);
        objects.push(o);
        proto = Some(o);
    }
    objects
}

#[test]
fn get_prefers_own_property() {
    let mut heap = Heap::new();
    let proto = heap.new_script_object(None);
    let obj = heap.new_script_object(Some(proto));
    proto.define_value(&mut heap, "p", text("inherited"), Attributes::empty());
    obj.define_value(&mut heap, "p", text("own"), Attributes::empty());
    assert_eq!(obj.get(&heap, "p"), immediate(text("own")));
    assert_eq!(obj.get(&heap, "p"), obj.get_local(&heap, "p", obj));
}

#[test]
fn get_reads_first_ancestor_with_receiver() {
    let mut heap = Heap::new();
    let root = heap.new_script_object(None);
    let middle = heap.new_script_object(Some(root));
    let obj = heap.new_script_object(Some(middle));
    root.define_value(&mut heap, "p", Value::Number(1), Attributes::empty());
    middle.define_value(&mut heap, "p", Value::Number(2), Attributes::empty());
    assert_eq!(obj.get(&heap, "p"), immediate(Value::Number(2)));
    let getter = Executable { id: 7 };
    root.add_property(&mut heap, "q", getter, None, Attributes::empty());
    assert_eq!(
        obj.get(&heap, "q"),
        Ok(ReturnValue::Invoke { function: getter, this: obj, args: vec![] })
    );
    assert_eq!(obj.get(&heap, "missing"), immediate(Value::Undefined));
    assert!(!obj.has_own_property(&heap, "p"));
    assert!(obj.has_property(&heap, "p"));
}

#[test]
fn get_local_ignores_prototype() {
    let mut heap = Heap::new();
    let proto = heap.new_script_object(None);
    let obj = heap.new_script_object(Some(proto));
    proto.define_value(&mut heap, "p", Value::Bool(true), Attributes::empty());
    assert_eq!(obj.get_local(&heap, "p", obj), immediate(Value::Undefined));
}

#[test]
fn own_property_unaffected_by_proto_change() {
    let mut heap = Heap::new();
    let a = heap.new_script_object(None);
    let b = heap.new_script_object(None);
    let obj = heap.new_script_object(Some(a));
    a.define_value(&mut heap, "x", Value::Null, Attributes::empty());
    obj.define_value(&mut heap, "own", Value::Null, Attributes::empty());
    let before_own = obj.has_own_property(&heap, "own");
    let before_x = obj.has_own_property(&heap, "x");
    obj.set_proto(&mut heap, Some(b));
    assert_eq!(obj.proto(&heap), Some(b));
    assert_eq!(obj.has_own_property(&heap, "own"), before_own);
    assert_eq!(obj.has_own_property(&heap, "x"), before_x);
    obj.set_proto(&mut heap, None);
    assert!(obj.has_own_property(&heap, "own"));
    assert!(!obj.has_own_property(&heap, "x"));
}

#[test]
fn chain_of_256_prototypes_is_too_deep() {
    let mut heap = Heap::new();
    let protos = chain(&mut heap, 256);
    protos[0].define_value(&mut heap, "target", Value::Number(1), Attributes::empty());
    let obj = heap.new_script_object(Some(protos[255]));
    assert_eq!(obj.get(&heap, "target"), Err(Error::PrototypeChainTooDeep));
}

#[test]
fn property_at_255th_ancestor_is_found() {
    let mut heap = Heap::new();
    let protos = chain(&mut heap, 255);
    protos[0].define_value(&mut heap, "target", Value::Number(1), Attributes::empty());
    let obj = heap.new_script_object(Some(protos[254]));
    assert_eq!(obj.get(&heap, "target"), immediate(Value::Number(1)));
}

#[test]
fn chain_ending_after_255_steps_is_undefined() {
    let mut heap = Heap::new();
    let protos = chain(&mut heap, 255);
    let obj = heap.new_script_object(Some(protos[254]));
    assert_eq!(obj.get(&heap, "target"), immediate(Value::Undefined));
    assert_eq!(search_prototype(Some(protos[254]), "target", &heap, obj), immediate(Value::Undefined));
}

#[test]
fn cyclic_chain_fails_instead_of_looping() {
    let mut heap = Heap::new();
    let a = heap.new_script_object(None);
    let b = heap.new_script_object(Some(a));
    a.set_proto(&mut heap, Some(b));
    assert_eq!(a.get(&heap, "nothing"), Err(Error::PrototypeChainTooDeep));
    assert!(!a.has_property(&heap, "nothing"));
}

#[test]
fn is_prototype_of_ancestors_only() {
    let mut heap = Heap::new();
    let root = heap.new_script_object(None);
    let middle = heap.new_script_object(Some(root));
    let obj = heap.new_script_object(Some(middle));
    assert!(root.is_prototype_of(&heap, obj));
    assert!(middle.is_prototype_of(&heap, obj));
    assert!(!obj.is_prototype_of(&heap, obj));
    assert!(!obj.is_prototype_of(&heap, root));
    let other = heap.new_script_object(None);
    assert!(!other.is_prototype_of(&heap, obj));
}

#[test]
fn is_prototype_of_self_in_cycle() {
    let mut heap = Heap::new();
    let a = heap.new_script_object(None);
    let b = heap.new_script_object(Some(a));
    a.set_proto(&mut heap, Some(b));
    assert!(a.is_prototype_of(&heap, a));
    assert!(b.is_prototype_of(&heap, a));
    let outsider = heap.new_script_object(Some(a));
    assert!(!outsider.is_prototype_of(&heap, a));
}

#[test]
fn set_length_fills_both_storages() {
    let mut heap = Heap::new();
    let obj = heap.new_script_object(None);
    obj.set_length(&mut heap, 3);
    assert_eq!(obj.get_length(&heap), 3);
    assert_eq!(obj.get_array(&heap), vec![Value::Undefined, Value::Undefined, Value::Undefined]);
    assert_eq!(sorted_keys(obj, &heap), vec!["0".to_string(), "1".to_string(), "2".to_string()]);
}

#[test]
fn set_length_shrinks_both_storages() {
    let mut heap = Heap::new();
    let obj = heap.new_script_object(None);
    obj.set_array_element(&mut heap, 0, text("a"));
    obj.set_array_element(&mut heap, 1, text("b"));
    obj.set_array_element(&mut heap, 2, text("c"));
    obj.define_value(&mut heap, "name", Value::Null, Attributes::empty());
    obj.set_length(&mut heap, 1);
    assert_eq!(obj.get_array(&heap), vec![text("a")]);
    assert_eq!(sorted_keys(obj, &heap), vec!["0".to_string(), "name".to_string()]);
    assert_eq!(obj.get_array_element(&heap, 2), Value::Undefined);
}

#[test]
fn set_array_element_past_end_backfills() {
    let mut heap = Heap::new();
    let obj = heap.new_script_object(None);
    obj.set_array_element(&mut heap, 0, text("a"));
    obj.set_array_element(&mut heap, 1, text("b"));
    assert_eq!(obj.get_length(&heap), 2);
    let len = obj.set_array_element(&mut heap, 5, text("v"));
    assert_eq!(len, 6);
    assert_eq!(obj.get_length(&heap), 6);
    assert_eq!(
        obj.get_array(&heap),
        vec![text("a"), text("b"), Value::Undefined, Value::Undefined, Value::Undefined, text("v")]
    );
    assert_eq!(obj.get(&heap, "5"), immediate(text("v")));
    assert_eq!(obj.get(&heap, "3"), immediate(Value::Undefined));
    assert!(obj.has_own_property(&heap, "3"));
    assert_eq!(obj.get_keys(&heap).len(), 6);
}

#[test]
fn set_array_element_within_length_keeps_length() {
    let mut heap = Heap::new();
    let obj = heap.new_script_object(None);
    obj.set_length(&mut heap, 4);
    assert_eq!(obj.set_array_element(&mut heap, 1, Value::Number(9)), 4);
    assert_eq!(obj.get_array_element(&heap, 1), Value::Number(9));
    assert_eq!(obj.get_local(&heap, "1", obj), immediate(Value::Number(9)));
}

#[test]
fn delete_array_element_leaves_hole() {
    let mut heap = Heap::new();
    let obj = heap.new_script_object(None);
    obj.set_array_element(&mut heap, 0, text("a"));
    obj.set_array_element(&mut heap, 1, text("b"));
    obj.set_array_element(&mut heap, 2, text("c"));
    obj.delete_array_element(&mut heap, 1);
    assert_eq!(obj.get_length(&heap), 3);
    assert!(!obj.has_own_property(&heap, "1"));
    assert_eq!(obj.get_array_element(&heap, 1), Value::Undefined);
    assert_eq!(obj.get_array_element(&heap, 0), text("a"));
    assert_eq!(obj.get_array_element(&heap, 2), text("c"));
    assert_eq!(obj.get(&heap, "0"), immediate(text("a")));
    assert_eq!(obj.get(&heap, "2"), immediate(text("c")));
    obj.delete_array_element(&mut heap, 10);
    assert_eq!(obj.get_length(&heap), 3);
}

#[test]
fn array_operations_skip_accessors_and_prototype() {
    let mut heap = Heap::new();
    let proto = heap.new_script_object(None);
    proto.set_array_element(&mut heap, 0, text("from proto"));
    let obj = heap.new_script_object(Some(proto));
    assert_eq!(obj.get_array_element(&heap, 0), Value::Undefined);
    obj.add_property(&mut heap, "0", Executable { id: 1 }, None, Attributes::empty());
    assert_eq!(obj.get_array_element(&heap, 0), Value::Undefined);
    obj.set_array_element(&mut heap, 0, Value::Bool(false));
    assert_eq!(obj.get(&heap, "0"), immediate(Value::Bool(false)));
}

#[test]
fn delete_permanent_property_fails() {
    let mut heap = Heap::new();
    let obj = heap.new_script_object(None);
    obj.define_value(&mut heap, "p", text("kept"), Attributes::permanent());
    assert!(!obj.delete(&mut heap, "p"));
    assert_eq!(obj.get(&heap, "p"), immediate(text("kept")));
}

#[test]
fn delete_removes_own_property() {
    let mut heap = Heap::new();
    let proto = heap.new_script_object(None);
    let obj = heap.new_script_object(Some(proto));
    proto.define_value(&mut heap, "p", Value::Number(1), Attributes::empty());
    obj.define_value(&mut heap, "p", Value::Number(2), Attributes::empty());
    assert!(obj.delete(&mut heap, "p"));
    assert!(!obj.has_own_property(&heap, "p"));
    assert_eq!(obj.get(&heap, "p"), immediate(Value::Number(1)));
    assert!(!obj.delete(&mut heap, "absent"));
}

#[test]
fn ptr_eq_is_allocation_identity() {
    let mut heap = Heap::new();
    let a = heap.new_script_object(None);
    let b = heap.new_script_object(None);
    let copy = a;
    assert!(Object::ptr_eq(a, copy));
    assert!(!Object::ptr_eq(a, b));
    a.set(&mut heap, "x", Value::Number(3)).unwrap();
    let _ = a.get(&heap, "x");
    b.define_value(&mut heap, "y", Value::Object(a), Attributes::empty());
    assert!(Object::ptr_eq(a, copy));
    assert!(!Object::ptr_eq(a, b));
    match b.get(&heap, "y") {
        Ok(ReturnValue::Immediate(Value::Object(o))) => assert!(Object::ptr_eq(o, a)),
        other => panic!("unexpected {:?}", other),
    }
}

#[test]
fn set_stored_and_new_properties() {
    let mut heap = Heap::new();
    let obj = heap.new_script_object(None);
    assert_eq!(obj.set(&mut heap, "fresh", Value::Number(1)), immediate(Value::Undefined));
    assert_eq!(obj.get(&heap, "fresh"), immediate(Value::Number(1)));
    assert!(obj.is_property_enumerable(&heap, "fresh"));
    obj.define_value(&mut heap, "hidden", Value::Null, Attributes::hidden());
    assert_eq!(obj.set(&mut heap, "hidden", Value::Number(2)), immediate(Value::Undefined));
    assert_eq!(obj.get(&heap, "hidden"), immediate(Value::Number(2)));
    assert!(!obj.is_property_enumerable(&heap, "hidden"));
}

#[test]
fn set_read_only_is_rejected() {
    let mut heap = Heap::new();
    let obj = heap.new_script_object(None);
    obj.define_value(&mut heap, "ro", Value::Number(1), Attributes::read_only());
    assert!(!obj.is_property_overwritable(&heap, "ro"));
    assert_eq!(obj.set(&mut heap, "ro", Value::Number(2)), Err(Error::PropertyReadOnly));
    assert_eq!(obj.get(&heap, "ro"), immediate(Value::Number(1)));
}

#[test]
fn set_virtual_property_uses_setter() {
    let mut heap = Heap::new();
    let obj = heap.new_script_object(None);
    let getter = Executable { id: 1 };
    let setter = Executable { id: 2 };
    obj.add_property(&mut heap, "with_setter", getter, Some(setter), Attributes::empty());
    obj.add_property(&mut heap, "getter_only", getter, None, Attributes::empty());
    assert!(obj.is_property_overwritable(&heap, "with_setter"));
    assert!(!obj.is_property_overwritable(&heap, "getter_only"));
    assert_eq!(
        obj.set(&mut heap, "with_setter", Value::Number(5)),
        Ok(ReturnValue::Invoke { function: setter, this: obj, args: vec![Value::Number(5)] })
    );
    assert_eq!(obj.set(&mut heap, "getter_only", Value::Number(5)), Err(Error::PropertyReadOnly));
    assert_eq!(
        obj.get(&heap, "getter_only"),
        Ok(ReturnValue::Invoke { function: getter, this: obj, args: vec![] })
    );
}

#[test]
fn define_value_replaces_virtual_property() {
    let mut heap = Heap::new();
    let obj = heap.new_script_object(None);
    obj.add_property(&mut heap, "p", Executable { id: 1 }, None, Attributes::empty());
    obj.define_value(&mut heap, "p", Value::Number(4), Attributes::empty());
    assert_eq!(obj.get(&heap, "p"), immediate(Value::Number(4)));
    assert_eq!(obj.get_keys(&heap), vec!["p".to_string()]);
}

#[test]
fn get_keys_excludes_hidden() {
    let mut heap = Heap::new();
    let proto = heap.new_script_object(None);
    let obj = heap.new_script_object(Some(proto));
    proto.define_value(&mut heap, "inherited", Value::Null, Attributes::empty());
    obj.define_value(&mut heap, "a", Value::Null, Attributes::empty());
    obj.define_value(&mut heap, "b", Value::Null, Attributes::hidden().union(Attributes::permanent()));
    obj.define_value(&mut heap, "a", Value::Number(1), Attributes::empty());
    obj.add_property(&mut heap, "c", Executable { id: 3 }, None, Attributes::read_only());
    assert_eq!(sorted_keys(obj, &heap), vec!["a".to_string(), "c".to_string()]);
}

#[test]
fn attribute_union_and_intersection() {
    let both = Attributes::hidden().union(Attributes::read_only());
    assert!(both.hidden && both.read_only && !both.permanent);
    let common = both.intersection(Attributes::read_only());
    assert_eq!(common, Attributes::read_only());
    assert_eq!(Attributes::hidden().intersection(Attributes::permanent()), Attributes::empty());
}

#[test]
fn call_and_construct() {
    let mut heap = Heap::new();
    let function = Executable { id: 11 };
    let prototype = heap.new_script_object(None);
    let constructor = heap.new_function_object(function, None);
    let instance = constructor.new(&mut heap, prototype, vec![]).unwrap();
    assert_eq!(instance.proto(&heap), Some(prototype));
    assert!(prototype.is_prototype_of(&heap, instance));
    assert!(!Object::ptr_eq(instance, prototype));
    assert_eq!(
        constructor.call(&heap, instance, vec![Value::Number(1)]),
        Ok(ReturnValue::Invoke { function, this: instance, args: vec![Value::Number(1)] })
    );
    assert_eq!(prototype.call(&heap, instance, vec![]), immediate(Value::Undefined));
    assert_eq!(constructor.as_executable(&heap), Some(function));
    assert_eq!(prototype.as_executable(&heap), None);
}

#[test]
fn kinds_and_coercions() {
    let mut heap = Heap::new();
    let display = DisplayObject { id: 42 };
    let stage = heap.new_stage_object(display, None);
    let plain = heap.new_script_object(None);
    let function = heap.new_function_object(Executable { id: 1 }, None);
    assert_eq!(stage.as_display_object(&heap), Some(display));
    assert_eq!(plain.as_display_object(&heap), None);
    assert!(stage.as_script_object().is_none());
    assert!(plain.as_script_object().is_some());
    assert_eq!(stage.type_of(&heap), "movieclip");
    assert_eq!(plain.type_of(&heap), "object");
    assert_eq!(function.type_of(&heap), "function");
    assert_eq!(plain.as_string(&heap), "[object Object]");
    assert_eq!(function.as_string(&heap), "[type Function]");
    assert!(heap.contains(stage));
    assert_eq!(heap.len(), 3);
    stage.define_value(&mut heap, "p", Value::Number(1), Attributes::empty());
    assert_eq!(stage.get(&heap, "p"), immediate(Value::Number(1)));
}

#[test]
fn index_names_are_decimal() {
    assert_eq!(index_name(0), "0");
    assert_eq!(index_name(7), "7");
    assert_eq!(index_name(10), "10");
    assert_eq!(index_name(255), "255");
    assert_eq!(index_name(1200), "1200");
}

#[test]
fn get_property_values() {
    let mut heap = Heap::new();
    let obj = heap.new_script_object(None);
    obj.define_value(&mut heap, "p", Value::Number(1), Attributes::permanent());
    obj.add_property(&mut heap, "q", Executable { id: 3 }, Some(Executable { id: 4 }), Attributes::hidden());
    assert!(!obj.delete(&mut heap, "p"));
    assert!(obj.delete(&mut heap, "q"));
    let p = Property::Stored { value: Value::Number(1), attributes: Attributes::permanent() };
    assert_eq!(p.attributes(), Attributes::permanent());
    assert_eq!(p.duplicate(), p);
    assert!(Value::Undefined.is_undefined());
    assert!(!Value::Null.is_undefined());
}
