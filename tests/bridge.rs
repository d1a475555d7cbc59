use ani_rs::de::deserialize;
use ani_rs::env::{AniEnv, AniRef, ClassRef, Prim, PrimKind, NULL_HANDLE, UNDEFINED_HANDLE};
use ani_rs::error::{finish_native_call, throw_ani_error, AniError, AniErrorCode, ErrorKind};
use ani_rs::ser::serialize;
use ani_rs::typed_array::{marker_of, Marker, TypedArray};
use ani_rs::callback::{ref_equals, GlobalCallback};
use ani_rs::value::{byte_items, Shape, Value};
use ani_rs::vm::{release_all, AniVm};

fn round_trip(env: &mut AniEnv, v: Value, s: Shape) -> Value {
    let r = serialize(env, &v).expect("serialize");
    deserialize(env, r, &s).expect("deserialize")
}

#[test]
fn scalars_round_trip() {
    let mut env = AniEnv::new();
    let cases = vec![
        (Value::Bool(true), Shape::Bool),
        (Value::Bool(false), Shape::Bool),
        (Value::I8(-128), Shape::I8),
        (Value::I16(i16::MAX), Shape::I16),
        (Value::I32(-7), Shape::I32),
        (Value::I64(i64::MIN), Shape::I64),
        (Value::Char(0x41), Shape::Char),
        (Value::Char(0x4E2D), Shape::Char),
        (Value::Str(String::from("héllo")), Shape::Str),
        (Value::Str(String::new()), Shape::Str),
        (Value::Unit, Shape::Unit),
    ];
    for (v, s) in cases {
        let expected = format!("{:?}", v);
        let back = round_trip(&mut env, v, s);
        assert_eq!(format!("{:?}", back), expected);
    }
}

#[test]
fn boxed_scalar_unboxes_to_its_value() {
    let mut env = AniEnv::new();
    let r = serialize(&mut env, &Value::I32(42)).unwrap();
    assert_eq!(env.unbox(r, PrimKind::I32).unwrap(), Prim::I32(42));
    assert!(env.unbox(r, PrimKind::I64).is_err());
}

#[test]
fn none_and_unit_are_different_foreign_values() {
    let mut env = AniEnv::new();
    let none = serialize(&mut env, &Value::Opt(None)).unwrap();
    let unit = serialize(&mut env, &Value::Unit).unwrap();
    assert_eq!(none.handle, UNDEFINED_HANDLE);
    assert_eq!(unit.handle, NULL_HANDLE);
    assert_ne!(none, unit);
    assert!(env.is_undefined(none).unwrap());
    assert!(!env.is_undefined(unit).unwrap());
    assert!(env.is_null(unit).unwrap());
    let shape = Shape::Opt(Box::new(Shape::I32));
    assert_eq!(deserialize(&env, none, &shape).unwrap(), Value::Opt(None));
    // null is not absent: it is read as the payload, which is no boxed integer
    assert!(deserialize(&env, unit, &shape).is_err());
    let unit_shape = Shape::Opt(Box::new(Shape::Unit));
    assert_eq!(
        deserialize(&env, unit, &unit_shape).unwrap(),
        Value::Opt(Some(Box::new(Value::Unit)))
    );
}

#[test]
fn option_field_present_and_absent() {
    let mut env = AniEnv::new();
    let shape = Shape::Opt(Box::new(Shape::I32));
    let some = serialize(&mut env, &Value::Opt(Some(Box::new(Value::I32(3))))).unwrap();
    let none = serialize(&mut env, &Value::Opt(None)).unwrap();
    assert!(!env.is_undefined(some).unwrap());
    assert!(env.is_undefined(none).unwrap());
    assert_eq!(
        deserialize(&env, some, &shape).unwrap(),
        Value::Opt(Some(Box::new(Value::I32(3))))
    );
    assert_eq!(deserialize(&env, none, &shape).unwrap(), Value::Opt(None));
}

#[test]
fn sequence_keeps_length_and_order() {
    let mut env = AniEnv::new();
    let v = Value::Sequence(vec![Value::I32(3), Value::I32(1), Value::I32(2)]);
    let r = serialize(&mut env, &v).unwrap();
    assert_eq!(env.array_length(r).unwrap(), 3);
    let back = deserialize(&env, r, &Shape::Sequence(Box::new(Shape::I32))).unwrap();
    assert_eq!(back, v);
    let empty = Value::Sequence(vec![]);
    let back = round_trip(&mut env, empty, Shape::Sequence(Box::new(Shape::Str)));
    assert_eq!(back, Value::Sequence(vec![]));
}

#[test]
fn nested_sequences_round_trip() {
    let mut env = AniEnv::new();
    let v = Value::Sequence(vec![
        Value::Sequence(vec![Value::Str(String::from("a"))]),
        Value::Sequence(vec![]),
        Value::Sequence(vec![Value::Str(String::from("b")), Value::Str(String::from("c"))]),
    ]);
    let s = Shape::Sequence(Box::new(Shape::Sequence(Box::new(Shape::Str))));
    let back = round_trip(&mut env, v, s);
    assert_eq!(
        back,
        Value::Sequence(vec![
            Value::Sequence(vec![Value::Str(String::from("a"))]),
            Value::Sequence(vec![]),
            Value::Sequence(vec![Value::Str(String::from("b")), Value::Str(String::from("c"))]),
        ])
    );
}

#[test]
fn typed_array_round_trips_its_bytes() {
    let mut env = AniEnv::new();
    let v = Value::Typed(TypedArray::Int16, vec![1, 0, 255, 255]);
    let r = serialize(&mut env, &v).unwrap();
    assert!(env.instance_of(r, &ClassRef::Typed(TypedArray::Int16)).unwrap());
    let back = deserialize(&env, r, &Shape::Typed(TypedArray::Int16)).unwrap();
    assert_eq!(back, v);
}

#[test]
fn empty_typed_array_round_trips_through_untyped_empty_array() {
    let mut env = AniEnv::new();
    let r = serialize(&mut env, &Value::Typed(TypedArray::Uint8, vec![])).unwrap();
    assert!(env.instance_of(r, &ClassRef::Array).unwrap());
    assert_eq!(env.array_length(r).unwrap(), 0);
    assert_eq!(
        deserialize(&env, r, &Shape::Typed(TypedArray::Uint8)).unwrap(),
        Value::Typed(TypedArray::Uint8, vec![])
    );
    let one = serialize(&mut env, &Value::Sequence(vec![Value::I8(1)])).unwrap();
    assert!(deserialize(&env, one, &Shape::Typed(TypedArray::Int8)).is_err());
}

#[test]
fn buffer_round_trips_and_empty_buffer_is_an_array() {
    let mut env = AniEnv::new();
    let r = serialize(&mut env, &Value::Buffer(vec![9, 8, 7])).unwrap();
    assert_eq!(env.array_buffer(r).unwrap(), &[9u8, 8, 7][..]);
    assert_eq!(deserialize(&env, r, &Shape::Buffer).unwrap(), Value::Buffer(vec![9, 8, 7]));
    let e = serialize(&mut env, &Value::Buffer(vec![])).unwrap();
    assert!(deserialize(&env, e, &Shape::Buffer).is_err());
}

#[test]
fn map_with_unique_keys_keeps_every_entry() {
    let mut env = AniEnv::new();
    let v = Value::Mapping(vec![
        (Value::Str(String::from("a")), Value::I32(1)),
        (Value::Str(String::from("b")), Value::I32(2)),
        (Value::Str(String::from("c")), Value::I32(3)),
    ]);
    let r = serialize(&mut env, &v).unwrap();
    assert_eq!(env.record_entries(r).unwrap().len(), 3);
    let s = Shape::Mapping(Box::new(Shape::Str), Box::new(Shape::I32));
    assert_eq!(deserialize(&env, r, &s).unwrap(), v);
}

#[test]
fn map_with_repeated_key_keeps_the_last_value() {
    let mut env = AniEnv::new();
    let v = Value::Mapping(vec![
        (Value::I64(5), Value::Str(String::from("first"))),
        (Value::I64(6), Value::Str(String::from("other"))),
        (Value::I64(5), Value::Str(String::from("second"))),
    ]);
    let r = serialize(&mut env, &v).unwrap();
    assert_eq!(env.record_entries(r).unwrap().len(), 2);
    let s = Shape::Mapping(Box::new(Shape::I64), Box::new(Shape::Str));
    assert_eq!(
        deserialize(&env, r, &s).unwrap(),
        Value::Mapping(vec![
            (Value::I64(5), Value::Str(String::from("second"))),
            (Value::I64(6), Value::Str(String::from("other"))),
        ])
    );
}

#[test]
fn unsupported_integers_are_refused_without_mutation() {
    let mut env = AniEnv::new();
    let before = env.object_count();
    for v in [
        Value::U8(1),
        Value::U16(1),
        Value::U32(1),
        Value::U64(1),
        Value::U128(1),
        Value::I128(1),
    ] {
        let e = serialize(&mut env, &v).unwrap_err();
        assert_eq!(e.kind(), ErrorKind::UnsupportedType);
        assert_eq!(env.object_count(), before);
    }
    let r = serialize(&mut env, &Value::I32(1)).unwrap();
    for s in [Shape::U8, Shape::U16, Shape::U32, Shape::U64, Shape::U128, Shape::I128] {
        let e = deserialize(&env, r, &s).unwrap_err();
        assert_eq!(e.kind(), ErrorKind::UnsupportedType);
    }
}

#[test]
fn struct_scenario_id_and_name() {
    let mut env = AniEnv::new();
    env.define_class(String::from("Item"));
    let v = Value::Struct(
        String::from("Item"),
        vec![
            (String::from("id"), Value::I32(7)),
            (String::from("name"), Value::Str(String::from("x"))),
        ],
    );
    let r = serialize(&mut env, &v).unwrap();
    let id = env.get_property(r, "id").unwrap();
    assert_eq!(env.unbox(id, PrimKind::I32).unwrap(), Prim::I32(7));
    let name = env.get_property(r, "name").unwrap();
    assert_eq!(env.convert_ani_string(name).unwrap(), "x");
    let s = Shape::Struct(
        String::from("Item"),
        vec![(String::from("id"), Shape::I32), (String::from("name"), Shape::Str)],
    );
    assert_eq!(deserialize(&env, r, &s).unwrap(), v);
}

#[test]
fn struct_of_undeclared_class_is_a_lookup_error() {
    let mut env = AniEnv::new();
    let v = Value::Struct(String::from("Missing"), vec![]);
    assert_eq!(serialize(&mut env, &v).unwrap_err().kind(), ErrorKind::Lookup);
}

#[test]
fn missing_property_is_an_access_error() {
    let mut env = AniEnv::new();
    env.define_class(String::from("P"));
    let v = Value::Struct(String::from("P"), vec![(String::from("a"), Value::Bool(true))]);
    let r = serialize(&mut env, &v).unwrap();
    let s = Shape::Struct(String::from("P"), vec![(String::from("b"), Shape::Bool)]);
    assert_eq!(deserialize(&env, r, &s).unwrap_err().kind(), ErrorKind::Access);
}

#[test]
fn enum_variant_round_trips_by_item_index() {
    let mut env = AniEnv::new();
    env.define_enum(
        String::from("Color"),
        vec![String::from("Red"), String::from("Green"), String::from("Blue")],
    )
    .unwrap();
    let v = Value::UnitVariant(String::from("Color"), String::from("Blue"));
    let r = serialize(&mut env, &v).unwrap();
    assert_eq!(env.get_enum_item_index(r).unwrap(), 2);
    let s = Shape::Enum(
        String::from("Color"),
        vec![String::from("Red"), String::from("Green"), String::from("Blue")],
    );
    assert_eq!(deserialize(&env, r, &s).unwrap(), v);
    let bad = Value::UnitVariant(String::from("Color"), String::from("Pink"));
    assert_eq!(serialize(&mut env, &bad).unwrap_err().kind(), ErrorKind::Lookup);
    assert!(env
        .define_enum(String::from("Color"), vec![])
        .is_err());
}

#[test]
fn enum_on_foreign_object_of_other_type_fails() {
    let mut env = AniEnv::new();
    env.define_enum(String::from("E"), vec![String::from("A")]).unwrap();
    let r = serialize(&mut env, &Value::I32(0)).unwrap();
    let s = Shape::Enum(String::from("E"), vec![String::from("A")]);
    assert_eq!(deserialize(&env, r, &s).unwrap_err().kind(), ErrorKind::VariantResolution);
}

#[test]
fn union_probes_variants_in_order() {
    let mut env = AniEnv::new();
    let shape = Shape::Union(vec![
        (String::from("S"), Shape::Str),
        (String::from("Boolean"), Shape::Bool),
        (String::from("Null"), Shape::Unit),
    ]);
    let s = serialize(&mut env, &Value::Str(String::from("v"))).unwrap();
    assert_eq!(
        deserialize(&env, s, &shape).unwrap(),
        Value::Newtype(String::from("S"), Box::new(Value::Str(String::from("v"))))
    );
    let b = serialize(&mut env, &Value::Bool(true)).unwrap();
    assert_eq!(
        deserialize(&env, b, &shape).unwrap(),
        Value::Newtype(String::from("Boolean"), Box::new(Value::Bool(true)))
    );
    let n = serialize(&mut env, &Value::Unit).unwrap();
    assert_eq!(
        deserialize(&env, n, &shape).unwrap(),
        Value::Newtype(String::from("Null"), Box::new(Value::Unit))
    );
    let i = serialize(&mut env, &Value::I64(1)).unwrap();
    assert_eq!(deserialize(&env, i, &shape).unwrap_err().kind(), ErrorKind::VariantResolution);
}

#[test]
fn union_with_unknown_class_name_is_a_lookup_error() {
    let mut env = AniEnv::new();
    let shape = Shape::Union(vec![(String::from("Nowhere"), Shape::Str)]);
    let s = serialize(&mut env, &Value::Str(String::from("v"))).unwrap();
    assert_eq!(deserialize(&env, s, &shape).unwrap_err().kind(), ErrorKind::Lookup);
}

#[test]
fn lone_surrogate_is_a_conversion_error() {
    let mut env = AniEnv::new();
    let e = serialize(&mut env, &Value::Char(0xD800)).unwrap_err();
    assert_eq!(e.kind(), ErrorKind::Conversion);
}

#[test]
fn raw_reference_passes_through_unboxed() {
    let mut env = AniEnv::new();
    let target = serialize(&mut env, &Value::Str(String::from("t"))).unwrap();
    let r = serialize(&mut env, &Value::Raw(target.handle)).unwrap();
    assert_eq!(r, target);
    assert_eq!(deserialize(&env, r, &Shape::Raw).unwrap(), Value::Raw(target.handle));
    let beyond = env.object_count() + 5;
    assert_eq!(serialize(&mut env, &Value::Raw(beyond)).unwrap_err().kind(), ErrorKind::Access);
}

#[test]
fn invalid_reference_is_an_access_error() {
    let env = AniEnv::new();
    let r = AniRef::from_raw(99);
    assert_eq!(deserialize(&env, r, &Shape::I32).unwrap_err().kind(), ErrorKind::Access);
    assert!(env.is_undefined(r).is_err());
}

#[test]
fn new_object_of_enum_is_a_construction_error() {
    let mut env = AniEnv::new();
    env.define_enum(String::from("E"), vec![]).unwrap();
    let class = env.find_class("E").unwrap();
    assert_eq!(env.new_object(&class, vec![]).unwrap_err().kind(), ErrorKind::Construction);
    assert_eq!(env.find_class("F").unwrap_err().kind(), ErrorKind::Lookup);
}

#[test]
fn thread_without_environment_is_a_thread_state_error() {
    let mut vm = AniVm::new();
    assert_eq!(vm.get_env(1).unwrap_err().kind(), ErrorKind::ThreadState);
    assert_eq!(
        vm.create_global_ref(1, AniRef::from_raw(0)).unwrap_err().kind(),
        ErrorKind::ThreadState
    );
    vm.attach_current_thread(1).unwrap();
    assert!(vm.get_env(1).is_ok());
    assert!(vm.attach_current_thread(1).is_err());
    vm.detach_current_thread(1).unwrap();
    assert!(vm.detach_current_thread(1).is_err());
}

#[test]
fn globals_are_released_once_each_even_from_unattached_thread() {
    let mut vm = AniVm::new();
    vm.attach_current_thread(1).unwrap();
    let mut globals = Vec::new();
    for h in 0..5usize {
        globals.push(vm.create_global_ref(1, AniRef::from_raw(h)).unwrap());
    }
    let mut n = 0;
    for g in globals {
        vm.release_global(2, g);
        n += 1;
        assert_eq!(vm.released_count(), n);
        assert!(!vm.is_attached(2));
    }
    assert_eq!(vm.released_count(), 5);
    assert!(vm.is_attached(1));
}

#[test]
fn enter_and_leave_restore_attachment() {
    let mut vm = AniVm::new();
    let here = vm.enter(7);
    assert!(here);
    assert!(vm.is_attached(7));
    let again = vm.enter(7);
    assert!(!again);
    vm.leave(7, again);
    assert!(vm.is_attached(7));
    vm.leave(7, here);
    assert!(!vm.is_attached(7));
}

#[test]
fn error_surfaces_as_business_error() {
    let mut env = AniEnv::new();
    let e = AniError::from_code(String::from("bad"), 7);
    let r = throw_ani_error(&mut env, e);
    assert!(env.exist_unhandled_error());
    assert_eq!(env.error_code(r).unwrap(), Some(7));
    assert_eq!(env.error_message(r).unwrap(), "bad");
    let taken = env.take_pending_error().unwrap();
    assert_eq!(taken, r);
    assert!(!env.exist_unhandled_error());
    let plain = AniError::message(String::from("m"));
    let r2 = throw_ani_error(&mut env, plain);
    assert_eq!(env.error_code(r2).unwrap(), Some(-1));
    let msg = env.new_error("oops");
    assert_eq!(env.error_code(msg).unwrap(), None);
    env.throw_error(msg).unwrap();
    assert_eq!(env.take_pending_error(), Some(msg));
}

#[test]
fn error_codes_and_descriptions() {
    assert_eq!(AniErrorCode::from_number(1), Some(AniErrorCode::Error));
    assert_eq!(AniErrorCode::from_number(13), Some(AniErrorCode::InvalidVersion));
    assert_eq!(AniErrorCode::from_number(0), None);
    assert_eq!(AniErrorCode::from_number(14), None);
    assert_eq!(AniErrorCode::NotFound.number(), 7);
    let e = AniError::from_code(String::from("missing"), 7);
    assert_eq!(e.describe(), "NotFound: missing");
    let l = AniError::literal("plain");
    assert_eq!(l.describe(), "plain");
    assert_eq!(l.text(), "plain");
    let b = AniError::from_code(String::from("range"), 11).into_business_error();
    assert_eq!(b.code(), 11);
    assert_eq!(b.message(), "range");
    let b2: ani_rs::business_error::BusinessError = AniError::message(String::from("x")).into();
    assert_eq!(b2.code(), -1);
}

#[test]
fn array_set_and_set_property_write_in_place() {
    let mut env = AniEnv::new();
    let v = Value::Sequence(vec![Value::I32(1), Value::I32(2)]);
    let arr = serialize(&mut env, &v).unwrap();
    let nine = serialize(&mut env, &Value::I32(9)).unwrap();
    env.array_set(arr, 1, nine).unwrap();
    assert_eq!(env.array_get(arr, 1).unwrap(), nine);
    assert!(env.array_set(arr, 2, nine).is_err());
    assert_eq!(
        deserialize(&env, arr, &Shape::Sequence(Box::new(Shape::I32))).unwrap(),
        Value::Sequence(vec![Value::I32(1), Value::I32(9)])
    );
    env.define_class(String::from("C"));
    let obj = serialize(&mut env, &Value::Struct(String::from("C"), vec![])).unwrap();
    env.set_property(obj, "n", nine).unwrap();
    assert_eq!(env.get_property(obj, "n").unwrap(), nine);
    let s = serialize(&mut env, &Value::Str(String::from("s"))).unwrap();
    env.set_property(obj, "n", s).unwrap();
    assert_eq!(env.get_property(obj, "n").unwrap(), s);
    assert!(env.set_property(arr, "n", s).is_err());
}

#[test]
fn reserved_wrapper_names_select_markers() {
    assert_eq!(marker_of("@Int8Array"), Marker::Typed(TypedArray::Int8));
    assert_eq!(marker_of("@Uint32Array"), Marker::Typed(TypedArray::Uint32));
    assert_eq!(marker_of("@AniRef"), Marker::Raw);
    assert_eq!(marker_of("Int8Array"), Marker::Plain);
    assert_eq!(marker_of("ArrayBufferHelper"), Marker::Plain);
}

#[test]
fn reference_equality_needs_an_environment() {
    let mut env = AniEnv::new();
    let mut vm = AniVm::new();
    let a = serialize(&mut env, &Value::I32(5)).unwrap();
    let b = serialize(&mut env, &Value::I32(5)).unwrap();
    let c = serialize(&mut env, &Value::Str(String::from("5"))).unwrap();
    assert!(!ref_equals(&vm, 1, &env, a, a));
    vm.attach_current_thread(1).unwrap();
    assert!(ref_equals(&vm, 1, &env, a, a));
    assert!(ref_equals(&vm, 1, &env, a, b));
    assert!(!ref_equals(&vm, 1, &env, a, c));
    assert!(env.strict_eq(a, b));
}

#[test]
fn global_callback_lifecycle() {
    let mut vm = AniVm::new();
    let f = AniRef::from_raw(4);
    assert_eq!(
        GlobalCallback::into_global_callback(&mut vm, 1, f).unwrap_err().kind(),
        ErrorKind::ThreadState
    );
    vm.attach_current_thread(1).unwrap();
    let cb = GlobalCallback::into_global_callback(&mut vm, 1, f).unwrap();
    assert_eq!(cb.execute_current(&vm, 1).unwrap(), f);
    assert_eq!(cb.execute_current(&vm, 2).unwrap_err().kind(), ErrorKind::ThreadState);
    let (target, attached_here) = cb.begin_execute(&mut vm, 2);
    assert_eq!(target, f);
    assert!(attached_here);
    assert!(vm.is_attached(2));
    cb.finish_execute(&mut vm, 2, attached_here);
    assert!(!vm.is_attached(2));
    cb.release(&mut vm, 3);
    assert_eq!(vm.released_count(), 1);
    assert!(!vm.is_attached(3));
}

#[test]
fn native_call_ends_with_value_or_thrown_error() {
    let mut env = AniEnv::new();
    let r = serialize(&mut env, &Value::I32(1)).unwrap();
    assert_eq!(finish_native_call(&mut env, Ok(r)), r);
    assert!(!env.exist_unhandled_error());
    let failed = serialize(&mut env, &Value::U32(1));
    let out = finish_native_call(&mut env, failed);
    assert_eq!(out.handle, UNDEFINED_HANDLE);
    assert!(env.exist_unhandled_error());
    let pending = env.take_pending_error().unwrap();
    assert_eq!(env.error_code(pending).unwrap(), Some(-1));
    assert_eq!(env.error_message(pending).unwrap(), "integer type unsupported in ani");
}

#[test]
fn lookups_by_name() {
    let mut env = AniEnv::new();
    env.define_class(String::from("K"));
    env.define_method(String::from("K"), String::from("run"), false);
    env.define_method(String::from("K"), String::from("make"), true);
    env.define_namespace(String::from("ns"));
    env.define_enum(String::from("E"), vec![String::from("A")]).unwrap();
    let m = env.find_method("K", "run").unwrap();
    assert_eq!((m.class.as_str(), m.name.as_str(), m.is_static), ("K", "run", false));
    assert_eq!(env.find_method("K", "make").unwrap_err().kind(), ErrorKind::Lookup);
    assert!(env.find_static_method("K", "make").unwrap().is_static);
    assert_eq!(env.find_static_method("K", "run").unwrap_err().kind(), ErrorKind::Lookup);
    assert_eq!(env.find_namespace("ns").unwrap().name, "ns");
    assert_eq!(env.find_namespace("other").unwrap_err().kind(), ErrorKind::Lookup);
    assert!(env.find_enum("E").is_ok());
    assert_eq!(env.find_enum("K").unwrap_err().kind(), ErrorKind::Lookup);
    assert!(env.find_class("K").is_ok());
    assert!(env.find_class("E").is_ok());
}

#[test]
fn nested_unsupported_integers_are_refused_without_mutation() {
    let mut env = AniEnv::new();
    env.define_class(String::from("S"));
    let before = env.object_count();
    let nested = [
        Value::Opt(Some(Box::new(Value::U8(1)))),
        Value::Struct(
            String::from("S"),
            vec![(String::from("a"), Value::I32(1)), (String::from("b"), Value::U32(2))],
        ),
        Value::Sequence(vec![Value::Str(String::from("x")), Value::I128(3)]),
        Value::Mapping(vec![(Value::Str(String::from("k")), Value::U64(4))]),
    ];
    for v in nested {
        let e = serialize(&mut env, &v).unwrap_err();
        assert_eq!(e.kind(), ErrorKind::UnsupportedType);
        assert_eq!(env.object_count(), before);
    }
    let empty = serialize(&mut env, &Value::Sequence(vec![])).unwrap();
    let shapes = [
        Shape::Sequence(Box::new(Shape::U8)),
        Shape::Opt(Box::new(Shape::U16)),
        Shape::Struct(String::from("S"), vec![(String::from("a"), Shape::U128)]),
        Shape::Union(vec![(String::from("Array"), Shape::Sequence(Box::new(Shape::U64)))]),
    ];
    for s in shapes {
        assert_eq!(deserialize(&env, empty, &s).unwrap_err().kind(), ErrorKind::UnsupportedType);
    }
}

#[test]
fn set_property_keeps_class_and_other_properties() {
    let mut env = AniEnv::new();
    env.define_class(String::from("C"));
    let v = Value::Struct(
        String::from("C"),
        vec![(String::from("a"), Value::I32(1)), (String::from("b"), Value::I32(2))],
    );
    let obj = serialize(&mut env, &v).unwrap();
    let nine = serialize(&mut env, &Value::I32(9)).unwrap();
    env.set_property(obj, "b", nine).unwrap();
    assert!(env.instance_of(obj, &env.find_class("C").unwrap()).unwrap());
    let s = Shape::Struct(
        String::from("C"),
        vec![(String::from("a"), Shape::I32), (String::from("b"), Shape::I32)],
    );
    assert_eq!(
        deserialize(&env, obj, &s).unwrap(),
        Value::Struct(
            String::from("C"),
            vec![(String::from("a"), Value::I32(1)), (String::from("b"), Value::I32(9))],
        )
    );
}

#[test]
fn release_all_releases_each_once() {
    let mut vm = AniVm::new();
    vm.attach_current_thread(1).unwrap();
    let mut globals = Vec::new();
    for h in 0..7usize {
        globals.push(vm.create_global_ref(1, AniRef::from_raw(h)).unwrap());
    }
    release_all(&mut vm, 9, globals);
    assert_eq!(vm.released_count(), 7);
    assert!(!vm.is_attached(9));
    assert!(vm.is_attached(1));
}

#[test]
fn byte_sequences_are_recognised() {
    assert_eq!(byte_items(&vec![Value::U8(1), Value::U8(2)]), Some(vec![1, 2]));
    assert_eq!(byte_items(&vec![]), None);
    assert_eq!(byte_items(&vec![Value::U8(1), Value::I8(2)]), None);
}

#[test]
fn map_with_composite_keys_keeps_every_entry() {
    let mut env = AniEnv::new();
    let v = Value::Mapping(vec![
        (Value::Sequence(vec![Value::I32(1)]), Value::Bool(true)),
        (Value::Sequence(vec![Value::I32(2)]), Value::Bool(false)),
        (Value::Sequence(vec![]), Value::Bool(true)),
    ]);
    let r = serialize(&mut env, &v).unwrap();
    assert_eq!(env.record_entries(r).unwrap().len(), 3);
    let s = Shape::Mapping(Box::new(Shape::Sequence(Box::new(Shape::I32))), Box::new(Shape::Bool));
    assert_eq!(deserialize(&env, r, &s).unwrap(), v);
    let o = Value::Mapping(vec![
        (Value::Opt(None), Value::I8(0)),
        (Value::Opt(Some(Box::new(Value::Str(String::from("k"))))), Value::I8(1)),
    ]);
    let r2 = serialize(&mut env, &o).unwrap();
    assert_eq!(env.record_entries(r2).unwrap().len(), 2);
    let s2 = Shape::Mapping(Box::new(Shape::Opt(Box::new(Shape::Str))), Box::new(Shape::I8));
    assert_eq!(deserialize(&env, r2, &s2).unwrap(), o);
}
