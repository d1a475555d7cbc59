use vstd::prelude::*;

use crate::env::{
    item_index, same_key, AniEnv, AniRef, ClassRef, Obj, Prim, NULL_HANDLE, UNDEFINED_HANDLE,
};
use crate::error::{AniError, ErrorKind};
use crate::value::{
    has_unsupported_value, is_surrogate, surrogate, unsupported_value, value_unsupported, Val, Value,
};

verus! {

/// The part of a key that decides its foreign identity: a present option
/// and a wrapping variant are carried as what they hold.
pub open spec fn key_core(v: Val) -> Val
    decreases v,
{
    match v {
        Val::Opt(Some(x)) => key_core(*x),
        Val::Newtype(_, x) => key_core(*x),
        _ => v,
    }
}

/// A value whose image is an object created for it, rather than `null`,
/// `undefined` or a carried reference.
pub open spec fn fresh(v: Val) -> bool {
    let c = key_core(v);
    !(c is Unit || c is Opt || c is Raw)
}

/// Map keys that a record keeps apart: no key carries a raw reference, and
/// no two keys have the same core.
pub open spec fn distinct_keys(entries: Seq<(Val, Val)>) -> bool {
    &&& forall|i: int| 0 <= i < entries.len() ==> !(key_core(#[trigger] entries[i].0) is Raw)
    &&& forall|i: int, j: int|
        0 <= i < j < entries.len() ==> key_core(entries[i].0) != key_core(entries[j].0)
}

/// Object `r` of `env` is the foreign image of native value `v`: what
/// serializing `v` builds.
pub open spec fn image(env: AniEnv, r: usize, v: Val) -> bool
    decreases v,
{
    let objs = env.objects();
    &&& r < objs.len()
    &&& match v {
        Val::Unit => r == NULL_HANDLE,
        Val::Bool(b) => objs[r as int] == Obj::Boxed(Prim::Bool(b)),
        Val::I8(x) => objs[r as int] == Obj::Boxed(Prim::I8(x)),
        Val::I16(x) => objs[r as int] == Obj::Boxed(Prim::I16(x)),
        Val::I32(x) => objs[r as int] == Obj::Boxed(Prim::I32(x)),
        Val::I64(x) => objs[r as int] == Obj::Boxed(Prim::I64(x)),
        Val::Char(c) => objs[r as int] == Obj::Boxed(Prim::Char(c)),
        Val::Str(s) => match objs[r as int] {
            Obj::Str(t) => t@ == s,
            _ => false,
        },
        Val::Opt(o) => match o {
            None => r == UNDEFINED_HANDLE,
            Some(x) => image(env, r, *x),
        },
        Val::Sequence(items) => match objs[r as int] {
            Obj::Array(a) => a@.len() == items.len() && forall|i: int|
                #![trigger items[i]]
                0 <= i < items.len() ==> image(env, a@[i], items[i]),
            _ => false,
        },
        Val::Mapping(entries) => match objs[r as int] {
            Obj::Record(e) => e@.len() <= entries.len() && (distinct_keys(entries) ==> (e@.len() == entries.len() && forall|
                i: int,
            |
                #![trigger entries[i]]
                0 <= i < entries.len() ==> image(env, e@[i].0, entries[i].0) && image(
                    env,
                    e@[i].1,
                    entries[i].1,
                ))),
            _ => false,
        },
        Val::Struct(name, fields) => match objs[r as int] {
            Obj::Instance(c, p) => c@ == name && p@.len() == fields.len() && forall|i: int|
                #![trigger fields[i]]
                0 <= i < fields.len() ==> p@[i].0@ == fields[i].0 && image(
                    env,
                    p@[i].1,
                    fields[i].1,
                ),
            _ => false,
        },
        Val::UnitVariant(e, var) => match objs[r as int] {
            Obj::EnumItem(e2, idx) => e2@ == e && env.enum_items(e) is Some && item_index(
                env.enum_items(e)->Some_0,
                var,
            ) == Some(idx as int),
            _ => false,
        },
        Val::Newtype(_, x) => image(env, r, *x),
        Val::Buffer(b) => if b.len() == 0 {
            match objs[r as int] {
                Obj::Array(a) => a@.len() == 0,
                _ => false,
            }
        } else {
            match objs[r as int] {
                Obj::Buffer(b2) => b2@ == b,
                _ => false,
            }
        },
        Val::Typed(k, b) => if b.len() == 0 {
            match objs[r as int] {
                Obj::Array(a) => a@.len() == 0,
                _ => false,
            }
        } else {
            match objs[r as int] {
                Obj::Typed(k2, b2) => k2 == k && b2@ == b,
                _ => false,
            }
        },
        Val::Raw(h) => r == h,
        _ => false,
    }
}

/// Serializing `v` succeeds: no unsigned or 128-bit integer, no lone
/// surrogate, every class and enum item declared, and every carried
/// reference below `limit`.
pub open spec fn ser_ok(env: AniEnv, v: Val, limit: nat) -> bool
    decreases v,
{
    match v {
        Val::Char(c) => !is_surrogate(c),
        Val::Opt(o) => match o {
            None => true,
            Some(x) => ser_ok(env, *x, limit),
        },
        Val::Sequence(items) => forall|i: int|
            #![trigger items[i]]
            0 <= i < items.len() ==> ser_ok(env, items[i], limit),
        Val::Mapping(entries) => forall|i: int|
            #![trigger entries[i]]
            0 <= i < entries.len() ==> ser_ok(env, entries[i].0, limit) && ser_ok(
                env,
                entries[i].1,
                limit,
            ),
        Val::Struct(name, fields) => env.class_declared(name) && forall|i: int|
            #![trigger fields[i]]
            0 <= i < fields.len() ==> ser_ok(env, fields[i].1, limit),
        Val::UnitVariant(e, var) => env.enum_items(e) is Some && item_index(
            env.enum_items(e)->Some_0,
            var,
        ) is Some,
        Val::Newtype(_, x) => ser_ok(env, *x, limit),
        Val::Raw(h) => h < limit,
        Val::U8(_) | Val::U16(_) | Val::U32(_) | Val::U64(_) | Val::U128(_) | Val::I128(_) => false,
        _ => true,
    }
}

/// Whether serializing succeeds depends on the declarations alone, not on
/// the objects.
pub proof fn lemma_ser_ok_decls(e1: AniEnv, e2: AniEnv, v: Val, limit: nat)
    requires
        e1.same_decls(&e2),
    ensures
        ser_ok(e1, v, limit) == ser_ok(e2, v, limit),
    decreases v,
{
    e1.lemma_same_decls(&e2);
    reveal_with_fuel(ser_ok, 2);
    match v {
        Val::Opt(Some(x)) => {
            assert(ser_ok(e1, v, limit) == ser_ok(e1, *x, limit));
            assert(ser_ok(e2, v, limit) == ser_ok(e2, *x, limit));
            lemma_ser_ok_decls(e1, e2, *x, limit);
        },
        Val::Newtype(_, x) => lemma_ser_ok_decls(e1, e2, *x, limit),
        Val::Sequence(items) => {
            assert forall|i: int| #![trigger items[i]] 0 <= i < items.len() implies ser_ok(e1, items[i], limit)
                == ser_ok(e2, items[i], limit) by {
                lemma_ser_ok_decls(e1, e2, items[i], limit);
            }
        },
        Val::Mapping(entries) => {
            assert forall|i: int| #![trigger entries[i]] 0 <= i < entries.len() implies ser_ok(
                e1,
                entries[i].0,
                limit,
            ) == ser_ok(e2, entries[i].0, limit) && ser_ok(e1, entries[i].1, limit) == ser_ok(
                e2,
                entries[i].1,
                limit,
            ) by {
                lemma_ser_ok_decls(e1, e2, entries[i].0, limit);
                lemma_ser_ok_decls(e1, e2, entries[i].1, limit);
            }
        },
        Val::Struct(_, fields) => {
            assert forall|i: int| #![trigger fields[i]] 0 <= i < fields.len() implies ser_ok(e1, fields[i].1, limit)
                == ser_ok(e2, fields[i].1, limit) by {
                lemma_ser_ok_decls(e1, e2, fields[i].1, limit);
            }
        },
        _ => {},
    }
}

/// An image stays an image as the environment grows.
pub proof fn lemma_image_extends(e1: AniEnv, e2: AniEnv, r: usize, v: Val)
    requires
        e1.wf(),
        e2.extends(&e1),
        image(e1, r, v),
    ensures
        image(e2, r, v),
    decreases v,
{
    e1.lemma_wf();
    e2.lemma_same_decls(&e1);
    let o = e1.objects()[r as int];
    assert(e2.objects()[r as int] == o);
    reveal_with_fuel(image, 2);
    match v {
        Val::Opt(Some(x)) => lemma_image_extends(e1, e2, r, *x),
        Val::Newtype(_, x) => lemma_image_extends(e1, e2, r, *x),
        Val::Sequence(items) => {
            let a = o->Array_0;
            assert(o is Array);
            assert(a@.len() == items.len());
            assert forall|i: int| #![trigger items[i]] 0 <= i < items.len() implies image(e2, a@[i], items[i]) by {
                lemma_image_extends(e1, e2, a@[i], items[i]);
            }
        },
        Val::Mapping(entries) => {
            if distinct_keys(entries) {
                let e = o->Record_0;
                assert forall|i: int| #![trigger entries[i]] 0 <= i < entries.len() implies image(
                    e2,
                    e@[i].0,
                    entries[i].0,
                ) && image(e2, e@[i].1, entries[i].1) by {
                    lemma_image_extends(e1, e2, e@[i].0, entries[i].0);
                    lemma_image_extends(e1, e2, e@[i].1, entries[i].1);
                }
            }
        },
        Val::Struct(_, fields) => {
            let p = o->Instance_1;
            assert forall|i: int| #![trigger fields[i]] 0 <= i < fields.len() implies p@[i].0@ == fields[i].0 && image(
                e2,
                p@[i].1,
                fields[i].1,
            ) by {
                lemma_image_extends(e1, e2, p@[i].1, fields[i].1);
            }
        },
        _ => {},
    }
}

/// A value and its core have the same image.
pub proof fn lemma_image_core(env: AniEnv, r: usize, v: Val)
    requires
        image(env, r, v),
    ensures
        image(env, r, key_core(v)),
    decreases v,
{
    match v {
        Val::Opt(Some(x)) => lemma_image_core(env, r, *x),
        Val::Newtype(_, x) => lemma_image_core(env, r, *x),
        _ => {},
    }
}

/// The images of two keys with different cores are different record keys,
/// when the second, if fresh, was created after the first.
pub proof fn lemma_keys_differ(env: AniEnv, a: usize, b: usize, k1: Val, k2: Val, lim: nat)
    requires
        env.wf(),
        image(env, a, k1),
        image(env, b, k2),
        !(key_core(k1) is Raw),
        !(key_core(k2) is Raw),
        key_core(k1) != key_core(k2),
        a < lim,
        fresh(k2) ==> b >= lim,
    ensures
        !same_key(env.objects(), a, b),
{
    env.lemma_wf();
    lemma_image_core(env, a, k1);
    lemma_image_core(env, b, k2);
    let c1 = key_core(k1);
    let c2 = key_core(k2);
    assert(!(c1 is Newtype)) by {
        lemma_core_unwrapped(k1);
    }
    assert(!(c2 is Newtype)) by {
        lemma_core_unwrapped(k2);
    }
    assert(!(c1 matches Val::Opt(Some(_)))) by {
        lemma_core_unwrapped(k1);
    }
    assert(!(c2 matches Val::Opt(Some(_)))) by {
        lemma_core_unwrapped(k2);
    }
}

proof fn lemma_core_unwrapped(v: Val)
    ensures
        !(key_core(v) is Newtype),
        !(key_core(v) matches Val::Opt(Some(_))),
    decreases v,
{
    match v {
        Val::Opt(Some(x)) => lemma_core_unwrapped(*x),
        Val::Newtype(_, x) => lemma_core_unwrapped(*x),
        _ => {},
    }
}

/// Serializes a native value into a new foreign object graph and returns
/// the reference to its root.
///
/// It succeeds exactly when `ser_ok` holds, with every carried reference
/// naming an object that existed before the call, and then the result is
/// the image of the value. Objects that existed before are never changed;
/// a value holding an unsupported integer anywhere is refused before
/// anything is created.
pub fn serialize(env: &mut AniEnv, v: &Value) -> (res: Result<AniRef, AniError>)
    requires
        old(env).wf(),
    ensures
        final(env).wf(),
        final(env).extends(old(env)),
        res is Ok <==> ser_ok(*old(env), v.model(), old(env).objects().len() as nat),
        res is Ok ==> image(*final(env), res->Ok_0.handle, v.model()),
        res is Ok && fresh(v.model()) ==> res->Ok_0.handle >= old(env).objects().len(),
        value_unsupported(v.model()) ==> (res is Err && res->Err_0.kind == ErrorKind::UnsupportedType
            && *final(env) == *old(env)),
{
    if has_unsupported_value(v) {
        proof {
            lemma_unsupported_fails(*env, v.model(), env.objects().len() as nat);
            env.lemma_extends_refl();
        }
        return Err(AniError::of_kind(ErrorKind::UnsupportedType, "integer type unsupported in ani"));
    }
    let limit = env.object_count();
    serialize_at(env, v, limit)
}

/// A value that holds an unsupported integer anywhere cannot be serialized.
proof fn lemma_unsupported_fails(env: AniEnv, v: Val, limit: nat)
    requires
        value_unsupported(v),
    ensures
        !ser_ok(env, v, limit),
    decreases v,
{
    match v {
        Val::Opt(Some(x)) => lemma_unsupported_fails(env, *x, limit),
        Val::Newtype(_, x) => lemma_unsupported_fails(env, *x, limit),
        Val::Sequence(items) => {
            let i = choose|i: int| #![trigger items[i]] 0 <= i < items.len() && value_unsupported(items[i]);
            lemma_unsupported_fails(env, items[i], limit);
        },
        Val::Mapping(es) => {
            let i = choose|i: int|
                #![trigger es[i]]
                0 <= i < es.len() && (value_unsupported(es[i].0) || value_unsupported(es[i].1));
            if value_unsupported(es[i].0) {
                lemma_unsupported_fails(env, es[i].0, limit);
            } else {
                lemma_unsupported_fails(env, es[i].1, limit);
            }
        },
        Val::Struct(_, fs) => {
            let i = choose|i: int| #![trigger fs[i]] 0 <= i < fs.len() && value_unsupported(fs[i].1);
            lemma_unsupported_fails(env, fs[i].1, limit);
        },
        _ => {},
    }
}

fn unsupported(v: &Value) -> (r: bool)
    ensures
        r == unsupported_value(v.model()),
{
    match v {
        Value::U8(_) | Value::U16(_) | Value::U32(_) | Value::U64(_) | Value::U128(_) | Value::I128(_) => true,
        _ => false,
    }
}

fn serialize_at(env: &mut AniEnv, v: &Value, limit: usize) -> (res: Result<AniRef, AniError>)
    requires
        old(env).wf(),
        limit <= old(env).objects().len(),
    ensures
        final(env).wf(),
        final(env).extends(old(env)),
        res is Ok <==> ser_ok(*old(env), v.model(), limit as nat),
        res is Ok ==> image(*final(env), res->Ok_0.handle, v.model()),
        res is Ok && fresh(v.model()) ==> res->Ok_0.handle >= old(env).objects().len(),
        unsupported_value(v.model()) ==> (res is Err && res->Err_0.kind == ErrorKind::UnsupportedType
            && *final(env) == *old(env)),
    decreases v, 1nat,
{
    proof {
        env.lemma_wf();
        env.lemma_extends_refl();
    }
    if unsupported(v) {
        return Err(AniError::of_kind(ErrorKind::UnsupportedType, "integer type unsupported in ani"));
    }
    match v {
        Value::Unit => Ok(env.null()),
        Value::Bool(b) => Ok(env.inbox(Prim::Bool(*b))),
        Value::I8(x) => Ok(env.inbox(Prim::I8(*x))),
        Value::I16(x) => Ok(env.inbox(Prim::I16(*x))),
        Value::I32(x) => Ok(env.inbox(Prim::I32(*x))),
        Value::I64(x) => Ok(env.inbox(Prim::I64(*x))),
        Value::Char(c) => {
            if surrogate(*c) {
                Err(AniError::of_kind(ErrorKind::Conversion, "a lone surrogate is no character"))
            } else {
                Ok(env.inbox(Prim::Char(*c)))
            }
        },
        Value::Str(s) => Ok(env.convert_std_string(s.as_str())),
        Value::Opt(None) => Ok(env.undefined()),
        Value::Opt(Some(x)) => serialize_at(env, x, limit),
        Value::Newtype(_, x) => serialize_at(env, x, limit),
        Value::Raw(h) => {
            if *h < limit {
                Ok(AniRef::from_raw(*h))
            } else {
                Err(AniError::of_kind(ErrorKind::Access, "reference is not valid in this environment"))
            }
        },
        Value::Buffer(b) => {
            if b.len() == 0 {
                Ok(env.new_array(Vec::new()))
            } else {
                Ok(env.create_array_buffer(vstd::slice::slice_to_vec(b.as_slice())))
            }
        },
        Value::Typed(k, b) => {
            if b.len() == 0 {
                Ok(env.new_array(Vec::new()))
            } else {
                Ok(env.new_typed_array(*k, vstd::slice::slice_to_vec(b.as_slice())))
            }
        },
        Value::UnitVariant(e, var) => {
            let r = env.new_enum_item(e.as_str(), var.as_str());
            proof {
                env.lemma_same_decls(old(env));
            }
            r
        },
        Value::Sequence(_) => serialize_array(env, v, limit),
        Value::Mapping(_) => serialize_record(env, v, limit),
        Value::Struct(_, _) => serialize_struct(env, v, limit),
        _ => Err(AniError::of_kind(ErrorKind::UnsupportedType, "integer type unsupported in ani")),
    }
}

fn serialize_array(env: &mut AniEnv, v: &Value, limit: usize) -> (res: Result<AniRef, AniError>)
    requires
        old(env).wf(),
        limit <= old(env).objects().len(),
        v is Sequence,
    ensures
        final(env).wf(),
        final(env).extends(old(env)),
        res is Ok <==> ser_ok(*old(env), v.model(), limit as nat),
        res is Ok ==> image(*final(env), res->Ok_0.handle, v.model()),
        res is Ok && fresh(v.model()) ==> res->Ok_0.handle >= old(env).objects().len(),
    decreases v, 0nat,
{
    match v {
        Value::Sequence(items) => {
            let ghost e0 = *env;
            proof {
                env.lemma_extends_refl();
            }
            let ghost m = v.model()->Sequence_0;
            let mut refs: Vec<AniRef> = Vec::new();
            let mut i: usize = 0;
            while i < items.len()
                invariant
                    *v == Value::Sequence(*items),
                    m == v.model()->Sequence_0,
                    m.len() == items@.len(),
                    forall|j: int| 0 <= j < m.len() ==> #[trigger] m[j] == items@[j].model(),
                    e0 == *old(env),
                    env.wf(),
                    env.extends(&e0),
                    limit <= e0.objects().len(),
                    i <= items@.len(),
                    refs@.len() == i,
                    forall|j: int| #![trigger refs@[j]] 0 <= j < i ==> env.valid(refs@[j]) && image(*env, refs@[j].handle, m[j]),
                    forall|j: int| #![trigger m[j]] 0 <= j < i ==> ser_ok(e0, m[j], limit as nat),
                decreases items@.len() - i,
            {
                let ghost before = *env;
                match serialize_at(env, &items[i], limit) {
                    Ok(r) => {
                        proof {
                            AniEnv::lemma_extends_trans(&e0, &before, env);
                            lemma_ser_ok_decls(before, e0, m[i as int], limit as nat);
                            assert forall|j: int| #![trigger refs@[j]] 0 <= j < i implies env.valid(refs@[j]) && image(*env, refs@[j].handle, m[j]) by {
                                lemma_image_extends(before, *env, refs@[j].handle, m[j]);
                            }
                        }
                        refs.push(r);
                    },
                    Err(err) => {
                        proof {
                            AniEnv::lemma_extends_trans(&e0, &before, env);
                            lemma_ser_ok_decls(before, e0, m[i as int], limit as nat);
                            reveal_with_fuel(ser_ok, 2);
                        }
                        return Err(err);
                    },
                }
                i = i + 1;
            }
            let ghost before = *env;
            let r = env.new_array(refs);
            proof {
                AniEnv::lemma_extends_trans(&e0, &before, env);
                let a = env.objects()[r.handle as int]->Array_0;
                assert forall|j: int| #![trigger m[j]] 0 <= j < m.len() implies image(*env, a@[j], m[j]) by {
                    assert(refs@[j] == refs@[j]);
                    lemma_image_extends(before, *env, refs@[j].handle, m[j]);
                }
                assert(image(*env, r.handle, v.model()));
            }
            Ok(r)
        },
        _ => Err(AniError::of_kind(ErrorKind::Access, "not a sequence")),
    }
}

fn serialize_struct(env: &mut AniEnv, v: &Value, limit: usize) -> (res: Result<AniRef, AniError>)
    requires
        old(env).wf(),
        limit <= old(env).objects().len(),
        v is Struct,
    ensures
        final(env).wf(),
        final(env).extends(old(env)),
        res is Ok <==> ser_ok(*old(env), v.model(), limit as nat),
        res is Ok ==> image(*final(env), res->Ok_0.handle, v.model()),
        res is Ok && fresh(v.model()) ==> res->Ok_0.handle >= old(env).objects().len(),
    decreases v, 0nat,
{
    proof {
        env.lemma_extends_refl();
    }
    match v {
        Value::Struct(name, fields) => {
            if !env.is_class(name.as_str()) {
                return Err(AniError::of_kind(ErrorKind::Lookup, "class not found"));
            }
            let ghost e0 = *env;
            let ghost m = v.model()->Struct_1;
            let mut props: Vec<(String, AniRef)> = Vec::new();
            let mut i: usize = 0;
            while i < fields.len()
                invariant
                    *v == Value::Struct(*name, *fields),
                    m == v.model()->Struct_1,
                    m.len() == fields@.len(),
                    forall|j: int| #![trigger m[j]] 0 <= j < m.len() ==> m[j] == (fields@[j].0@, fields@[j].1.model()),
                    e0 == *old(env),
                    e0.class_declared(name@),
                    env.wf(),
                    env.extends(&e0),
                    limit <= e0.objects().len(),
                    i <= fields@.len(),
                    props@.len() == i,
                    forall|j: int|
                        #![trigger props@[j]]
                        0 <= j < i ==> env.valid(props@[j].1) && props@[j].0@ == m[j].0 && image(
                            *env,
                            props@[j].1.handle,
                            m[j].1,
                        ),
                    forall|j: int| #![trigger m[j]] 0 <= j < i ==> ser_ok(e0, m[j].1, limit as nat),
                decreases fields@.len() - i,
            {
                let ghost before = *env;
                match serialize_at(env, &fields[i].1, limit) {
                    Ok(r) => {
                        proof {
                            AniEnv::lemma_extends_trans(&e0, &before, env);
                            lemma_ser_ok_decls(before, e0, m[i as int].1, limit as nat);
                            assert forall|j: int|
                                #![trigger props@[j]]
                                0 <= j < i implies env.valid(props@[j].1) && props@[j].0@ == m[j].0 && image(
                                *env,
                                props@[j].1.handle,
                                m[j].1,
                            ) by {
                                lemma_image_extends(before, *env, props@[j].1.handle, m[j].1);
                            }
                        }
                        props.push((fields[i].0.clone(), r));
                    },
                    Err(err) => {
                        proof {
                            AniEnv::lemma_extends_trans(&e0, &before, env);
                            lemma_ser_ok_decls(before, e0, m[i as int].1, limit as nat);
                            reveal_with_fuel(ser_ok, 2);
                        }
                        return Err(err);
                    },
                }
                i = i + 1;
            }
            let ghost before = *env;
            proof {
                env.lemma_same_decls(&e0);
            }
            let class = ClassRef::Declared(name.clone());
            let ghost pv = props@;
            let r = match env.new_object(&class, props) {
                Ok(r) => r,
                Err(err) => {
                    return Err(err);
                },
            };
            proof {
                AniEnv::lemma_extends_trans(&e0, &before, env);
                assert(env.objects().last() == env.objects()[r.handle as int]);
                let p = env.objects()[r.handle as int]->Instance_1;
                assert(crate::env::props_of(p@) == crate::env::props_of_refs(pv));
                assert(pv.len() == m.len());
                assert(crate::env::props_of(p@).len() == p@.len());
                assert(crate::env::props_of_refs(pv).len() == pv.len());
                assert forall|j: int|
                    #![trigger m[j]]
                    0 <= j < m.len() implies p@[j].0@ == m[j].0 && image(*env, p@[j].1, m[j].1) by {
                    assert(crate::env::props_of(p@)[j] == crate::env::props_of_refs(pv)[j]);
                    assert(pv[j] == pv[j]);
                    assert(pv[j].0@ == m[j].0);
                    assert(p@[j].0@ == pv[j].0@);
                    assert(p@[j].1 == pv[j].1.handle);
                    lemma_image_extends(before, *env, pv[j].1.handle, m[j].1);
                }
                assert(image(*env, r.handle, v.model()));
            }
            Ok(r)
        },
        _ => Err(AniError::of_kind(ErrorKind::Access, "not a struct")),
    }
}

fn serialize_record(env: &mut AniEnv, v: &Value, limit: usize) -> (res: Result<AniRef, AniError>)
    requires
        old(env).wf(),
        limit <= old(env).objects().len(),
        v is Mapping,
    ensures
        final(env).wf(),
        final(env).extends(old(env)),
        res is Ok <==> ser_ok(*old(env), v.model(), limit as nat),
        res is Ok ==> image(*final(env), res->Ok_0.handle, v.model()),
        res is Ok && fresh(v.model()) ==> res->Ok_0.handle >= old(env).objects().len(),
    decreases v, 0nat,
{
    proof {
        env.lemma_extends_refl();
    }
    match v {
        Value::Mapping(pairs) => {
            let ghost e0 = *env;
            let ghost m = v.model()->Mapping_0;
            let ghost dk = distinct_keys(m);
            let mut entries: Vec<(AniRef, AniRef)> = Vec::new();
            let mut i: usize = 0;
            while i < pairs.len()
                invariant
                    *v == Value::Mapping(*pairs),
                    m == v.model()->Mapping_0,
                    dk == distinct_keys(m),
                    m.len() == pairs@.len(),
                    forall|j: int| #![trigger m[j]] 0 <= j < m.len() ==> m[j] == (pairs@[j].0.model(), pairs@[j].1.model()),
                    e0 == *old(env),
                    env.wf(),
                    env.extends(&e0),
                    limit <= e0.objects().len(),
                    i <= pairs@.len(),
                    forall|j: int|
                        #![trigger entries@[j]]
                        0 <= j < entries@.len() ==> env.valid(entries@[j].0) && env.valid(entries@[j].1),
                    entries@.len() <= i,
                    dk ==> entries@.len() == i,
                    dk ==> forall|j: int|
                        #![trigger entries@[j]]
                        0 <= j < i ==> image(*env, entries@[j].0.handle, m[j].0) && image(
                            *env,
                            entries@[j].1.handle,
                            m[j].1,
                        ),
                    forall|j: int|
                        #![trigger m[j]]
                        0 <= j < i ==> ser_ok(e0, m[j].0, limit as nat) && ser_ok(e0, m[j].1, limit as nat),
                decreases pairs@.len() - i,
            {
                let ghost before = *env;
                let k = match serialize_at(env, &pairs[i].0, limit) {
                    Ok(k) => k,
                    Err(err) => {
                        proof {
                            AniEnv::lemma_extends_trans(&e0, &before, env);
                            lemma_ser_ok_decls(before, e0, m[i as int].0, limit as nat);
                            reveal_with_fuel(ser_ok, 2);
                        }
                        return Err(err);
                    },
                };
                let ghost mid = *env;
                proof {
                    AniEnv::lemma_extends_trans(&e0, &before, env);
                }
                let val = match serialize_at(env, &pairs[i].1, limit) {
                    Ok(x) => x,
                    Err(err) => {
                        proof {
                            AniEnv::lemma_extends_trans(&e0, &mid, env);
                            lemma_ser_ok_decls(mid, e0, m[i as int].1, limit as nat);
                            reveal_with_fuel(ser_ok, 2);
                        }
                        return Err(err);
                    },
                };
                proof {
                    AniEnv::lemma_extends_trans(&e0, &mid, env);
                    AniEnv::lemma_extends_trans(&before, &mid, env);
                    lemma_ser_ok_decls(before, e0, m[i as int].0, limit as nat);
                    lemma_ser_ok_decls(mid, e0, m[i as int].1, limit as nat);
                    lemma_image_extends(mid, *env, k.handle, m[i as int].0);
                    if dk {
                        assert forall|j: int|
                            #![trigger entries@[j]]
                            0 <= j < i implies image(*env, entries@[j].0.handle, m[j].0) && image(
                                *env,
                                entries@[j].1.handle,
                                m[j].1,
                            ) by {
                            lemma_image_extends(before, *env, entries@[j].0.handle, m[j].0);
                            lemma_image_extends(before, *env, entries@[j].1.handle, m[j].1);
                        }
                        assert forall|j: int| 0 <= j < entries@.len() implies !same_key(
                            env.objects(),
                            #[trigger] entries@[j].0.handle,
                            k.handle,
                        ) by {
                            assert(key_core(m[j].0) != key_core(m[i as int].0));
                            assert(!(key_core(m[i as int].0) is Raw));
                            assert(!(key_core(m[j].0) is Raw));
                            assert(entries@[j].0.handle < before.objects().len());
                            lemma_keys_differ(
                                *env,
                                entries@[j].0.handle,
                                k.handle,
                                m[j].0,
                                m[i as int].0,
                                before.objects().len() as nat,
                            );
                        }
                    }
                }
                let ghost prev = entries@;
                env.record_set(&mut entries, k, val);
                proof {
                    assert forall|j: int|
                        #![trigger entries@[j]]
                        0 <= j < entries@.len() implies env.valid(entries@[j].0) && env.valid(entries@[j].1) by {
                        if j < prev.len() {
                            assert(prev[j] == prev[j]);
                        }
                    }
                    if dk {
                        assert(entries@ == prev.push((k, val)));
                    }
                }
                i = i + 1;
            }
            let ghost before = *env;
            let r = env.new_record(entries);
            proof {
                AniEnv::lemma_extends_trans(&e0, &before, env);
                if dk {
                    let e = env.objects()[r.handle as int]->Record_0;
                    assert forall|j: int|
                        #![trigger m[j]]
                        0 <= j < m.len() implies image(*env, e@[j].0, m[j].0) && image(*env, e@[j].1, m[j].1) by {
                        assert(entries@[j] == entries@[j]);
                        lemma_image_extends(before, *env, entries@[j].0.handle, m[j].0);
                        lemma_image_extends(before, *env, entries@[j].1.handle, m[j].1);
                    }
                }
                assert(image(*env, r.handle, v.model()));
            }
            Ok(r)
        },
        _ => Err(AniError::of_kind(ErrorKind::Access, "not a map")),
    }
}

} // verus!
