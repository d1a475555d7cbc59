use vstd::prelude::*;

use crate::env::{find_prop, AniEnv, AniRef, ClassRef, Obj, Prim, PrimKind, NULL_HANDLE, UNDEFINED_HANDLE};
use crate::error::{AniError, ErrorKind};
use crate::text::str_eq;
use crate::typed_array::TypedArray;
use crate::value::{has_unsupported_shape, is_surrogate, shape_unsupported, surrogate, Shape, Val, Value};

verus! {

/// How probing a union variant name against object `r` ends: `None` when
/// the name resolves to no class, else whether the object is of that class.
pub open spec fn probe(env: AniEnv, r: usize, name: Seq<char>) -> Option<bool> {
    let o = env.objects()[r as int];
    if name == "Null"@ {
        Some(r == NULL_HANDLE)
    } else if name == "Boolean"@ {
        Some(o matches Obj::Boxed(Prim::Bool(_)))
    } else if name == "I8"@ {
        Some(o matches Obj::Boxed(Prim::I8(_)))
    } else if name == "I16"@ {
        Some(o matches Obj::Boxed(Prim::I16(_)))
    } else if name == "I32"@ {
        Some(o matches Obj::Boxed(Prim::I32(_)))
    } else if name == "I64"@ {
        Some(o matches Obj::Boxed(Prim::I64(_)))
    } else if name == "F32"@ || name == "F64"@ {
        Some(false)
    } else if name == "S"@ {
        Some(o is Str)
    } else if name == "Array"@ {
        Some(o is Array)
    } else if name == "Record"@ {
        Some(o is Record)
    } else if name == "ArrayBuffer"@ {
        Some(o is Buffer)
    } else if name == "Int8Array"@ {
        Some(o matches Obj::Typed(TypedArray::Int8, _))
    } else if name == "Int16Array"@ {
        Some(o matches Obj::Typed(TypedArray::Int16, _))
    } else if name == "Int32Array"@ {
        Some(o matches Obj::Typed(TypedArray::Int32, _))
    } else if name == "Uint8Array"@ {
        Some(o matches Obj::Typed(TypedArray::Uint8, _))
    } else if name == "Uint16Array"@ {
        Some(o matches Obj::Typed(TypedArray::Uint16, _))
    } else if name == "Uint32Array"@ {
        Some(o matches Obj::Typed(TypedArray::Uint32, _))
    } else if env.type_declared(name) {
        Some(
            match o {
                Obj::Instance(c, _) => c@ == name,
                Obj::EnumItem(e, _) => e@ == name,
                _ => false,
            },
        )
    } else {
        None
    }
}

/// Variant `i` of a union is the one that probing picks for object `r`:
/// every earlier variant resolved and did not match, and this one matches.
pub open spec fn picked(env: AniEnv, r: usize, variants: Seq<(String, Shape)>, i: int) -> bool {
    &&& 0 <= i < variants.len()
    &&& probe(env, r, variants[i].0@) == Some(true)
    &&& forall|j: int| 0 <= j < i ==> probe(env, r, (#[trigger] variants[j]).0@) == Some(false)
}

/// A union shape none of whose variants matches object `r`: every
/// variant name resolves to a class and the object is of none of them.
pub open spec fn no_variant_matches(env: AniEnv, r: usize, s: Shape) -> bool {
    &&& s is Union
    &&& !shape_unsupported(s)
    &&& r < env.objects().len()
    &&& forall|j: int|
        0 <= j < s->Union_0@.len() ==> probe(env, r, (#[trigger] s->Union_0@[j]).0@) == Some(false)
}

/// The native value that object `r` reads back as under shape `s`, or
/// `None` where reading fails.
pub open spec fn decode(env: AniEnv, r: usize, s: Shape) -> Option<Val>
    decreases s,
{
    let objs = env.objects();
    if shape_unsupported(s) || r >= objs.len() {
        None
    } else {
        let o = objs[r as int];
        match s {
            Shape::Unit => Some(Val::Unit),
            Shape::Bool => match o {
                Obj::Boxed(Prim::Bool(b)) => Some(Val::Bool(b)),
                _ => None,
            },
            Shape::I8 => match o {
                Obj::Boxed(Prim::I8(x)) => Some(Val::I8(x)),
                _ => None,
            },
            Shape::I16 => match o {
                Obj::Boxed(Prim::I16(x)) => Some(Val::I16(x)),
                _ => None,
            },
            Shape::I32 => match o {
                Obj::Boxed(Prim::I32(x)) => Some(Val::I32(x)),
                _ => None,
            },
            Shape::I64 => match o {
                Obj::Boxed(Prim::I64(x)) => Some(Val::I64(x)),
                _ => None,
            },
            Shape::Char => match o {
                Obj::Boxed(Prim::Char(c)) => if is_surrogate(c) {
                    None
                } else {
                    Some(Val::Char(c))
                },
                _ => None,
            },
            Shape::Str => match o {
                Obj::Str(t) => Some(Val::Str(t@)),
                _ => None,
            },
            Shape::Opt(inner) => if r == UNDEFINED_HANDLE {
                Some(Val::Opt(None))
            } else {
                match decode(env, r, *inner) {
                    Some(v) => Some(Val::Opt(Some(Box::new(v)))),
                    None => None,
                }
            },
            Shape::Sequence(inner) => match o {
                Obj::Array(v) => if forall|i: int|
                    #![trigger v@[i]]
                    0 <= i < v@.len() ==> decode(env, v@[i], *inner) is Some {
                    Some(
                        Val::Sequence(
                            Seq::new(v@.len(), |i: int| decode(env, v@[i], *inner)->Some_0),
                        ),
                    )
                } else {
                    None
                },
                _ => None,
            },
            Shape::Mapping(ks, vs) => match o {
                Obj::Record(e) => if forall|i: int|
                    #![trigger e@[i]]
                    0 <= i < e@.len() ==> decode(env, e@[i].0, *ks) is Some && decode(
                        env,
                        e@[i].1,
                        *vs,
                    ) is Some {
                    Some(
                        Val::Mapping(
                            Seq::new(
                                e@.len(),
                                |i: int|
                                    (
                                        decode(env, e@[i].0, *ks)->Some_0,
                                        decode(env, e@[i].1, *vs)->Some_0,
                                    ),
                            ),
                        ),
                    )
                } else {
                    None
                },
                _ => None,
            },
            Shape::Struct(name, fields) => match o {
                Obj::Instance(_, p) => if forall|i: int|
                    0 <= i < fields@.len() ==> find_prop(p@, (#[trigger] fields@[i]).0@) is Some
                        && decode(env, find_prop(p@, fields@[i].0@)->Some_0, fields@[i].1) is Some {
                    Some(
                        Val::Struct(
                            name@,
                            Seq::new(
                                fields@.len(),
                                |i: int|
                                    if 0 <= i < fields@.len() {
                                        (
                                            fields@[i].0@,
                                            decode(
                                                env,
                                                find_prop(p@, fields@[i].0@)->Some_0,
                                                fields@[i].1,
                                            )->Some_0,
                                        )
                                    } else {
                                        (Seq::empty(), Val::Unit)
                                    },
                            ),
                        ),
                    )
                } else {
                    None
                },
                _ => None,
            },
            Shape::Enum(name, variants) => match o {
                Obj::EnumItem(e, idx) => if env.type_declared(name@) && e@ == name@ && idx
                    < variants@.len() {
                    Some(Val::UnitVariant(name@, variants@[idx as int]@))
                } else {
                    None
                },
                _ => None,
            },
            Shape::Union(variants) => if exists|i: int| picked(env, r, variants@, i) {
                let i = choose|i: int| picked(env, r, variants@, i);
                if 0 <= i < variants@.len() {
                    match decode(env, r, variants@[i].1) {
                        Some(v) => Some(Val::Newtype(variants@[i].0@, Box::new(v))),
                        None => None,
                    }
                } else {
                    None
                }
            } else {
                None
            },
            Shape::Buffer => match o {
                Obj::Buffer(b) => Some(Val::Buffer(b@)),
                _ => None,
            },
            Shape::Typed(k) => match o {
                Obj::Typed(_, b) => Some(Val::Typed(k, b@)),
                Obj::Array(a) => if a@.len() == 0 {
                    Some(Val::Typed(k, Seq::empty()))
                } else {
                    None
                },
                _ => None,
            },
            Shape::Raw => Some(Val::Raw(r)),
            _ => None,
        }
    }
}

} // verus!

verus! {

proof fn lemma_sequence_fails(env: AniEnv, r: usize, s: Shape, i: int)
    requires
        !shape_unsupported(s),
        r < env.objects().len(),
        s matches Shape::Sequence(inner) && env.objects()[r as int] matches Obj::Array(v) && 0 <= i
            < v@.len() && decode(env, v@[i], *inner) is None,
    ensures
        decode(env, r, s) is None,
{
    let v = env.objects()[r as int]->Array_0;
    let inner = *(s->Sequence_0);
    assert(!(forall|k: int| #![trigger v@[k]] 0 <= k < v@.len() ==> decode(env, v@[k], inner) is Some));
    assert(!shape_unsupported(inner));
}

proof fn lemma_record_fails(env: AniEnv, r: usize, s: Shape, i: int)
    requires
        !shape_unsupported(s),
        r < env.objects().len(),
        s matches Shape::Mapping(ks, vs) && env.objects()[r as int] matches Obj::Record(e) && 0 <= i
            < e@.len() && (decode(env, e@[i].0, *ks) is None || decode(env, e@[i].1, *vs) is None),
    ensures
        decode(env, r, s) is None,
{
    let e = env.objects()[r as int]->Record_0;
    let ks = *(s->Mapping_0);
    let vs = *(s->Mapping_1);
    assert(!(forall|k: int|
        #![trigger e@[k]]
        0 <= k < e@.len() ==> decode(env, e@[k].0, ks) is Some && decode(env, e@[k].1, vs) is Some));
    assert(!shape_unsupported(ks) && !shape_unsupported(vs));
}

proof fn lemma_struct_fails(env: AniEnv, r: usize, s: Shape, i: int)
    requires
        !shape_unsupported(s),
        r < env.objects().len(),
        s matches Shape::Struct(_, fields) && 0 <= i < fields@.len() && (!(env.objects()[r as int] is Instance) || (
            env.objects()[r as int] matches Obj::Instance(_, p) && (find_prop(p@, fields@[i].0@) is None
                || decode(env, find_prop(p@, fields@[i].0@)->Some_0, fields@[i].1) is None))),
    ensures
        decode(env, r, s) is None,
{
    let fields = s->Struct_1;
    if env.objects()[r as int] is Instance {
        let p = env.objects()[r as int]->Instance_1;
        assert(!(forall|k: int|
            0 <= k < fields@.len() ==> find_prop(p@, (#[trigger] fields@[k]).0@) is Some && decode(
                env,
                find_prop(p@, fields@[k].0@)->Some_0,
                fields@[k].1,
            ) is Some));
    }
    reveal_with_fuel(decode, 2);
}

/// Probes one union variant name against an object, as `probe` describes.
fn probe_variant(env: &AniEnv, r: AniRef, name: &str) -> (res: Result<bool, AniError>)
    requires
        env.wf(),
        env.valid(r),
    ensures
        res is Ok <==> probe(*env, r.handle, name@) is Some,
        res is Ok ==> probe(*env, r.handle, name@) == Some(res->Ok_0),
        res is Err ==> res->Err_0.kind == ErrorKind::Lookup,
{
    let class = if str_eq(name, "Null") {
        return Ok(r.handle == NULL_HANDLE);
    } else if str_eq(name, "Boolean") {
        ClassRef::Boolean
    } else if str_eq(name, "I8") {
        ClassRef::Byte
    } else if str_eq(name, "I16") {
        ClassRef::Short
    } else if str_eq(name, "I32") {
        ClassRef::Int
    } else if str_eq(name, "I64") {
        ClassRef::Long
    } else if str_eq(name, "F32") || str_eq(name, "F64") {
        ClassRef::Double
    } else if str_eq(name, "S") {
        ClassRef::Str
    } else if str_eq(name, "Array") {
        ClassRef::Array
    } else if str_eq(name, "Record") {
        ClassRef::Record
    } else if str_eq(name, "ArrayBuffer") {
        ClassRef::ArrayBuffer
    } else if str_eq(name, "Int8Array") {
        ClassRef::Typed(TypedArray::Int8)
    } else if str_eq(name, "Int16Array") {
        ClassRef::Typed(TypedArray::Int16)
    } else if str_eq(name, "Int32Array") {
        ClassRef::Typed(TypedArray::Int32)
    } else if str_eq(name, "Uint8Array") {
        ClassRef::Typed(TypedArray::Uint8)
    } else if str_eq(name, "Uint16Array") {
        ClassRef::Typed(TypedArray::Uint16)
    } else if str_eq(name, "Uint32Array") {
        ClassRef::Typed(TypedArray::Uint32)
    } else {
        env.find_class(name)?
    };
    let b = env.instance_of(r, &class);
    match b {
        Ok(b) => Ok(b),
        Err(_) => Err(AniError::of_kind(ErrorKind::Lookup, "class not found")),
    }
}

/// Reads a foreign value back as a native value of shape `s`.
///
/// Reading succeeds exactly when `decode` gives a value, and then yields
/// that value. A shape that names an unsigned or 128-bit integer anywhere
/// is refused as unsupported before anything is read; a union none of whose
/// variants matches is a variant-resolution error.
pub fn deserialize(env: &AniEnv, r: AniRef, s: &Shape) -> (res: Result<Value, AniError>)
    requires
        env.wf(),
    ensures
        res is Ok <==> decode(*env, r.handle, *s) is Some,
        res is Ok ==> res->Ok_0.model() == decode(*env, r.handle, *s)->Some_0,
        shape_unsupported(*s) ==> (res is Err && res->Err_0.kind == ErrorKind::UnsupportedType),
        no_variant_matches(*env, r.handle, *s) ==> (res is Err && res->Err_0.kind
            == ErrorKind::VariantResolution),
{
    if has_unsupported_shape(s) {
        return Err(AniError::of_kind(ErrorKind::UnsupportedType, "integer type unsupported in ani"));
    }
    deserialize_at(env, r, s)
}

fn deserialize_at(env: &AniEnv, r: AniRef, s: &Shape) -> (res: Result<Value, AniError>)
    requires
        env.wf(),
        !shape_unsupported(*s),
    ensures
        res is Ok <==> decode(*env, r.handle, *s) is Some,
        res is Ok ==> res->Ok_0.model() == decode(*env, r.handle, *s)->Some_0,
        no_variant_matches(*env, r.handle, *s) ==> (res is Err && res->Err_0.kind
            == ErrorKind::VariantResolution),
    decreases s, 1nat,
{
    if !env.contains(r) {
        return Err(AniError::of_kind(ErrorKind::Access, "reference is not valid in this environment"));
    }
    match s {
        Shape::Unit => Ok(Value::Unit),
        Shape::Bool => match env.unbox(r, PrimKind::Bool)? {
            Prim::Bool(b) => Ok(Value::Bool(b)),
            _ => Err(AniError::of_kind(ErrorKind::Access, "unboxed the wrong primitive")),
        },
        Shape::I8 => match env.unbox(r, PrimKind::I8)? {
            Prim::I8(x) => Ok(Value::I8(x)),
            _ => Err(AniError::of_kind(ErrorKind::Access, "unboxed the wrong primitive")),
        },
        Shape::I16 => match env.unbox(r, PrimKind::I16)? {
            Prim::I16(x) => Ok(Value::I16(x)),
            _ => Err(AniError::of_kind(ErrorKind::Access, "unboxed the wrong primitive")),
        },
        Shape::I32 => match env.unbox(r, PrimKind::I32)? {
            Prim::I32(x) => Ok(Value::I32(x)),
            _ => Err(AniError::of_kind(ErrorKind::Access, "unboxed the wrong primitive")),
        },
        Shape::I64 => match env.unbox(r, PrimKind::I64)? {
            Prim::I64(x) => Ok(Value::I64(x)),
            _ => Err(AniError::of_kind(ErrorKind::Access, "unboxed the wrong primitive")),
        },
        Shape::Char => match env.unbox(r, PrimKind::Char)? {
            Prim::Char(c) => if surrogate(c) {
                Err(AniError::of_kind(ErrorKind::Conversion, "failed to decode char"))
            } else {
                Ok(Value::Char(c))
            },
            _ => Err(AniError::of_kind(ErrorKind::Access, "unboxed the wrong primitive")),
        },
        Shape::Str => {
            let t = env.convert_ani_string(r)?;
            Ok(Value::Str(t))
        },
        Shape::Opt(inner) => {
            if env.is_undefined(r)? {
                Ok(Value::Opt(None))
            } else {
                let v = deserialize_at(env, r, inner)?;
                Ok(Value::Opt(Some(Box::new(v))))
            }
        },
        Shape::Sequence(_) => deserialize_array(env, r, s),
        Shape::Mapping(_, _) => deserialize_record(env, r, s),
        Shape::Struct(_, _) => deserialize_struct(env, r, s),
        Shape::Enum(name, variants) => {
            let class = env.find_class(name.as_str())?;
            if !env.instance_of(r, &class)? {
                return Err(AniError::of_kind(ErrorKind::VariantResolution, "enum item not match enum class"));
            }
            let idx = env.get_enum_item_index(r)?;
            if idx >= variants.len() {
                return Err(AniError::of_kind(ErrorKind::VariantResolution, "enum item index out of range"));
            }
            Ok(Value::UnitVariant(name.clone(), variants[idx].clone()))
        },
        Shape::Union(_) => deserialize_union(env, r, s),
        Shape::Buffer => {
            let b = env.array_buffer(r)?;
            Ok(Value::Buffer(vstd::slice::slice_to_vec(b)))
        },
        Shape::Typed(k) => match env.typed_array_bytes(r) {
            Ok(b) => Ok(Value::Typed(*k, vstd::slice::slice_to_vec(b))),
            Err(err) => {
                if env.array_length(r)? == 0 {
                    let out = Value::Typed(*k, Vec::new());
                    assert(out.model()->Typed_1 =~= Seq::<u8>::empty());
                    Ok(out)
                } else {
                    Err(err)
                }
            },
        },
        Shape::Raw => Ok(Value::Raw(r.handle)),
        _ => Err(AniError::of_kind(ErrorKind::UnsupportedType, "integer type unsupported in ani")),
    }
}

fn deserialize_array(env: &AniEnv, r: AniRef, s: &Shape) -> (res: Result<Value, AniError>)
    requires
        env.wf(),
        !shape_unsupported(*s),
        env.valid(r),
        s is Sequence,
    ensures
        res is Ok <==> decode(*env, r.handle, *s) is Some,
        res is Ok ==> res->Ok_0.model() == decode(*env, r.handle, *s)->Some_0,
    decreases s, 0nat,
{
    match s {
        Shape::Sequence(inner) => {
            let len = env.array_length(r)?;
            let ghost v = match env.objects()[r.handle as int] {
                Obj::Array(v) => v@,
                _ => Seq::empty(),
            };
            let mut out: Vec<Value> = Vec::new();
            let mut i: usize = 0;
            while i < len
                invariant
                    env.wf(),
                    env.valid(r),
                    !shape_unsupported(*s),
                    *s == Shape::Sequence(*inner),
                    env.objects()[r.handle as int] matches Obj::Array(vv) && vv@ == v,
                    len == v.len(),
                    i <= len,
                    out@.len() == i,
                    forall|j: int|
                        0 <= j < i ==> decode(*env, #[trigger] v[j], **inner) is Some && out@[j].model()
                            == decode(*env, v[j], **inner)->Some_0,
                decreases len - i,
            {
                let e = env.array_get(r, i)?;
                match deserialize_at(env, e, inner) {
                    Ok(x) => {
                        out.push(x);
                    },
                    Err(err) => {
                        proof {
                            lemma_sequence_fails(*env, r.handle, *s, i as int);
                        }
                        return Err(err);
                    },
                }
                i = i + 1;
            }
            let res = Value::Sequence(out);
            proof {
                assert(forall|j: int| 0 <= j < v.len() ==> decode(*env, #[trigger] v[j], **inner) is Some);
                let dd = decode(*env, r.handle, *s)->Some_0;
                assert(res.model()->Sequence_0 =~= dd->Sequence_0);
            }
            Ok(res)
        },
        _ => Err(AniError::of_kind(ErrorKind::Access, "not a sequence shape")),
    }
}

fn deserialize_record(env: &AniEnv, r: AniRef, s: &Shape) -> (res: Result<Value, AniError>)
    requires
        env.wf(),
        !shape_unsupported(*s),
        env.valid(r),
        s is Mapping,
    ensures
        res is Ok <==> decode(*env, r.handle, *s) is Some,
        res is Ok ==> res->Ok_0.model() == decode(*env, r.handle, *s)->Some_0,
    decreases s, 0nat,
{
    match s {
        Shape::Mapping(ks, vs) => {
            let entries = env.record_entries(r)?;
            let ghost e = match env.objects()[r.handle as int] {
                Obj::Record(e) => e@,
                _ => Seq::empty(),
            };
            let mut out: Vec<(Value, Value)> = Vec::new();
            let mut i: usize = 0;
            while i < entries.len()
                invariant
                    env.wf(),
                    env.valid(r),
                    !shape_unsupported(*s),
                    *s == Shape::Mapping(*ks, *vs),
                    env.objects()[r.handle as int] matches Obj::Record(ee) && ee@ == e,
                    crate::env::handles_of(entries@) == e,
                    i <= entries@.len(),
                    out@.len() == i,
                    forall|j: int|
                        0 <= j < i ==> decode(*env, (#[trigger] e[j]).0, **ks) is Some && decode(*env, e[j].1, **vs) is Some
                            && out@[j].0.model() == decode(*env, e[j].0, **ks)->Some_0
                            && out@[j].1.model() == decode(*env, e[j].1, **vs)->Some_0,
                decreases entries@.len() - i,
            {
                let (k, v) = entries[i];
                assert(e[i as int] == (k.handle, v.handle));
                let kv = match deserialize_at(env, k, ks) {
                    Ok(x) => x,
                    Err(err) => {
                        proof {
                            lemma_record_fails(*env, r.handle, *s, i as int);
                        }
                        return Err(err);
                    },
                };
                let vv = match deserialize_at(env, v, vs) {
                    Ok(x) => x,
                    Err(err) => {
                        proof {
                            lemma_record_fails(*env, r.handle, *s, i as int);
                        }
                        return Err(err);
                    },
                };
                out.push((kv, vv));
                i = i + 1;
            }
            let res = Value::Mapping(out);
            proof {
                assert(forall|j: int| 0 <= j < e.len() ==> decode(*env, (#[trigger] e[j]).0, **ks) is Some && decode(*env, e[j].1, **vs) is Some);
                let dd = decode(*env, r.handle, *s)->Some_0;
                assert(res.model()->Mapping_0 =~= dd->Mapping_0);
            }
            Ok(res)
        },
        _ => Err(AniError::of_kind(ErrorKind::Access, "not a map shape")),
    }
}

fn deserialize_struct(env: &AniEnv, r: AniRef, s: &Shape) -> (res: Result<Value, AniError>)
    requires
        env.wf(),
        !shape_unsupported(*s),
        env.valid(r),
        s is Struct,
    ensures
        res is Ok <==> decode(*env, r.handle, *s) is Some,
        res is Ok ==> res->Ok_0.model() == decode(*env, r.handle, *s)->Some_0,
    decreases s, 0nat,
{
    match s {
        Shape::Struct(name, fields) => {
            let mut out: Vec<(String, Value)> = Vec::new();
            let mut i: usize = 0;
            while i < fields.len()
                invariant
                    env.wf(),
                    env.valid(r),
                    !shape_unsupported(*s),
                    *s == Shape::Struct(*name, *fields),
                    i <= fields@.len(),
                    out@.len() == i,
                    forall|j: int|
                        0 <= j < i ==> (env.objects()[r.handle as int] matches Obj::Instance(_, p)
                            && find_prop(p@, (#[trigger] fields@[j]).0@) is Some
                            && decode(*env, find_prop(p@, fields@[j].0@)->Some_0, fields@[j].1) is Some
                            && out@[j].0@ == fields@[j].0@
                            && out@[j].1.model() == decode(*env, find_prop(p@, fields@[j].0@)->Some_0, fields@[j].1)->Some_0),
                decreases fields@.len() - i,
            {
                let pr = match env.get_property(r, fields[i].0.as_str()) {
                    Ok(pr) => pr,
                    Err(err) => {
                        proof {
                            lemma_struct_fails(*env, r.handle, *s, i as int);
                        }
                        return Err(err);
                    },
                };
                assert(!shape_unsupported(fields@[i as int].1));
                let v = match deserialize_at(env, pr, &fields[i].1) {
                    Ok(x) => x,
                    Err(err) => {
                        proof {
                            lemma_struct_fails(*env, r.handle, *s, i as int);
                        }
                        return Err(err);
                    },
                };
                out.push((fields[i].0.clone(), v));
                i = i + 1;
            }
            if fields.len() == 0 {
                if !env.has_properties(r) {
                    return Err(AniError::of_kind(ErrorKind::Access, "object has no properties"));
                }
            }
            let res = Value::Struct(name.clone(), out);
            proof {
                if fields@.len() > 0 {
                    let f0 = fields@[0];
                    assert(env.objects()[r.handle as int] is Instance);
                }
                assert(env.objects()[r.handle as int] is Instance);
                let p = env.objects()[r.handle as int]->Instance_1;
                assert(forall|j: int| 0 <= j < fields@.len() ==> find_prop(p@, (#[trigger] fields@[j]).0@) is Some
                    && decode(*env, find_prop(p@, fields@[j].0@)->Some_0, fields@[j].1) is Some);
                reveal_with_fuel(decode, 2);
                let dd = decode(*env, r.handle, *s)->Some_0;
                assert(res.model()->Struct_1 =~= dd->Struct_1);
            }
            Ok(res)
        },
        _ => Err(AniError::of_kind(ErrorKind::Access, "not a struct shape")),
    }
}

fn deserialize_union(env: &AniEnv, r: AniRef, s: &Shape) -> (res: Result<Value, AniError>)
    requires
        env.wf(),
        !shape_unsupported(*s),
        env.valid(r),
        s is Union,
    ensures
        res is Ok <==> decode(*env, r.handle, *s) is Some,
        res is Ok ==> res->Ok_0.model() == decode(*env, r.handle, *s)->Some_0,
        no_variant_matches(*env, r.handle, *s) ==> (res is Err && res->Err_0.kind
            == ErrorKind::VariantResolution),
    decreases s, 0nat,
{
    match s {
        Shape::Union(variants) => {
            let mut i: usize = 0;
            while i < variants.len()
                invariant
                    env.wf(),
                    env.valid(r),
                    !shape_unsupported(*s),
                    *s == Shape::Union(*variants),
                    i <= variants@.len(),
                    forall|j: int| 0 <= j < i ==> probe(*env, r.handle, (#[trigger] variants@[j]).0@) == Some(false),
                decreases variants@.len() - i,
            {
                let hit = match probe_variant(env, r, variants[i].0.as_str()) {
                    Ok(b) => b,
                    Err(err) => {
                        assert(!exists|j: int| picked(*env, r.handle, variants@, j)) by {
                            if exists|j: int| picked(*env, r.handle, variants@, j) {
                                let j = choose|j: int| picked(*env, r.handle, variants@, j);
                                if j > i {
                                    assert(probe(*env, r.handle, variants@[i as int].0@) == Some(false));
                                }
                            }
                        }
                        return Err(err);
                    },
                };
                if hit {
                    assert(picked(*env, r.handle, variants@, i as int));
                    let ghost c = choose|j: int| picked(*env, r.handle, variants@, j);
                    assert(c == i) by {
                        if c < i {
                            assert(probe(*env, r.handle, variants@[c].0@) == Some(false));
                        }
                        if c > i {
                            assert(probe(*env, r.handle, variants@[i as int].0@) == Some(false));
                        }
                    }
                    assert(!shape_unsupported(variants@[i as int].1));
                    let v = deserialize_at(env, r, &variants[i].1)?;
                    return Ok(Value::Newtype(variants[i].0.clone(), Box::new(v)));
                }
                i = i + 1;
            }
            assert(!exists|j: int| picked(*env, r.handle, variants@, j)) by {
                if exists|j: int| picked(*env, r.handle, variants@, j) {
                    let j = choose|j: int| picked(*env, r.handle, variants@, j);
                    assert(probe(*env, r.handle, variants@[j].0@) == Some(false));
                }
            }
            Err(AniError::of_kind(ErrorKind::VariantResolution, "no variant matched"))
        },
        _ => Err(AniError::of_kind(ErrorKind::Access, "not a union shape")),
    }
}

} // verus!
