use vstd::prelude::*;

use crate::de::decode;
use crate::env::{item_at, AniEnv, Obj, NULL_HANDLE, UNDEFINED_HANDLE};
use crate::ser::{distinct_keys, image};
use crate::value::{is_surrogate, shape_unsupported, Shape, Val};
use crate::typed_array::TypedArray;

verus! {

/// A value whose image may be the `undefined` sentinel itself: an absent
/// option, or a value that carries one through.
pub open spec fn may_be_undefined(v: Val) -> bool
    decreases v,
{
    match v {
        Val::Opt(o) => match o {
            None => true,
            Some(x) => may_be_undefined(*x),
        },
        Val::Newtype(_, x) => may_be_undefined(*x),
        Val::Raw(h) => h == UNDEFINED_HANDLE,
        _ => false,
    }
}

/// Value `v` reads back as itself under shape `s`: the shape describes the
/// value, struct field names are distinct and in order, map keys are kept
/// apart (`distinct_keys`), enum variants follow the declared items, byte
/// buffers are not empty, no unsupported integer type is named, and an
/// option that is present does not hold one that is absent.
pub open spec fn fits(env: AniEnv, s: Shape, v: Val) -> bool
    decreases s,
{
    !shape_unsupported(s) && match s {
        Shape::Unit => v is Unit,
        Shape::Bool => v is Bool,
        Shape::I8 => v is I8,
        Shape::I16 => v is I16,
        Shape::I32 => v is I32,
        Shape::I64 => v is I64,
        Shape::Char => match v {
            Val::Char(c) => !is_surrogate(c),
            _ => false,
        },
        Shape::Str => v is Str,
        Shape::Opt(inner) => match v {
            Val::Opt(o) => match o {
                None => true,
                Some(x) => fits(env, *inner, *x) && !may_be_undefined(*x),
            },
            _ => false,
        },
        Shape::Sequence(inner) => match v {
            Val::Sequence(items) => forall|i: int|
                #![trigger items[i]]
                0 <= i < items.len() ==> fits(env, *inner, items[i]),
            _ => false,
        },
        Shape::Mapping(ks, vs) => match v {
            Val::Mapping(es) => distinct_keys(es) && forall|i: int|
                #![trigger es[i]]
                0 <= i < es.len() ==> fits(env, *ks, es[i].0) && fits(env, *vs, es[i].1),
            _ => false,
        },
        Shape::Struct(name, fs) => match v {
            Val::Struct(n, fields) => {
                &&& n == name@
                &&& fs@.len() == fields.len()
                &&& forall|i: int, j: int| 0 <= i < j < fields.len() ==> fields[i].0 != fields[j].0
                &&& forall|i: int|
                    #![trigger fields[i]]
                    0 <= i < fields.len() ==> fs@[i].0@ == fields[i].0 && fits(env, fs@[i].1, fields[i].1)
            },
            _ => false,
        },
        Shape::Enum(name, variants) => match v {
            Val::UnitVariant(e, _) => e == name@ && env.enum_items(e) == Some(
                variants@.map_values(|x: String| x@),
            ),
            _ => false,
        },
        Shape::Buffer => match v {
            Val::Buffer(b) => b.len() > 0,
            _ => false,
        },
        Shape::Typed(k) => match v {
            Val::Typed(k2, _) => k2 == k,
            _ => false,
        },
        Shape::Raw => v is Raw,
        _ => false,
    }
}

/// The image of a value that cannot be `undefined` is not the `undefined`
/// sentinel.
proof fn lemma_image_defined(env: AniEnv, r: usize, v: Val)
    requires
        env.wf(),
        image(env, r, v),
        !may_be_undefined(v),
    ensures
        r != UNDEFINED_HANDLE,
    decreases v,
{
    env.lemma_wf();
    match v {
        Val::Opt(Some(x)) => lemma_image_defined(env, r, *x),
        Val::Newtype(_, x) => lemma_image_defined(env, r, *x),
        _ => {},
    }
}

/// Round trip: the image of a native value reads back, under any shape that
/// fits it, as that very value.
pub proof fn lemma_round_trip(env: AniEnv, r: usize, v: Val, s: Shape)
    requires
        env.wf(),
        image(env, r, v),
        fits(env, s, v),
    ensures
        decode(env, r, s) == Some(v),
    decreases s,
{
    env.lemma_wf();
    let o = env.objects()[r as int];
    match s {
        Shape::Opt(inner) => {
            if let Val::Opt(Some(x)) = v {
                lemma_image_defined(env, r, *x);
                lemma_round_trip(env, r, *x, *inner);
            }
        },
        Shape::Sequence(inner) => {
            let items = v->Sequence_0;
            let a = o->Array_0;
            assert forall|i: int| #![trigger a@[i]] 0 <= i < a@.len() implies decode(env, a@[i], *inner) == Some(items[i]) by {
                assert(items[i] == items[i]);
                lemma_round_trip(env, a@[i], items[i], *inner);
            }
            let d = decode(env, r, s)->Some_0->Sequence_0;
            assert(d =~= items);
        },
        Shape::Mapping(ks, vs) => {
            let es = v->Mapping_0;
            let e = o->Record_0;
            assert forall|i: int| #![trigger e@[i]] 0 <= i < e@.len() implies decode(env, e@[i].0, *ks) == Some(es[i].0)
                && decode(env, e@[i].1, *vs) == Some(es[i].1) by {
                assert(es[i] == es[i]);
                lemma_round_trip(env, e@[i].0, es[i].0, *ks);
                lemma_round_trip(env, e@[i].1, es[i].1, *vs);
            }
            let d = decode(env, r, s)->Some_0->Mapping_0;
            assert(d =~= es);
        },
        Shape::Struct(name, fs) => {
            let fields = v->Struct_1;
            let p = o->Instance_1;
            assert forall|i: int|
                #![trigger fs@[i]]
                0 <= i < fs@.len() implies crate::env::find_prop(p@, fs@[i].0@) == Some(p@[i].1) && decode(
                env,
                p@[i].1,
                fs@[i].1,
            ) == Some(fields[i].1) by {
                assert(fields[i] == fields[i]);
                assert(crate::env::prop_at(p@, fs@[i].0@, i)) by {
                    assert forall|k: int| 0 <= k < i implies (#[trigger] p@[k]).0@ != fs@[i].0@ by {
                        assert(fields[k] == fields[k]);
                    }
                }
                let c = choose|k: int| crate::env::prop_at(p@, fs@[i].0@, k);
                if c < i {
                    assert(fields[c] == fields[c]);
                }
                if c > i {
                    assert(p@[i].0@ != fs@[i].0@);
                }
                lemma_round_trip(env, p@[i].1, fields[i].1, fs@[i].1);
            }
            let d = decode(env, r, s)->Some_0->Struct_1;
            assert(d =~= fields);
        },
        Shape::Typed(k) => {
            let b = v->Typed_1;
            if b.len() == 0 {
                assert(b =~= Seq::<u8>::empty());
            }
        },
        Shape::Enum(name, variants) => {
            let items = variants@.map_values(|x: String| x@);
            let var = v->UnitVariant_1;
            let idx = o->EnumItem_1;
            assert(item_at(items, var, idx as int));
            assert(variants@[idx as int]@ == items[idx as int]);
        },
        _ => {},
    }
}

/// Absent and null are different foreign values: an absent option is
/// carried as `undefined` and reads back as absent, while the unit value is
/// carried as `null`, which an option shape never reads back as absent.
pub proof fn lemma_option_asymmetry(env: AniEnv, inner: Shape)
    requires
        env.wf(),
        !shape_unsupported(inner),
    ensures
        image(env, UNDEFINED_HANDLE, Val::Opt(None)),
        image(env, NULL_HANDLE, Val::Unit),
        UNDEFINED_HANDLE != NULL_HANDLE,
        decode(env, UNDEFINED_HANDLE, Shape::Opt(Box::new(inner))) == Some(Val::Opt(None)),
        decode(env, NULL_HANDLE, Shape::Opt(Box::new(inner))) != Some(Val::Opt(None)),
{
    env.lemma_wf();
}

/// A map whose keys a record keeps apart (no two with the same core, no
/// carried reference) becomes a record with exactly one entry per key,
/// which reads back as the same associations.
pub proof fn lemma_map_entries(env: AniEnv, r: usize, entries: Seq<(Val, Val)>, ks: Shape, vs: Shape)
    requires
        env.wf(),
        image(env, r, Val::Mapping(entries)),
        fits(env, Shape::Mapping(Box::new(ks), Box::new(vs)), Val::Mapping(entries)),
    ensures
        env.objects()[r as int] matches Obj::Record(e) && e@.len() == entries.len(),
        decode(env, r, Shape::Mapping(Box::new(ks), Box::new(vs))) == Some(Val::Mapping(entries)),
{
    lemma_round_trip(env, r, Val::Mapping(entries), Shape::Mapping(Box::new(ks), Box::new(vs)));
}

/// An empty typed array is carried as an empty untyped array, and that
/// array reads back as an empty typed array of the kind asked for.
pub proof fn lemma_empty_typed_array(env: AniEnv, r: usize, k: TypedArray, b: Seq<u8>)
    requires
        env.wf(),
        image(env, r, Val::Typed(k, b)),
        b.len() == 0,
    ensures
        env.objects()[r as int] matches Obj::Array(a) && a@.len() == 0,
        decode(env, r, Shape::Typed(k)) == Some(Val::Typed(k, b)),
{
    lemma_round_trip(env, r, Val::Typed(k, b), Shape::Typed(k));
}

} // verus!
