use vstd::prelude::*;

use crate::typed_array::TypedArray;

verus! {

/// A native value that the bridge can move across the boundary.
#[derive(Debug, PartialEq)]
pub enum Value {
    /// The unit value, carried as the foreign `null`.
    Unit,
    Bool(bool),
    I8(i8),
    I16(i16),
    I32(i32),
    I64(i64),
    /// One UTF-16 code unit.
    Char(u16),
    Str(String),
    /// An optional value: absent is carried as the foreign `undefined`.
    Opt(Option<Box<Value>>),
    /// A sequence whose length is known up front.
    Sequence(Vec<Value>),
    /// A map, as its entries.
    Mapping(Vec<(Value, Value)>),
    /// A named-field aggregate: its foreign class name and its fields in
    /// declaration order.
    Struct(String, Vec<(String, Value)>),
    /// A unit variant of an enum: the enum's foreign name and the variant's name.
    UnitVariant(String, String),
    /// A variant that wraps a value: its name and the value, which alone
    /// crosses the boundary.
    Newtype(String, Box<Value>),
    /// A raw byte buffer.
    Buffer(Vec<u8>),
    /// A typed array: its element kind and its bytes.
    Typed(TypedArray, Vec<u8>),
    /// A foreign reference carried through as it is.
    Raw(usize),
    U8(u8),
    U16(u16),
    U32(u32),
    U64(u64),
    U128(u128),
    I128(i128),
}

/// The mathematical model of a `Value`.
pub enum Val {
    Unit,
    Bool(bool),
    I8(i8),
    I16(i16),
    I32(i32),
    I64(i64),
    Char(u16),
    Str(Seq<char>),
    Opt(Option<Box<Val>>),
    Sequence(Seq<Val>),
    Mapping(Seq<(Val, Val)>),
    Struct(Seq<char>, Seq<(Seq<char>, Val)>),
    UnitVariant(Seq<char>, Seq<char>),
    Newtype(Seq<char>, Box<Val>),
    Buffer(Seq<u8>),
    Typed(TypedArray, Seq<u8>),
    Raw(usize),
    U8(u8),
    U16(u16),
    U32(u32),
    U64(u64),
    U128(u128),
    I128(i128),
}

impl Value {
    pub open spec fn model(self) -> Val
        decreases self,
    {
        match self {
            Value::Unit => Val::Unit,
            Value::Bool(b) => Val::Bool(b),
            Value::I8(x) => Val::I8(x),
            Value::I16(x) => Val::I16(x),
            Value::I32(x) => Val::I32(x),
            Value::I64(x) => Val::I64(x),
            Value::Char(x) => Val::Char(x),
            Value::Str(s) => Val::Str(s@),
            Value::Opt(o) => match o {
                Some(b) => Val::Opt(Some(Box::new((*b).model()))),
                None => Val::Opt(None),
            },
            Value::Sequence(items) => Val::Sequence(
                Seq::new(items@.len(), |i: int| if 0 <= i < items@.len() { items@[i].model() } else { Val::Unit }),
            ),
            Value::Mapping(entries) => Val::Mapping(
                Seq::new(entries@.len(), |i: int| if 0 <= i < entries@.len() {
                    (entries@[i].0.model(), entries@[i].1.model())
                } else {
                    (Val::Unit, Val::Unit)
                }),
            ),
            Value::Struct(name, fields) => Val::Struct(
                name@,
                Seq::new(fields@.len(), |i: int| if 0 <= i < fields@.len() {
                    (fields@[i].0@, fields@[i].1.model())
                } else {
                    (Seq::empty(), Val::Unit)
                }),
            ),
            Value::UnitVariant(e, v) => Val::UnitVariant(e@, v@),
            Value::Newtype(n, b) => Val::Newtype(n@, Box::new((*b).model())),
            Value::Buffer(b) => Val::Buffer(b@),
            Value::Typed(k, b) => Val::Typed(k, b@),
            Value::Raw(h) => Val::Raw(h),
            Value::U8(x) => Val::U8(x),
            Value::U16(x) => Val::U16(x),
            Value::U32(x) => Val::U32(x),
            Value::U64(x) => Val::U64(x),
            Value::U128(x) => Val::U128(x),
            Value::I128(x) => Val::I128(x),
        }
    }
}

} // verus!

verus! {

/// The native type that a foreign value is read back as.
#[derive(Debug)]
pub enum Shape {
    Unit,
    Bool,
    I8,
    I16,
    I32,
    I64,
    Char,
    Str,
    Opt(Box<Shape>),
    Sequence(Box<Shape>),
    Mapping(Box<Shape>, Box<Shape>),
    /// A named-field aggregate: its name and its fields, read in this order.
    Struct(String, Vec<(String, Shape)>),
    /// An enum declared in the environment under this name, with its native
    /// variant names in the order of the foreign items.
    Enum(String, Vec<String>),
    /// An untagged union: variant names with their payload shapes, probed in
    /// order against the foreign value's type.
    Union(Vec<(String, Shape)>),
    Buffer,
    Typed(TypedArray),
    Raw,
    U8,
    U16,
    U32,
    U64,
    U128,
    I128,
}

/// The integer types that the foreign runtime has no primitive for.
pub open spec fn unsupported_shape(s: Shape) -> bool {
    s is U8 || s is U16 || s is U32 || s is U64 || s is U128 || s is I128
}

pub open spec fn unsupported_value(v: Val) -> bool {
    v is U8 || v is U16 || v is U32 || v is U64 || v is U128 || v is I128
}

/// A UTF-16 unit that is half of a surrogate pair and so no character.
pub open spec fn is_surrogate(c: u16) -> bool {
    0xD800 <= c <= 0xDFFF
}

pub fn surrogate(c: u16) -> (r: bool)
    ensures
        r == is_surrogate(c),
{
    0xD800 <= c && c <= 0xDFFF
}

} // verus!

verus! {

/// A shape that names an unsupported integer type anywhere inside it.
pub open spec fn shape_unsupported(s: Shape) -> bool
    decreases s,
{
    unsupported_shape(s) || match s {
        Shape::Opt(i) => shape_unsupported(*i),
        Shape::Sequence(i) => shape_unsupported(*i),
        Shape::Mapping(k, v) => shape_unsupported(*k) || shape_unsupported(*v),
        Shape::Struct(_, fs) => exists|i: int|
            #![trigger fs@[i]]
            0 <= i < fs@.len() && shape_unsupported(fs@[i].1),
        Shape::Union(vs) => exists|i: int|
            #![trigger vs@[i]]
            0 <= i < vs@.len() && shape_unsupported(vs@[i].1),
        _ => false,
    }
}

/// A value that holds an unsupported integer anywhere inside it.
pub open spec fn value_unsupported(v: Val) -> bool
    decreases v,
{
    unsupported_value(v) || match v {
        Val::Opt(o) => match o {
            Some(x) => value_unsupported(*x),
            None => false,
        },
        Val::Newtype(_, x) => value_unsupported(*x),
        Val::Sequence(items) => exists|i: int|
            #![trigger items[i]]
            0 <= i < items.len() && value_unsupported(items[i]),
        Val::Mapping(es) => exists|i: int|
            #![trigger es[i]]
            0 <= i < es.len() && (value_unsupported(es[i].0) || value_unsupported(es[i].1)),
        Val::Struct(_, fs) => exists|i: int|
            #![trigger fs[i]]
            0 <= i < fs.len() && value_unsupported(fs[i].1),
        _ => false,
    }
}

/// Whether a shape names an unsupported integer type anywhere inside it.
pub fn has_unsupported_shape(s: &Shape) -> (r: bool)
    ensures
        r == shape_unsupported(*s),
    decreases s,
{
    match s {
        Shape::U8 | Shape::U16 | Shape::U32 | Shape::U64 | Shape::U128 | Shape::I128 => true,
        Shape::Opt(i) => has_unsupported_shape(i),
        Shape::Sequence(i) => has_unsupported_shape(i),
        Shape::Mapping(k, v) => has_unsupported_shape(k) || has_unsupported_shape(v),
        Shape::Struct(_, fs) => {
            let mut i: usize = 0;
            while i < fs.len()
                invariant
                    *s == Shape::Struct(s->Struct_0, *fs),
                    i <= fs@.len(),
                    forall|j: int| #![trigger fs@[j]] 0 <= j < i ==> !shape_unsupported(fs@[j].1),
                decreases fs@.len() - i,
            {
                proof {
                    assert(decreases_to!(*s => s->Struct_1) || decreases_to!(*s => s->Union_0));
                    let q = fs@[i as int];
                    assert(decreases_to!(*fs => fs@));
                    assert(decreases_to!(fs@ => q));
                    assert(decreases_to!(q => q.1));
                }
                if has_unsupported_shape(&fs[i].1) {
                    assert(fs@[i as int] == fs@[i as int]);
                    return true;
                }
                i = i + 1;
            }
            false
        },
        Shape::Union(fs) => {
            let mut i: usize = 0;
            while i < fs.len()
                invariant
                    *s == Shape::Union(*fs),
                    i <= fs@.len(),
                    forall|j: int| #![trigger fs@[j]] 0 <= j < i ==> !shape_unsupported(fs@[j].1),
                decreases fs@.len() - i,
            {
                proof {
                    assert(decreases_to!(*s => s->Struct_1) || decreases_to!(*s => s->Union_0));
                    let q = fs@[i as int];
                    assert(decreases_to!(*fs => fs@));
                    assert(decreases_to!(fs@ => q));
                    assert(decreases_to!(q => q.1));
                }
                if has_unsupported_shape(&fs[i].1) {
                    assert(fs@[i as int] == fs@[i as int]);
                    return true;
                }
                i = i + 1;
            }
            false
        },
        _ => false,
    }
}

/// Whether a value holds an unsupported integer anywhere inside it.
pub fn has_unsupported_value(v: &Value) -> (r: bool)
    ensures
        r == value_unsupported(v.model()),
    decreases v,
{
    match v {
        Value::U8(_) | Value::U16(_) | Value::U32(_) | Value::U64(_) | Value::U128(_) | Value::I128(_) => true,
        Value::Opt(Some(x)) => has_unsupported_value(x),
        Value::Newtype(_, x) => has_unsupported_value(x),
        Value::Sequence(items) => {
            let ghost m = v.model()->Sequence_0;
            let mut i: usize = 0;
            while i < items.len()
                invariant
                    *v == Value::Sequence(*items),
                    m == v.model()->Sequence_0,
                    m.len() == items@.len(),
                    forall|j: int| #![trigger m[j]] 0 <= j < m.len() ==> m[j] == items@[j].model(),
                    i <= items@.len(),
                    forall|j: int| #![trigger m[j]] 0 <= j < i ==> !value_unsupported(m[j]),
                decreases items@.len() - i,
            {
                if has_unsupported_value(&items[i]) {
                    assert(m[i as int] == items@[i as int].model());
                    return true;
                }
                i = i + 1;
            }
            false
        },
        Value::Mapping(es) => {
            let ghost m = v.model()->Mapping_0;
            let mut i: usize = 0;
            while i < es.len()
                invariant
                    *v == Value::Mapping(*es),
                    m == v.model()->Mapping_0,
                    m.len() == es@.len(),
                    forall|j: int| #![trigger m[j]] 0 <= j < m.len() ==> m[j] == (es@[j].0.model(), es@[j].1.model()),
                    i <= es@.len(),
                    forall|j: int| #![trigger m[j]] 0 <= j < i ==> !value_unsupported(m[j].0) && !value_unsupported(m[j].1),
                decreases es@.len() - i,
            {
                if has_unsupported_value(&es[i].0) || has_unsupported_value(&es[i].1) {
                    assert(m[i as int] == (es@[i as int].0.model(), es@[i as int].1.model()));
                    return true;
                }
                i = i + 1;
            }
            false
        },
        Value::Struct(_, fs) => {
            let ghost m = v.model()->Struct_1;
            let mut i: usize = 0;
            while i < fs.len()
                invariant
                    *v == Value::Struct(v->Struct_0, *fs),
                    m == v.model()->Struct_1,
                    m.len() == fs@.len(),
                    forall|j: int| #![trigger m[j]] 0 <= j < m.len() ==> m[j] == (fs@[j].0@, fs@[j].1.model()),
                    i <= fs@.len(),
                    forall|j: int| #![trigger m[j]] 0 <= j < i ==> !value_unsupported(m[j].1),
                decreases fs@.len() - i,
            {
                if has_unsupported_value(&fs[i].1) {
                    assert(m[i as int] == (fs@[i as int].0@, fs@[i as int].1.model()));
                    return true;
                }
                i = i + 1;
            }
            false
        },
        _ => false,
    }
}

} // verus!

verus! {

/// A sequence whose elements are all bytes is carried as a byte buffer:
/// the bytes, when the sequence is not empty and every element is a `U8`,
/// else `None`.
pub fn byte_items(items: &Vec<Value>) -> (r: Option<Vec<u8>>)
    ensures
        r is Some <==> (items@.len() > 0 && forall|i: int| 0 <= i < items@.len() ==> #[trigger] items@[i] is U8),
        r matches Some(b) ==> b@.len() == items@.len() && forall|i: int|
            0 <= i < items@.len() ==> #[trigger] items@[i] == Value::U8(b@[i]),
{
    if items.len() == 0 {
        return None;
    }
    let mut out: Vec<u8> = Vec::new();
    let mut i: usize = 0;
    while i < items.len()
        invariant
            i <= items@.len(),
            out@.len() == i,
            forall|j: int| 0 <= j < i ==> #[trigger] items@[j] == Value::U8(out@[j]),
        decreases items@.len() - i,
    {
        match &items[i] {
            Value::U8(b) => {
                out.push(*b);
            },
            _ => {
                return None;
            },
        }
        i = i + 1;
    }
    Some(out)
}

} // verus!
