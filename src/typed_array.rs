use vstd::prelude::*;

verus! {

/// The element kinds of the foreign runtime's fixed-width typed arrays.
#[derive(Clone, Copy, Debug, PartialEq, Eq, Structural)]
pub enum TypedArray {
    Int8,
    Int16,
    Int32,
    Uint8,
    Uint16,
    Uint32,
}

impl TypedArray {
    pub open spec fn byte_size(self) -> usize {
        match self {
            TypedArray::Int8 => 1,
            TypedArray::Int16 => 2,
            TypedArray::Int32 => 4,
            TypedArray::Uint8 => 1,
            TypedArray::Uint16 => 2,
            TypedArray::Uint32 => 4,
        }
    }

    /// The width of one element, in bytes.
    pub fn get_byte_size(&self) -> (r: usize)
        ensures
            r == self.byte_size(),
    {
        match self {
            TypedArray::Int8 => 1,
            TypedArray::Int16 => 2,
            TypedArray::Int32 => 4,
            TypedArray::Uint8 => 1,
            TypedArray::Uint16 => 2,
            TypedArray::Uint32 => 4,
        }
    }
}

/// A raw byte buffer moved across the boundary.
#[derive(Debug)]
pub struct ArrayBuffer {
    data: Vec<u8>,
}

impl View for ArrayBuffer {
    type V = Seq<u8>;

    closed spec fn view(&self) -> Seq<u8> {
        self.data@
    }
}

impl ArrayBuffer {
    pub fn new_with_vec(data: Vec<u8>) -> (r: Self)
        ensures
            r@ == data@,
    {
        ArrayBuffer { data }
    }

    pub fn len(&self) -> (r: usize)
        ensures
            r == self@.len(),
    {
        self.data.len()
    }

    pub fn to_vec(&self) -> (r: Vec<u8>)
        ensures
            r@ == self@,
    {
        self.data.clone()
    }

    pub fn as_slice(&self) -> (r: &[u8])
        ensures
            r@ == self@,
    {
        self.data.as_slice()
    }
}

impl Clone for ArrayBuffer {
    fn clone(&self) -> (r: Self)
        ensures
            r@ == self@,
    {
        ArrayBuffer { data: self.data.clone() }
    }
}

/// A typed array of unsigned bytes.
#[derive(Debug)]
pub struct Uint8Array {
    data: Vec<u8>,
}

impl View for Uint8Array {
    type V = Seq<u8>;

    closed spec fn view(&self) -> Seq<u8> {
        self.data@
    }
}

impl Uint8Array {
    pub fn new_with_vec(data: Vec<u8>) -> (r: Self)
        ensures
            r@ == data@,
    {
        Uint8Array { data }
    }

    pub fn len(&self) -> (r: usize)
        ensures
            r == self@.len(),
    {
        self.data.len()
    }

    pub fn to_vec(&self) -> (r: Vec<u8>)
        ensures
            r@ == self@,
    {
        self.data.clone()
    }
}

impl Clone for Uint8Array {
    fn clone(&self) -> (r: Self)
        ensures
            r@ == self@,
    {
        Uint8Array { data: self.data.clone() }
    }
}

} // verus!

verus! {

/// The special handling that a reserved wrapper name asks for.
#[derive(Clone, Copy, Debug, PartialEq, Eq, Structural)]
pub enum Marker {
    /// No reserved name: the wrapper is transparent.
    Plain,
    /// The bytes inside are a typed array of this kind.
    Typed(TypedArray),
    /// The integer inside is a foreign reference, carried as it is.
    Raw,
}

/// The marker that a wrapper name selects, by exact match.
pub open spec fn marker_spec(name: Seq<char>) -> Marker {
    if name == "@Int8Array"@ {
        Marker::Typed(TypedArray::Int8)
    } else if name == "@Int16Array"@ {
        Marker::Typed(TypedArray::Int16)
    } else if name == "@Int32Array"@ {
        Marker::Typed(TypedArray::Int32)
    } else if name == "@Uint8Array"@ {
        Marker::Typed(TypedArray::Uint8)
    } else if name == "@Uint16Array"@ {
        Marker::Typed(TypedArray::Uint16)
    } else if name == "@Uint32Array"@ {
        Marker::Typed(TypedArray::Uint32)
    } else if name == "@AniRef"@ {
        Marker::Raw
    } else {
        Marker::Plain
    }
}

/// The marker that a wrapper name selects; any name but the reserved ones
/// is plain.
pub fn marker_of(name: &str) -> (m: Marker)
    ensures
        m == marker_spec(name@),
{
    if crate::text::str_eq(name, "@Int8Array") {
        Marker::Typed(TypedArray::Int8)
    } else if crate::text::str_eq(name, "@Int16Array") {
        Marker::Typed(TypedArray::Int16)
    } else if crate::text::str_eq(name, "@Int32Array") {
        Marker::Typed(TypedArray::Int32)
    } else if crate::text::str_eq(name, "@Uint8Array") {
        Marker::Typed(TypedArray::Uint8)
    } else if crate::text::str_eq(name, "@Uint16Array") {
        Marker::Typed(TypedArray::Uint16)
    } else if crate::text::str_eq(name, "@Uint32Array") {
        Marker::Typed(TypedArray::Uint32)
    } else if crate::text::str_eq(name, "@AniRef") {
        Marker::Raw
    } else {
        Marker::Plain
    }
}

} // verus!
