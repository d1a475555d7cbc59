use vstd::prelude::*;

use crate::error::{AniError, ErrorKind};
use crate::text::str_eq;
use crate::typed_array::TypedArray;

verus! {

/// A reference to a foreign object: an opaque handle into the environment's
/// object store.
#[derive(Clone, Copy, Debug, PartialEq, Eq, Structural)]
pub struct AniRef {
    pub handle: usize,
}

impl AniRef {
    /// Wraps a raw handle without checking it.
    pub fn from_raw(handle: usize) -> (r: AniRef)
        ensures
            r.handle == handle,
    {
        AniRef { handle }
    }

    pub fn as_raw(&self) -> (r: usize)
        ensures
            r == self.handle,
    {
        self.handle
    }
}

/// The handle of the foreign `undefined` sentinel.
pub const UNDEFINED_HANDLE: usize = 0;

/// The handle of the foreign `null` value.
pub const NULL_HANDLE: usize = 1;

/// A primitive scalar inside a foreign wrapper object.
#[derive(Clone, Copy, Debug, PartialEq, Eq, Structural)]
pub enum Prim {
    Bool(bool),
    I8(i8),
    I16(i16),
    I32(i32),
    I64(i64),
    Char(u16),
}

/// The wrapper classes of the primitive scalars.
#[derive(Clone, Copy, Debug, PartialEq, Eq, Structural)]
pub enum PrimKind {
    Bool,
    I8,
    I16,
    I32,
    I64,
    Char,
}

pub open spec fn prim_kind(p: Prim) -> PrimKind {
    match p {
        Prim::Bool(_) => PrimKind::Bool,
        Prim::I8(_) => PrimKind::I8,
        Prim::I16(_) => PrimKind::I16,
        Prim::I32(_) => PrimKind::I32,
        Prim::I64(_) => PrimKind::I64,
        Prim::Char(_) => PrimKind::Char,
    }
}

/// A foreign object, as the environment holds it. Objects refer to one
/// another by handle.
#[derive(Debug)]
pub enum Obj {
    Undefined,
    Null,
    /// A boxed primitive.
    Boxed(Prim),
    Str(String),
    Array(Vec<usize>),
    /// A record: its entries, key handle and value handle, in insertion order.
    Record(Vec<(usize, usize)>),
    /// An instance of a declared class: the class name and its properties.
    Instance(String, Vec<(String, usize)>),
    /// An item of a declared enum: the enum's name and the item's index.
    EnumItem(String, usize),
    Buffer(Vec<u8>),
    Typed(TypedArray, Vec<u8>),
    /// An error object: the business code, if it has one, and its message.
    Error(Option<i32>, String),
}

/// A class, as `find_class` and the well-known type names resolve it.
#[derive(Debug)]
pub enum ClassRef {
    Boolean,
    Byte,
    Short,
    Int,
    Long,
    Float,
    Double,
    Char,
    Str,
    Array,
    Record,
    ArrayBuffer,
    Typed(TypedArray),
    /// A class or enum declared in the environment, by name.
    Declared(String),
}

/// Whether object `o` is an instance of class `c`.
pub open spec fn is_instance(o: Obj, c: ClassRef) -> bool {
    match c {
        ClassRef::Boolean => o matches Obj::Boxed(Prim::Bool(_)),
        ClassRef::Byte => o matches Obj::Boxed(Prim::I8(_)),
        ClassRef::Short => o matches Obj::Boxed(Prim::I16(_)),
        ClassRef::Int => o matches Obj::Boxed(Prim::I32(_)),
        ClassRef::Long => o matches Obj::Boxed(Prim::I64(_)),
        ClassRef::Float => false,
        ClassRef::Double => false,
        ClassRef::Char => o matches Obj::Boxed(Prim::Char(_)),
        ClassRef::Str => o is Str,
        ClassRef::Array => o is Array,
        ClassRef::Record => o is Record,
        ClassRef::ArrayBuffer => o is Buffer,
        ClassRef::Typed(k) => match o {
            Obj::Typed(k2, _) => k2 == k,
            _ => false,
        },
        ClassRef::Declared(n) => match o {
            Obj::Instance(c, _) => c@ == n@,
            Obj::EnumItem(e, _) => e@ == n@,
            _ => false,
        },
    }
}

/// Every handle that `o` holds is below `n`.
pub open spec fn refs_below(o: Obj, n: nat) -> bool {
    match o {
        Obj::Array(v) => forall|j: int| 0 <= j < v@.len() ==> v@[j] < n,
        Obj::Record(e) => forall|j: int| 0 <= j < e@.len() ==> e@[j].0 < n && e@[j].1 < n,
        Obj::Instance(_, p) => forall|j: int| 0 <= j < p@.len() ==> p@[j].1 < n,
        _ => true,
    }
}

/// Property `j` is the first of `props` named `name`.
pub open spec fn prop_at(props: Seq<(String, usize)>, name: Seq<char>, j: int) -> bool {
    &&& 0 <= j < props.len()
    &&& props[j].0@ == name
    &&& forall|i: int| 0 <= i < j ==> (#[trigger] props[i]).0@ != name
}

/// The handle of the first property of `props` named `name`.
pub open spec fn find_prop(props: Seq<(String, usize)>, name: Seq<char>) -> Option<usize> {
    if exists|j: int| prop_at(props, name, j) {
        Some(props[choose|j: int| prop_at(props, name, j)].1)
    } else {
        None
    }
}

/// `after` is the instance `before` with property `name` set to `v`: the
/// class is kept, every other property keeps its name, place and value, the
/// first property of that name takes `v`, and a property is appended only
/// when there was none of that name.
pub open spec fn set_prop_result(before: Obj, after: Obj, name: Seq<char>, v: usize) -> bool {
    match (before, after) {
        (Obj::Instance(c, p), Obj::Instance(c2, p2)) => {
            &&& c2@ == c@
            &&& p2@.len() == p@.len() || p2@.len() == p@.len() + 1
            &&& forall|k: int|
                #![trigger p2@[k]]
                0 <= k < p@.len() ==> p2@[k].0@ == p@[k].0@ && (p2@[k].1 == p@[k].1 || p@[k].0@ == name)
            &&& p2@.len() == p@.len() + 1 ==> (find_prop(p@, name) is None && p2@.last().0@ == name
                && p2@.last().1 == v)
        },
        _ => false,
    }
}

/// Item `j` is the first of `items` equal to `x`.
pub open spec fn item_at(items: Seq<Seq<char>>, x: Seq<char>, j: int) -> bool {
    &&& 0 <= j < items.len()
    &&& items[j] == x
    &&& forall|i: int| 0 <= i < j ==> #[trigger] items[i] != x
}

/// The index of the first of `items` equal to `x`.
pub open spec fn item_index(items: Seq<Seq<char>>, x: Seq<char>) -> Option<int> {
    if exists|j: int| item_at(items, x, j) {
        Some(choose|j: int| item_at(items, x, j))
    } else {
        None
    }
}

/// Two handles name the same record key: the same object, or wrappers of the
/// same primitive, or strings of the same characters.
pub open spec fn same_key(objs: Seq<Obj>, a: usize, b: usize) -> bool {
    a == b || match (objs[a as int], objs[b as int]) {
        (Obj::Boxed(p), Obj::Boxed(q)) => p == q,
        (Obj::Str(s), Obj::Str(t)) => s@ == t@,
        _ => false,
    }
}

/// The entries of a record after setting key `k` to value `v`: the first
/// entry with the same key takes the new value in place, otherwise the pair
/// is appended.
pub open spec fn record_with(objs: Seq<Obj>, entries: Seq<(usize, usize)>, k: usize, v: usize) -> Seq<
    (usize, usize),
> {
    if exists|j: int| first_key_at(objs, entries, k, j) {
        let j = choose|j: int| first_key_at(objs, entries, k, j);
        entries.update(j, (entries[j].0, v))
    } else {
        entries.push((k, v))
    }
}

/// Entry `j` is the first whose key is the same as `k`.
pub open spec fn first_key_at(objs: Seq<Obj>, entries: Seq<(usize, usize)>, k: usize, j: int) -> bool {
    &&& 0 <= j < entries.len()
    &&& same_key(objs, entries[j].0, k)
    &&& forall|i: int| 0 <= i < j ==> !same_key(objs, #[trigger] entries[i].0, k)
}

/// A method found by name: its class, its name and whether it is static.
#[derive(Debug)]
pub struct AniMethod {
    pub class: String,
    pub name: String,
    pub is_static: bool,
}

/// A namespace found by name.
#[derive(Debug)]
pub struct AniNamespace {
    pub name: String,
}

/// The environment facade, as a model of the foreign runtime: its object
/// store, its declared classes, enums, methods and namespaces, and the
/// error it has pending. Every operation of the bridge goes through it.
pub struct AniEnv {
    objs: Vec<Obj>,
    classes: Vec<String>,
    enums: Vec<(String, Vec<String>)>,
    methods: Vec<(String, String, bool)>,
    namespaces: Vec<String>,
    pending: Option<usize>,
}

impl AniEnv {
    pub closed spec fn objects(&self) -> Seq<Obj> {
        self.objs@
    }

    /// The error object thrown and not yet handled, if any.
    pub closed spec fn pending_error(&self) -> Option<usize> {
        self.pending
    }

    /// Whether a class of this name is declared.
    pub closed spec fn class_declared(&self, name: Seq<char>) -> bool {
        exists|i: int| 0 <= i < self.classes@.len() && self.classes@[i]@ == name
    }

    /// The item names of the enum of this name, if one is declared.
    pub closed spec fn enum_items(&self, name: Seq<char>) -> Option<Seq<Seq<char>>> {
        if exists|i: int| 0 <= i < self.enums@.len() && self.enums@[i].0@ == name {
            let i = choose|i: int| 0 <= i < self.enums@.len() && self.enums@[i].0@ == name;
            Some(self.enums@[i].1@.map_values(|s: String| s@))
        } else {
            None
        }
    }

    /// Whether `name` resolves to a declared class or enum.
    pub open spec fn type_declared(&self, name: Seq<char>) -> bool {
        self.class_declared(name) || self.enum_items(name) is Some
    }

    /// The declarations of both environments agree.
    pub closed spec fn same_decls(&self, other: &AniEnv) -> bool {
        &&& self.classes@ == other.classes@
        &&& self.enums@ == other.enums@
        &&& self.methods@ == other.methods@
        &&& self.namespaces@ == other.namespaces@
    }

    /// Whether class `class` declares a method `name`, static or not.
    pub closed spec fn method_declared(&self, class: Seq<char>, name: Seq<char>, is_static: bool) -> bool {
        exists|i: int|
            0 <= i < self.methods@.len() && self.methods@[i].0@ == class && self.methods@[i].1@ == name
                && self.methods@[i].2 == is_static
    }

    /// Whether a namespace of this name is declared.
    pub closed spec fn namespace_declared(&self, name: Seq<char>) -> bool {
        exists|i: int| 0 <= i < self.namespaces@.len() && self.namespaces@[i]@ == name
    }

    /// `self` holds every object of `old` unchanged, and maybe more, under
    /// the same declarations.
    pub open spec fn extends(&self, old: &AniEnv) -> bool {
        &&& self.same_decls(old)
        &&& old.objects().len() <= self.objects().len()
        &&& forall|j: int| 0 <= j < old.objects().len() ==> self.objects()[j] == old.objects()[j]
    }

    pub open spec fn valid(&self, r: AniRef) -> bool {
        r.handle < self.objects().len()
    }

    pub closed spec fn wf(&self) -> bool {
        &&& self.objs@.len() >= 2
        &&& self.objs@[0] is Undefined
        &&& self.objs@[1] is Null
        &&& forall|i: int| 2 <= i < self.objs@.len() ==> !(self.objs@[i] is Undefined) && !(self.objs@[i] is Null)
        &&& forall|i: int| 0 <= i < self.objs@.len() ==> refs_below(#[trigger] self.objs@[i], self.objs@.len() as nat)
        &&& forall|i: int, j: int|
            0 <= i < j < self.enums@.len() ==> self.enums@[i].0@ != self.enums@[j].0@
    }

    pub proof fn lemma_wf(&self)
        requires
            self.wf(),
        ensures
            self.objects().len() >= 2,
            self.objects()[0] is Undefined,
            self.objects()[1] is Null,
            forall|i: int| 2 <= i < self.objects().len() ==> !(self.objects()[i] is Undefined) && !(
            self.objects()[i] is Null),
            forall|i: int|
                0 <= i < self.objects().len() ==> refs_below(
                    #[trigger] self.objects()[i],
                    self.objects().len() as nat,
                ),
    {
    }

    /// An environment holding only `undefined` and `null`, with nothing declared.
    pub fn new() -> (r: AniEnv)
        ensures
            r.wf(),
            r.objects().len() == 2,
            r.pending_error() is None,
            forall|n: Seq<char>| !r.type_declared(n),
    {
        let mut objs: Vec<Obj> = Vec::new();
        objs.push(Obj::Undefined);
        objs.push(Obj::Null);
        AniEnv {
            objs,
            classes: Vec::new(),
            enums: Vec::new(),
            methods: Vec::new(),
            namespaces: Vec::new(),
            pending: None,
        }
    }

    /// Declares a class, so that `find_class` resolves its name.
    pub fn define_class(&mut self, name: String)
        requires
            old(self).wf(),
        ensures
            final(self).wf(),
            final(self).objects() == old(self).objects(),
            final(self).class_declared(name@),
            forall|n: Seq<char>| old(self).class_declared(n) ==> final(self).class_declared(n),
            forall|n: Seq<char>| #[trigger] final(self).enum_items(n) == old(self).enum_items(n),
    {
        let ghost n = name@;
        self.classes.push(name);
        assert(self.enums@ == old(self).enums@);
        assert(self.classes@[self.classes@.len() - 1]@ == n);
        assert forall|m: Seq<char>| old(self).class_declared(m) implies self.class_declared(m) by {
            let i = choose|i: int| 0 <= i < old(self).classes@.len() && old(self).classes@[i]@ == m;
            assert(self.classes@[i] == old(self).classes@[i]);
        }
    }

    /// Declares an enum with its items in order. A name already declared as
    /// an enum is refused with a lookup error.
    pub fn define_enum(&mut self, name: String, items: Vec<String>) -> (r: Result<(), AniError>)
        requires
            old(self).wf(),
        ensures
            final(self).wf(),
            final(self).objects() == old(self).objects(),
            forall|n: Seq<char>| #[trigger] final(self).class_declared(n) == old(self).class_declared(n),
            r is Ok <==> old(self).enum_items(name@) is None,
            r is Ok ==> final(self).enum_items(name@) == Some(items@.map_values(|s: String| s@)),
            r is Ok ==> forall|n: Seq<char>|
                n != name@ ==> #[trigger] final(self).enum_items(n) == old(self).enum_items(n),
            r is Err ==> *final(self) == *old(self),
    {
        let mut i: usize = 0;
        while i < self.enums.len()
            invariant
                i <= self.enums@.len(),
                forall|j: int| 0 <= j < i ==> self.enums@[j].0@ != name@,
                *self == *old(self),
                self.wf(),
            decreases self.enums@.len() - i,
        {
            if self.enums[i].0 == name {
                return Err(AniError::of_kind(ErrorKind::Lookup, "enum already declared"));
            }
            i = i + 1;
        }
        let ghost n = name@;
        let ghost it = items@;
        self.enums.push((name, items));
        let ghost last = self.enums@.len() - 1;
        assert(self.enums@[last].0@ == n);
        assert forall|m: Seq<char>| m != n implies #[trigger] self.enum_items(m) == old(self).enum_items(m) by {
            if exists|i: int| 0 <= i < old(self).enums@.len() && old(self).enums@[i].0@ == m {
                let i = choose|i: int| 0 <= i < old(self).enums@.len() && old(self).enums@[i].0@ == m;
                assert(self.enums@[i] == old(self).enums@[i]);
            }
        }
        assert(self.classes@ == old(self).classes@);
        assert forall|m: Seq<char>| #[trigger] self.class_declared(m) == old(self).class_declared(m) by {
        }
        Ok(())
    }

    /// Declares a method of a class, static or not.
    pub fn define_method(&mut self, class: String, name: String, is_static: bool)
        requires
            old(self).wf(),
        ensures
            final(self).wf(),
            final(self).objects() == old(self).objects(),
            final(self).method_declared(class@, name@, is_static),
            forall|c: Seq<char>, n: Seq<char>, st: bool|
                old(self).method_declared(c, n, st) ==> final(self).method_declared(c, n, st),
            forall|n: Seq<char>| #[trigger] final(self).class_declared(n) == old(self).class_declared(n),
            forall|n: Seq<char>| #[trigger] final(self).enum_items(n) == old(self).enum_items(n),
    {
        self.methods.push((class, name, is_static));
        let ghost last = self.methods@.len() - 1;
        assert(self.methods@[last] == self.methods@[last]);
        assert forall|c: Seq<char>, n: Seq<char>, st: bool|
            old(self).method_declared(c, n, st) implies self.method_declared(c, n, st) by {
            let i = choose|i: int|
                0 <= i < old(self).methods@.len() && old(self).methods@[i].0@ == c
                    && old(self).methods@[i].1@ == n && old(self).methods@[i].2 == st;
            assert(self.methods@[i] == old(self).methods@[i]);
        }
        assert(self.classes@ == old(self).classes@);
        assert(self.enums@ == old(self).enums@);
    }

    /// Declares a namespace.
    pub fn define_namespace(&mut self, name: String)
        requires
            old(self).wf(),
        ensures
            final(self).wf(),
            final(self).objects() == old(self).objects(),
            final(self).namespace_declared(name@),
            forall|n: Seq<char>| old(self).namespace_declared(n) ==> final(self).namespace_declared(n),
            forall|n: Seq<char>| #[trigger] final(self).class_declared(n) == old(self).class_declared(n),
            forall|n: Seq<char>| #[trigger] final(self).enum_items(n) == old(self).enum_items(n),
    {
        let ghost n0 = name@;
        self.namespaces.push(name);
        let ghost last = self.namespaces@.len() - 1;
        assert(self.namespaces@[last]@ == n0);
        assert forall|n: Seq<char>| old(self).namespace_declared(n) implies self.namespace_declared(n) by {
            let i = choose|i: int| 0 <= i < old(self).namespaces@.len() && old(self).namespaces@[i]@ == n;
            assert(self.namespaces@[i] == old(self).namespaces@[i]);
        }
        assert(self.classes@ == old(self).classes@);
        assert(self.enums@ == old(self).enums@);
    }

    /// Resolves a declared namespace by name.
    pub fn find_namespace(&self, name: &str) -> (res: Result<AniNamespace, AniError>)
        ensures
            res is Ok <==> self.namespace_declared(name@),
            res is Ok ==> res->Ok_0.name@ == name@,
            res is Err ==> res->Err_0.kind == ErrorKind::Lookup,
    {
        let mut i: usize = 0;
        while i < self.namespaces.len()
            invariant
                i <= self.namespaces@.len(),
                forall|j: int| 0 <= j < i ==> self.namespaces@[j]@ != name@,
            decreases self.namespaces@.len() - i,
        {
            if str_eq(self.namespaces[i].as_str(), name) {
                return Ok(AniNamespace { name: String::from_str(name) });
            }
            i = i + 1;
        }
        Err(AniError::of_kind(ErrorKind::Lookup, "namespace not found"))
    }

    fn lookup_method(&self, class: &str, name: &str, is_static: bool) -> (res: Result<AniMethod, AniError>)
        ensures
            res is Ok <==> self.method_declared(class@, name@, is_static),
            res is Ok ==> res->Ok_0.class@ == class@ && res->Ok_0.name@ == name@ && res->Ok_0.is_static == is_static,
            res is Err ==> res->Err_0.kind == ErrorKind::Lookup,
    {
        let mut i: usize = 0;
        while i < self.methods.len()
            invariant
                i <= self.methods@.len(),
                forall|j: int|
                    0 <= j < i ==> !(self.methods@[j].0@ == class@ && self.methods@[j].1@ == name@
                        && self.methods@[j].2 == is_static),
            decreases self.methods@.len() - i,
        {
            if self.methods[i].2 == is_static && str_eq(self.methods[i].0.as_str(), class) && str_eq(
                self.methods[i].1.as_str(),
                name,
            ) {
                return Ok(AniMethod { class: String::from_str(class), name: String::from_str(name), is_static });
            }
            i = i + 1;
        }
        Err(AniError::of_kind(ErrorKind::Lookup, "method not found"))
    }

    /// Resolves an instance method of a class by name.
    pub fn find_method(&self, class: &str, name: &str) -> (res: Result<AniMethod, AniError>)
        ensures
            res is Ok <==> self.method_declared(class@, name@, false),
            res is Ok ==> res->Ok_0.class@ == class@ && res->Ok_0.name@ == name@ && !res->Ok_0.is_static,
            res is Err ==> res->Err_0.kind == ErrorKind::Lookup,
    {
        self.lookup_method(class, name, false)
    }

    /// Resolves a static method of a class by name.
    pub fn find_static_method(&self, class: &str, name: &str) -> (res: Result<AniMethod, AniError>)
        ensures
            res is Ok <==> self.method_declared(class@, name@, true),
            res is Ok ==> res->Ok_0.class@ == class@ && res->Ok_0.name@ == name@ && res->Ok_0.is_static,
            res is Err ==> res->Err_0.kind == ErrorKind::Lookup,
    {
        self.lookup_method(class, name, true)
    }

    /// Resolves an enum, not a class, declared under `name`.
    pub fn find_enum(&self, name: &str) -> (res: Result<ClassRef, AniError>)
        ensures
            res is Ok <==> self.enum_items(name@) is Some,
            res is Ok ==> (res->Ok_0 matches ClassRef::Declared(n) && n@ == name@),
            res is Err ==> res->Err_0.kind == ErrorKind::Lookup,
    {
        let mut i: usize = 0;
        while i < self.enums.len()
            invariant
                i <= self.enums@.len(),
                forall|j: int| 0 <= j < i ==> self.enums@[j].0@ != name@,
            decreases self.enums@.len() - i,
        {
            if str_eq(self.enums[i].0.as_str(), name) {
                return Ok(ClassRef::Declared(String::from_str(name)));
            }
            i = i + 1;
        }
        Err(AniError::of_kind(ErrorKind::Lookup, "enum not found"))
    }

    fn store(&mut self, o: Obj) -> (r: AniRef)
        requires
            old(self).wf(),
            refs_below(o, old(self).objects().len() as nat),
            !(o is Undefined),
            !(o is Null),
        ensures
            final(self).wf(),
            final(self).objects() == old(self).objects().push(o),
            final(self).same_decls(old(self)),
            r.handle == old(self).objects().len(),
    {
        let r = AniRef { handle: self.objs.len() };
        self.objs.push(o);
        assert forall|i: int| 0 <= i < self.objs@.len() implies refs_below(
            #[trigger] self.objs@[i],
            self.objs@.len() as nat,
        ) by {
            if i < old(self).objs@.len() {
                assert(refs_below(old(self).objs@[i], old(self).objs@.len() as nat));
            }
        }
        r
    }

    fn check(&self, r: AniRef) -> (res: Result<(), AniError>)
        ensures
            res is Ok <==> self.valid(r),
            res is Err ==> res->Err_0.kind == ErrorKind::Access,
    {
        if r.handle < self.objs.len() {
            Ok(())
        } else {
            Err(AniError::of_kind(ErrorKind::Access, "reference is not valid in this environment"))
        }
    }

    /// Whether the reference names an object of this environment.
    pub fn contains(&self, r: AniRef) -> (b: bool)
        ensures
            b == self.valid(r),
    {
        r.handle < self.objs.len()
    }

    /// Whether the object is a class instance, the one kind that has
    /// properties.
    pub fn has_properties(&self, r: AniRef) -> (b: bool)
        requires
            self.valid(r),
        ensures
            b == self.objects()[r.handle as int] is Instance,
    {
        match &self.objs[r.handle] {
            Obj::Instance(_, _) => true,
            _ => false,
        }
    }

    /// The number of objects the environment holds.
    pub fn object_count(&self) -> (n: usize)
        ensures
            n == self.objects().len(),
    {
        self.objs.len()
    }

    /// Whether a class, not an enum, is declared under `name`.
    pub fn is_class(&self, name: &str) -> (b: bool)
        ensures
            b == self.class_declared(name@),
    {
        let mut i: usize = 0;
        while i < self.classes.len()
            invariant
                i <= self.classes@.len(),
                forall|j: int| 0 <= j < i ==> self.classes@[j]@ != name@,
            decreases self.classes@.len() - i,
        {
            if str_eq(self.classes[i].as_str(), name) {
                return true;
            }
            i = i + 1;
        }
        false
    }

    pub proof fn lemma_extends_refl(&self)
        ensures
            self.extends(self),
    {
    }

    pub proof fn lemma_extends_trans(a: &AniEnv, b: &AniEnv, c: &AniEnv)
        requires
            b.extends(a),
            c.extends(b),
        ensures
            c.extends(a),
    {
    }

    /// Environments with the same declarations resolve every name alike.
    pub proof fn lemma_same_decls(&self, other: &AniEnv)
        requires
            self.same_decls(other),
        ensures
            forall|n: Seq<char>| #[trigger] self.class_declared(n) == other.class_declared(n),
            forall|n: Seq<char>| #[trigger] self.enum_items(n) == other.enum_items(n),
    {
    }

    /// The foreign `undefined` sentinel.
    pub fn undefined(&self) -> (r: AniRef)
        ensures
            r.handle == UNDEFINED_HANDLE,
    {
        AniRef { handle: UNDEFINED_HANDLE }
    }

    /// The foreign `null` value.
    pub fn null(&self) -> (r: AniRef)
        ensures
            r.handle == NULL_HANDLE,
    {
        AniRef { handle: NULL_HANDLE }
    }

    pub fn is_undefined(&self, r: AniRef) -> (res: Result<bool, AniError>)
        requires
            self.wf(),
        ensures
            res is Ok <==> self.valid(r),
            res is Ok ==> res->Ok_0 == (r.handle == UNDEFINED_HANDLE),
    {
        self.check(r)?;
        Ok(r.handle == UNDEFINED_HANDLE)
    }

    pub fn is_null(&self, r: AniRef) -> (res: Result<bool, AniError>)
        requires
            self.wf(),
        ensures
            res is Ok <==> self.valid(r),
            res is Ok ==> res->Ok_0 == (r.handle == NULL_HANDLE),
    {
        self.check(r)?;
        Ok(r.handle == NULL_HANDLE)
    }

    /// Boxes a primitive into a new wrapper object.
    pub fn inbox(&mut self, p: Prim) -> (r: AniRef)
        requires
            old(self).wf(),
        ensures
            final(self).wf(),
            final(self).objects() == old(self).objects().push(Obj::Boxed(p)),
            final(self).same_decls(old(self)),
            r.handle == old(self).objects().len(),
    {
        self.store(Obj::Boxed(p))
    }

    /// Unboxes a wrapper of the given primitive kind; any other object is an
    /// access error.
    pub fn unbox(&self, r: AniRef, kind: PrimKind) -> (res: Result<Prim, AniError>)
        ensures
            res is Ok <==> (self.valid(r) && (self.objects()[r.handle as int] matches Obj::Boxed(p)
                && prim_kind(p) == kind)),
            res is Ok ==> self.objects()[r.handle as int] == Obj::Boxed(res->Ok_0),
    {
        self.check(r)?;
        match &self.objs[r.handle] {
            Obj::Boxed(p) => {
                let matches = match (p, kind) {
                    (Prim::Bool(_), PrimKind::Bool) => true,
                    (Prim::I8(_), PrimKind::I8) => true,
                    (Prim::I16(_), PrimKind::I16) => true,
                    (Prim::I32(_), PrimKind::I32) => true,
                    (Prim::I64(_), PrimKind::I64) => true,
                    (Prim::Char(_), PrimKind::Char) => true,
                    _ => false,
                };
                if matches {
                    Ok(*p)
                } else {
                    Err(AniError::of_kind(ErrorKind::Access, "object does not box this primitive"))
                }
            },
            _ => Err(AniError::of_kind(ErrorKind::Access, "object is not a boxed primitive")),
        }
    }

    /// A new foreign string of the characters of `s`.
    pub fn convert_std_string(&mut self, s: &str) -> (r: AniRef)
        requires
            old(self).wf(),
        ensures
            final(self).wf(),
            final(self).objects().len() == old(self).objects().len() + 1,
            final(self).objects().drop_last() == old(self).objects(),
            final(self).objects().last() matches Obj::Str(t) && t@ == s@,
            final(self).same_decls(old(self)),
            r.handle == old(self).objects().len(),
    {
        let r = self.store(Obj::Str(String::from_str(s)));
        assert(self.objs@.drop_last() =~= old(self).objs@);
        r
    }

    /// The characters of a foreign string.
    pub fn convert_ani_string(&self, r: AniRef) -> (res: Result<String, AniError>)
        ensures
            res is Ok <==> (self.valid(r) && self.objects()[r.handle as int] is Str),
            res is Ok ==> (self.objects()[r.handle as int] matches Obj::Str(t) && t@ == res->Ok_0@),
    {
        self.check(r)?;
        match &self.objs[r.handle] {
            Obj::Str(s) => Ok(s.clone()),
            _ => Err(AniError::of_kind(ErrorKind::Conversion, "object is not a string")),
        }
    }

    /// A new array holding the given elements in order.
    pub fn new_array(&mut self, elems: Vec<AniRef>) -> (r: AniRef)
        requires
            old(self).wf(),
            forall|j: int| 0 <= j < elems@.len() ==> old(self).valid(#[trigger] elems@[j]),
        ensures
            final(self).wf(),
            final(self).objects().len() == old(self).objects().len() + 1,
            final(self).objects().drop_last() == old(self).objects(),
            final(self).objects().last() matches Obj::Array(v) && v@ == elems@.map_values(
                |e: AniRef| e.handle,
            ),
            final(self).same_decls(old(self)),
            r.handle == old(self).objects().len(),
    {
        let mut v: Vec<usize> = Vec::new();
        let mut i: usize = 0;
        while i < elems.len()
            invariant
                i <= elems@.len(),
                v@ == elems@.subrange(0, i as int).map_values(|e: AniRef| e.handle),
            decreases elems@.len() - i,
        {
            v.push(elems[i].handle);
            i = i + 1;
            assert(v@ =~= elems@.subrange(0, i as int).map_values(|e: AniRef| e.handle));
        }
        assert(elems@.subrange(0, elems@.len() as int) =~= elems@);
        let ghost vv = v@;
        let r = self.store(Obj::Array(v));
        assert(self.objs@.drop_last() =~= old(self).objs@);
        r
    }

    pub fn array_length(&self, r: AniRef) -> (res: Result<usize, AniError>)
        ensures
            res is Ok <==> (self.valid(r) && self.objects()[r.handle as int] is Array),
            res is Ok ==> (self.objects()[r.handle as int] matches Obj::Array(v) && res->Ok_0
                == v@.len()),
    {
        self.check(r)?;
        match &self.objs[r.handle] {
            Obj::Array(v) => Ok(v.len()),
            _ => Err(AniError::of_kind(ErrorKind::Access, "object is not an array")),
        }
    }

    /// The element at `index`; an index out of range is reported as an error.
    pub fn array_get(&self, r: AniRef, index: usize) -> (res: Result<AniRef, AniError>)
        ensures
            res is Ok <==> (self.valid(r) && (self.objects()[r.handle as int] matches Obj::Array(v)
                && index < v@.len())),
            res is Ok ==> (self.objects()[r.handle as int] matches Obj::Array(v) && res->Ok_0.handle
                == v@[index as int]),
    {
        self.check(r)?;
        match &self.objs[r.handle] {
            Obj::Array(v) => {
                if index < v.len() {
                    Ok(AniRef { handle: v[index] })
                } else {
                    Err(AniError::of_kind(ErrorKind::Access, "array index out of range"))
                }
            },
            _ => Err(AniError::of_kind(ErrorKind::Access, "object is not an array")),
        }
    }

    /// Whether two handles name the same record key.
    pub fn strict_eq(&self, a: AniRef, b: AniRef) -> (r: bool)
        requires
            self.valid(a),
            self.valid(b),
        ensures
            r == same_key(self.objects(), a.handle, b.handle),
    {
        if a.handle == b.handle {
            return true;
        }
        match (&self.objs[a.handle], &self.objs[b.handle]) {
            (Obj::Boxed(p), Obj::Boxed(q)) => *p == *q,
            (Obj::Str(s), Obj::Str(t)) => *s == *t,
            _ => false,
        }
    }

    /// Sets `key` to `value` in record entries under construction: an entry
    /// with the same key takes the new value, otherwise the pair is appended.
    pub fn record_set(&self, entries: &mut Vec<(AniRef, AniRef)>, key: AniRef, value: AniRef)
        requires
            self.valid(key),
            forall|j: int| 0 <= j < old(entries)@.len() ==> self.valid(#[trigger] old(entries)@[j].0),
        ensures
            handles_of(final(entries)@) == record_with(
                self.objects(),
                handles_of(old(entries)@),
                key.handle,
                value.handle,
            ),
            forall|j: int|
                #![trigger final(entries)@[j]]
                0 <= j < final(entries)@.len() ==> (final(entries)@[j].0 == old(entries)@[j].0
                    || final(entries)@[j].0 == key) && (final(entries)@[j].1 == old(entries)@[j].1
                    || final(entries)@[j].1 == value),
            final(entries)@.len() == old(entries)@.len() + 1 ==> final(entries)@ == old(
                entries,
            )@.push((key, value)),
            final(entries)@.len() <= old(entries)@.len() + 1,
            final(entries)@.len() == old(entries)@.len() + 1 <==> !(exists|j: int|
                0 <= j < old(entries)@.len() && same_key(self.objects(), old(entries)@[j].0.handle, key.handle)),
    {
        let ghost objs = self.objects();
        let ghost old_h = handles_of(entries@);
        let mut i: usize = 0;
        while i < entries.len()
            invariant
                entries@ == old(entries)@,
                i <= entries@.len(),
                forall|j: int| 0 <= j < i ==> !same_key(objs, #[trigger] old_h[j].0, key.handle),
                forall|j: int| 0 <= j < entries@.len() ==> self.valid(#[trigger] entries@[j].0),
                self.valid(key),
                objs == self.objects(),
                old_h == handles_of(entries@),
            decreases entries@.len() - i,
        {
            let k = entries[i].0;
            if self.strict_eq(k, key) {
                entries.set(i, (k, value));
                assert(entries@ == old(entries)@.update(i as int, (k, value)));
                proof {
                    assert(first_key_at(objs, old_h, key.handle, i as int));
                    let j = choose|j: int| first_key_at(objs, old_h, key.handle, j);
                    if j < i {
                        assert(!same_key(objs, old_h[j].0, key.handle));
                    }
                    if j > i {
                        assert(!same_key(objs, old_h[i as int].0, key.handle));
                    }
                    assert(j == i);
                    assert(handles_of(entries@) =~= old_h.update(i as int, (old_h[i as int].0, value.handle)));
                }
                return;
            }
            i = i + 1;
        }
        entries.push((key, value));
        assert(!(exists|j: int| first_key_at(objs, old_h, key.handle, j)));
        assert(handles_of(entries@) =~= old_h.push((key.handle, value.handle)));
        assert forall|j: int| 0 <= j < old(entries)@.len() implies !same_key(objs, old(entries)@[j].0.handle, key.handle) by {
            assert(old_h[j].0 == old(entries)@[j].0.handle);
        }
    }

    /// A new record with the given entries, in order.
    pub fn new_record(&mut self, entries: Vec<(AniRef, AniRef)>) -> (r: AniRef)
        requires
            old(self).wf(),
            forall|j: int|
                0 <= j < entries@.len() ==> old(self).valid(#[trigger] entries@[j].0) && old(self).valid(
                    entries@[j].1,
                ),
        ensures
            final(self).wf(),
            final(self).objects().len() == old(self).objects().len() + 1,
            final(self).objects().drop_last() == old(self).objects(),
            final(self).objects().last() matches Obj::Record(e) && e@ == handles_of(entries@),
            final(self).same_decls(old(self)),
            r.handle == old(self).objects().len(),
    {
        let mut e: Vec<(usize, usize)> = Vec::new();
        let mut i: usize = 0;
        while i < entries.len()
            invariant
                i <= entries@.len(),
                e@ == handles_of(entries@.subrange(0, i as int)),
            decreases entries@.len() - i,
        {
            e.push((entries[i].0.handle, entries[i].1.handle));
            i = i + 1;
            assert(e@ =~= handles_of(entries@.subrange(0, i as int)));
        }
        assert(entries@.subrange(0, entries@.len() as int) =~= entries@);
        let r = self.store(Obj::Record(e));
        assert(self.objs@.drop_last() =~= old(self).objs@);
        r
    }

    /// The entries of a record, in order.
    pub fn record_entries(&self, r: AniRef) -> (res: Result<Vec<(AniRef, AniRef)>, AniError>)
        ensures
            res is Ok <==> (self.valid(r) && self.objects()[r.handle as int] is Record),
            res is Ok ==> (self.objects()[r.handle as int] matches Obj::Record(e) && handles_of(
                res->Ok_0@,
            ) == e@),
    {
        self.check(r)?;
        match &self.objs[r.handle] {
            Obj::Record(e) => {
                let mut out: Vec<(AniRef, AniRef)> = Vec::new();
                let mut i: usize = 0;
                while i < e.len()
                    invariant
                        i <= e@.len(),
                        handles_of(out@) == e@.subrange(0, i as int),
                        out@.len() == i,
                    decreases e@.len() - i,
                {
                    let ghost prev = out@;
                    out.push((AniRef { handle: e[i].0 }, AniRef { handle: e[i].1 }));
                    i = i + 1;
                    assert forall|j: int| 0 <= j < i implies handles_of(out@)[j] == e@[j] by {
                        if j < i - 1 {
                            assert(handles_of(prev)[j] == e@.subrange(0, i - 1)[j]);
                        }
                    }
                    assert(handles_of(out@) =~= e@.subrange(0, i as int));
                }
                assert(e@.subrange(0, e@.len() as int) =~= e@);
                Ok(out)
            },
            _ => Err(AniError::of_kind(ErrorKind::Access, "object is not a record")),
        }
    }

    /// Resolves a class or enum declared under `name`.
    pub fn find_class(&self, name: &str) -> (res: Result<ClassRef, AniError>)
        ensures
            res is Ok <==> self.type_declared(name@),
            res is Ok ==> (res->Ok_0 matches ClassRef::Declared(n) && n@ == name@),
            res is Err ==> res->Err_0.kind == ErrorKind::Lookup,
    {
        let mut i: usize = 0;
        while i < self.classes.len()
            invariant
                i <= self.classes@.len(),
                forall|j: int| 0 <= j < i ==> self.classes@[j]@ != name@,
            decreases self.classes@.len() - i,
        {
            if str_eq(self.classes[i].as_str(), name) {
                return Ok(ClassRef::Declared(String::from_str(name)));
            }
            i = i + 1;
        }
        let mut i: usize = 0;
        while i < self.enums.len()
            invariant
                i <= self.enums@.len(),
                forall|j: int| 0 <= j < i ==> self.enums@[j].0@ != name@,
                !self.class_declared(name@),
            decreases self.enums@.len() - i,
        {
            if str_eq(self.enums[i].0.as_str(), name) {
                return Ok(ClassRef::Declared(String::from_str(name)));
            }
            i = i + 1;
        }
        Err(AniError::of_kind(ErrorKind::Lookup, "class not found"))
    }

    /// Whether the object is an instance of the class.
    pub fn instance_of(&self, r: AniRef, class: &ClassRef) -> (res: Result<bool, AniError>)
        ensures
            res is Ok <==> self.valid(r),
            res is Ok ==> res->Ok_0 == is_instance(self.objects()[r.handle as int], *class),
    {
        self.check(r)?;
        let o = &self.objs[r.handle];
        let b = match class {
            ClassRef::Boolean => matches!(o, Obj::Boxed(Prim::Bool(_))),
            ClassRef::Byte => matches!(o, Obj::Boxed(Prim::I8(_))),
            ClassRef::Short => matches!(o, Obj::Boxed(Prim::I16(_))),
            ClassRef::Int => matches!(o, Obj::Boxed(Prim::I32(_))),
            ClassRef::Long => matches!(o, Obj::Boxed(Prim::I64(_))),
            ClassRef::Float => false,
            ClassRef::Double => false,
            ClassRef::Char => matches!(o, Obj::Boxed(Prim::Char(_))),
            ClassRef::Str => matches!(o, Obj::Str(_)),
            ClassRef::Array => matches!(o, Obj::Array(_)),
            ClassRef::Record => matches!(o, Obj::Record(_)),
            ClassRef::ArrayBuffer => matches!(o, Obj::Buffer(_)),
            ClassRef::Typed(k) => match o {
                Obj::Typed(k2, _) => *k2 == *k,
                _ => false,
            },
            ClassRef::Declared(n) => match o {
                Obj::Instance(c, _) => *c == *n,
                Obj::EnumItem(e, _) => *e == *n,
                _ => false,
            },
        };
        Ok(b)
    }

    /// A new instance of a declared class with the given properties, set in
    /// order.
    pub fn new_object(&mut self, class: &ClassRef, props: Vec<(String, AniRef)>) -> (res: Result<AniRef, AniError>)
        requires
            old(self).wf(),
            forall|j: int| 0 <= j < props@.len() ==> old(self).valid(#[trigger] props@[j].1),
        ensures
            final(self).wf(),
            final(self).same_decls(old(self)),
            res is Ok <==> (class matches ClassRef::Declared(n) && old(self).class_declared(n@)),
            res is Err ==> final(self).objects() == old(self).objects() && res->Err_0.kind == ErrorKind::Construction,
            res is Ok ==> {
                &&& res->Ok_0.handle == old(self).objects().len()
                &&& final(self).objects().len() == old(self).objects().len() + 1
                &&& final(self).objects().drop_last() == old(self).objects()
                &&& final(self).objects().last() matches Obj::Instance(c, p) && class matches ClassRef::Declared(n)
                    && c@ == n@ && props_of(p@) == props_of_refs(props@)
            },
    {
        match class {
            ClassRef::Declared(n) => {
                let mut i: usize = 0;
                let mut found = false;
                while i < self.classes.len()
                    invariant
                        i <= self.classes@.len(),
                        !found ==> forall|j: int| 0 <= j < i ==> self.classes@[j]@ != n@,
                        found ==> self.class_declared(n@),
                    decreases self.classes@.len() - i,
                {
                    if self.classes[i] == *n {
                        found = true;
                    }
                    i = i + 1;
                }
                if !found {
                    return Err(AniError::of_kind(ErrorKind::Construction, "class cannot be constructed"));
                }
                let mut p: Vec<(String, usize)> = Vec::new();
                let ghost all = props@;
                let mut i: usize = 0;
                let len = props.len();
                while i < len
                    invariant
                        len == all.len(),
                        i <= len,
                        props@ == all,
                        props_of(p@) == props_of_refs(all.subrange(0, i as int)),
                        p@.len() == i,
                    decreases len - i,
                {
                    let name = props[i].0.clone();
                    let ghost prev = p@;
                    p.push((name, props[i].1.handle));
                    i = i + 1;
                    assert forall|j: int| 0 <= j < i implies props_of(p@)[j] == props_of_refs(
                        all.subrange(0, i as int),
                    )[j] by {
                        if j < i - 1 {
                            assert(props_of(prev)[j] == props_of_refs(all.subrange(0, i - 1))[j]);
                        } else {
                            assert(p@[j].0 == all[j].0);
                        }
                    }
                    assert(props_of(p@) =~= props_of_refs(all.subrange(0, i as int)));
                }
                assert(all.subrange(0, len as int) =~= all);
                let ghost pv = p@;
                assert forall|j: int| 0 <= j < pv.len() implies pv[j].1 < self.objs@.len() by {
                    assert(props_of(pv)[j].1 == props_of_refs(all)[j].1);
                    assert(old(self).valid(all[j].1));
                }
                let r = self.store(Obj::Instance(n.clone(), p));
                assert(self.objs@.drop_last() =~= old(self).objs@);
                Ok(r)
            },
            _ => Err(AniError::of_kind(ErrorKind::Construction, "class cannot be constructed")),
        }
    }

    /// The value of the property `name` of an object; an object without one
    /// is an access error.
    pub fn get_property(&self, r: AniRef, name: &str) -> (res: Result<AniRef, AniError>)
        ensures
            res is Ok <==> (self.valid(r) && (self.objects()[r.handle as int] matches Obj::Instance(
                _,
                p,
            ) && find_prop(p@, name@) is Some)),
            res is Ok ==> (self.objects()[r.handle as int] matches Obj::Instance(_, p) && find_prop(
                p@,
                name@,
            ) == Some(res->Ok_0.handle)),
    {
        self.check(r)?;
        match &self.objs[r.handle] {
            Obj::Instance(cn, p) => {
                let mut i: usize = 0;
                while i < p.len()
                    invariant
                        r.handle < self.objs@.len(),
                        self.objs@[r.handle as int] == Obj::Instance(*cn, *p),
                        i <= p@.len(),
                        forall|j: int| 0 <= j < i ==> (#[trigger] p@[j]).0@ != name@,
                    decreases p@.len() - i,
                {
                    if str_eq(p[i].0.as_str(), name) {
                        assert(prop_at(p@, name@, i as int));
                        let ghost j = choose|j: int| prop_at(p@, name@, j);
                        assert(j == i) by {
                            if j > i {
                                assert(p@[i as int].0@ != name@);
                            }
                        }
                        return Ok(AniRef { handle: p[i].1 });
                    }
                    i = i + 1;
                }
                Err(AniError::of_kind(ErrorKind::Access, "object has no such property"))
            },
            _ => Err(AniError::of_kind(ErrorKind::Access, "object has no properties")),
        }
    }

    /// A new item of a declared enum, chosen by its name.
    pub fn new_enum_item(&mut self, enum_name: &str, item: &str) -> (res: Result<AniRef, AniError>)
        requires
            old(self).wf(),
        ensures
            final(self).wf(),
            final(self).same_decls(old(self)),
            res is Ok <==> (old(self).enum_items(enum_name@) matches Some(items) && item_index(
                items,
                item@,
            ) is Some),
            res is Err ==> final(self).objects() == old(self).objects() && res->Err_0.kind
                == ErrorKind::Lookup,
            res is Ok ==> {
                &&& res->Ok_0.handle == old(self).objects().len()
                &&& final(self).objects().len() == old(self).objects().len() + 1
                &&& final(self).objects().drop_last() == old(self).objects()
                &&& final(self).objects().last() matches Obj::EnumItem(e, idx) && e@ == enum_name@
                    && Some(idx as int) == item_index(old(self).enum_items(enum_name@)->Some_0, item@)
            },
    {
        let mut i: usize = 0;
        while i < self.enums.len()
            invariant
                i <= self.enums@.len(),
                forall|j: int| 0 <= j < i ==> self.enums@[j].0@ != enum_name@,
                self.wf(),
                *self == *old(self),
            decreases self.enums@.len() - i,
        {
            if str_eq(self.enums[i].0.as_str(), enum_name) {
                let ghost items = self.enums@[i as int].1@.map_values(|s: String| s@);
                assert(self.enum_items(enum_name@) == Some(items)) by {
                    let k = choose|k: int| 0 <= k < self.enums@.len() && self.enums@[k].0@ == enum_name@;
                    assert(k == i) by {
                        if k != i as int {
                            assert(self.enums@[k].0@ != self.enums@[i as int].0@);
                        }
                    }
                }
                let mut k: usize = 0;
                let n = self.enums[i].1.len();
                while k < n
                    invariant
                        i < self.enums@.len(),
                        self.wf(),
                        *self == *old(self),
                        self.enum_items(enum_name@) == Some(items),
                        n == self.enums@[i as int].1@.len(),
                        items == self.enums@[i as int].1@.map_values(|s: String| s@),
                        k <= n,
                        forall|j: int| 0 <= j < k ==> #[trigger] items[j] != item@,
                    decreases n - k,
                {
                    if str_eq(self.enums[i].1[k].as_str(), item) {
                        assert(item_at(items, item@, k as int));
                        let ghost j = choose|j: int| item_at(items, item@, j);
                        assert(j == k) by {
                            if j > k {
                                assert(items[k as int] != item@);
                            }
                        }
                        let name = String::from_str(enum_name);
                        let r = self.store(Obj::EnumItem(name, k));
                        assert(self.objs@.drop_last() =~= old(self).objs@);
                        return Ok(r);
                    }
                    k = k + 1;
                }
                return Err(AniError::of_kind(ErrorKind::Lookup, "enum item not found"));
            }
            i = i + 1;
        }
        Err(AniError::of_kind(ErrorKind::Lookup, "enum not found"))
    }

    /// The index of an enum item within its enum.
    pub fn get_enum_item_index(&self, r: AniRef) -> (res: Result<usize, AniError>)
        ensures
            res is Ok <==> (self.valid(r) && self.objects()[r.handle as int] is EnumItem),
            res is Ok ==> (self.objects()[r.handle as int] matches Obj::EnumItem(_, idx) && idx
                == res->Ok_0),
    {
        self.check(r)?;
        match &self.objs[r.handle] {
            Obj::EnumItem(_, idx) => Ok(*idx),
            _ => Err(AniError::of_kind(ErrorKind::Access, "object is not an enum item")),
        }
    }

    /// A new byte buffer that takes over `bytes` without copying them.
    pub fn create_array_buffer(&mut self, bytes: Vec<u8>) -> (r: AniRef)
        requires
            old(self).wf(),
        ensures
            final(self).wf(),
            final(self).objects().len() == old(self).objects().len() + 1,
            final(self).objects().drop_last() == old(self).objects(),
            final(self).objects().last() matches Obj::Buffer(b) && b@ == bytes@,
            final(self).same_decls(old(self)),
            r.handle == old(self).objects().len(),
    {
        let r = self.store(Obj::Buffer(bytes));
        assert(self.objs@.drop_last() =~= old(self).objs@);
        r
    }

    /// A view of the bytes of a buffer, borrowed from the environment.
    pub fn array_buffer(&self, r: AniRef) -> (res: Result<&[u8], AniError>)
        ensures
            res is Ok <==> (self.valid(r) && self.objects()[r.handle as int] is Buffer),
            res is Ok ==> (self.objects()[r.handle as int] matches Obj::Buffer(b) && b@
                == res->Ok_0@),
    {
        self.check(r)?;
        match &self.objs[r.handle] {
            Obj::Buffer(b) => Ok(b.as_slice()),
            _ => Err(AniError::of_kind(ErrorKind::Access, "object is not a byte buffer")),
        }
    }

    /// A new typed array of the given kind over `bytes`.
    pub fn new_typed_array(&mut self, kind: TypedArray, bytes: Vec<u8>) -> (r: AniRef)
        requires
            old(self).wf(),
        ensures
            final(self).wf(),
            final(self).objects().len() == old(self).objects().len() + 1,
            final(self).objects().drop_last() == old(self).objects(),
            final(self).objects().last() matches Obj::Typed(k, b) && k == kind && b@ == bytes@,
            final(self).same_decls(old(self)),
            r.handle == old(self).objects().len(),
    {
        let r = self.store(Obj::Typed(kind, bytes));
        assert(self.objs@.drop_last() =~= old(self).objs@);
        r
    }

    /// A view of the bytes behind a typed array, of whatever kind.
    pub fn typed_array_bytes(&self, r: AniRef) -> (res: Result<&[u8], AniError>)
        ensures
            res is Ok <==> (self.valid(r) && self.objects()[r.handle as int] is Typed),
            res is Ok ==> (self.objects()[r.handle as int] matches Obj::Typed(_, b) && b@
                == res->Ok_0@),
    {
        self.check(r)?;
        match &self.objs[r.handle] {
            Obj::Typed(_, b) => Ok(b.as_slice()),
            _ => Err(AniError::of_kind(ErrorKind::Access, "object is not a typed array")),
        }
    }

    /// A new error object carrying a message.
    pub fn new_error(&mut self, message: &str) -> (r: AniRef)
        requires
            old(self).wf(),
        ensures
            final(self).wf(),
            final(self).objects().len() == old(self).objects().len() + 1,
            final(self).objects().drop_last() == old(self).objects(),
            final(self).objects().last() matches Obj::Error(c, m) && c is None && m@ == message@,
            final(self).same_decls(old(self)),
            r.handle == old(self).objects().len(),
    {
        let r = self.store(Obj::Error(None, String::from_str(message)));
        assert(self.objs@.drop_last() =~= old(self).objs@);
        r
    }

    /// A new business error object carrying a numeric code and a message.
    pub fn business_error(&mut self, code: i32, message: &str) -> (r: AniRef)
        requires
            old(self).wf(),
        ensures
            final(self).wf(),
            final(self).objects().len() == old(self).objects().len() + 1,
            final(self).objects().drop_last() == old(self).objects(),
            final(self).objects().last() matches Obj::Error(c, m) && c == Some(code) && m@ == message@,
            final(self).same_decls(old(self)),
            r.handle == old(self).objects().len(),
    {
        let r = self.store(Obj::Error(Some(code), String::from_str(message)));
        assert(self.objs@.drop_last() =~= old(self).objs@);
        r
    }

    /// Writes element `index` of an array; an index out of range is an
    /// error, and nothing changes.
    pub fn array_set(&mut self, arr: AniRef, index: usize, value: AniRef) -> (res: Result<(), AniError>)
        requires
            old(self).wf(),
        ensures
            final(self).wf(),
            final(self).same_decls(old(self)),
            final(self).objects().len() == old(self).objects().len(),
            res is Ok <==> (old(self).valid(arr) && old(self).valid(value) && (old(self).objects()[arr.handle as int] matches Obj::Array(v) && index < v@.len())),
            res is Err ==> final(self).objects() == old(self).objects(),
            res is Ok ==> forall|j: int| 0 <= j < old(self).objects().len() && j != arr.handle ==> final(self).objects()[j] == old(self).objects()[j],
            res is Ok ==> (old(self).objects()[arr.handle as int] matches Obj::Array(v) && final(self).objects()[arr.handle as int] matches Obj::Array(w) && w@ == v@.update(index as int, value.handle)),
    {
        self.check(arr)?;
        self.check(value)?;
        let w = match &self.objs[arr.handle] {
            Obj::Array(v) => {
                if index >= v.len() {
                    return Err(AniError::of_kind(ErrorKind::Access, "array index out of range"));
                }
                let mut w = vstd::slice::slice_to_vec(v.as_slice());
                w.set(index, value.handle);
                w
            },
            _ => {
                return Err(AniError::of_kind(ErrorKind::Access, "object is not an array"));
            },
        };
        let ghost old_objs = self.objs@;
        let ghost wv = w@;
        self.objs.set(arr.handle, Obj::Array(w));
        proof {
            assert forall|i: int| 0 <= i < self.objs@.len() implies refs_below(
                #[trigger] self.objs@[i],
                self.objs@.len() as nat,
            ) by {
                if i != arr.handle {
                    assert(refs_below(old_objs[i], old_objs.len() as nat));
                } else {
                    let v = old_objs[i]->Array_0;
                    assert(refs_below(old_objs[i], old_objs.len() as nat));
                    assert forall|j: int| 0 <= j < wv.len() implies wv[j] < self.objs@.len() by {
                        if j != index {
                            assert(wv[j] == v@[j]);
                        }
                    }
                }
            }
        }
        Ok(())
    }

    /// Sets property `name` of a class instance: an existing property of
    /// that name takes the value, otherwise the property is added.
    pub fn set_property(&mut self, obj: AniRef, name: &str, value: AniRef) -> (res: Result<(), AniError>)
        requires
            old(self).wf(),
        ensures
            final(self).wf(),
            final(self).same_decls(old(self)),
            final(self).objects().len() == old(self).objects().len(),
            res is Ok <==> (old(self).valid(obj) && old(self).valid(value) && old(self).objects()[obj.handle as int] is Instance),
            res is Err ==> final(self).objects() == old(self).objects(),
            res is Ok ==> forall|j: int| 0 <= j < old(self).objects().len() && j != obj.handle ==> final(self).objects()[j] == old(self).objects()[j],
            res is Ok ==> (final(self).objects()[obj.handle as int] matches Obj::Instance(_, p) && find_prop(p@, name@) == Some(value.handle)),
            res is Ok ==> set_prop_result(old(self).objects()[obj.handle as int], final(self).objects()[obj.handle as int], name@, value.handle),
    {
        self.check(obj)?;
        self.check(value)?;
        let (c, mut q) = match &self.objs[obj.handle] {
            Obj::Instance(c, p) => {
                let mut q: Vec<(String, usize)> = Vec::new();
                let mut i: usize = 0;
                while i < p.len()
                    invariant
                        i <= p@.len(),
                        q@.len() == i,
                        forall|j: int| #![trigger q@[j]] 0 <= j < i ==> q@[j] == p@[j],
                    decreases p@.len() - i,
                {
                    q.push((p[i].0.clone(), p[i].1));
                    i = i + 1;
                }
                assert(q@ =~= p@);
                (c.clone(), q)
            },
            _ => {
                return Err(AniError::of_kind(ErrorKind::Access, "object has no properties"));
            },
        };
        let ghost old_objs = self.objs@;
        let ghost p = q@;
        let mut i: usize = 0;
        while i < q.len()
            invariant
                q@.len() == p.len(),
                i <= q@.len(),
                forall|j: int| 0 <= j < i ==> (#[trigger] q@[j]).0@ != name@,
                forall|j: int| 0 <= j < q@.len() ==> q@[j] == p[j],
            ensures
                q@.len() == p.len(),
                i <= q@.len(),
                forall|j: int| 0 <= j < i ==> (#[trigger] q@[j]).0@ != name@,
                forall|j: int| 0 <= j < q@.len() ==> q@[j] == p[j],
                i < q@.len() ==> q@[i as int].0@ == name@,
            decreases q@.len() - i,
        {
            if str_eq(q[i].0.as_str(), name) {
                break;
            }
            i = i + 1;
        }
        if i < q.len() {
            let k = q[i].0.clone();
            q.set(i, (k, value.handle));
        } else {
            q.push((String::from_str(name), value.handle));
        }
        let ghost qv = q@;
        proof {
            let j0 = i as int;
            assert(prop_at(qv, name@, j0)) by {
                assert forall|j: int| 0 <= j < j0 implies (#[trigger] qv[j]).0@ != name@ by {
                    assert(qv[j] == p[j]);
                }
            }
            let c0 = choose|k: int| prop_at(qv, name@, k);
            assert(c0 == j0) by {
                if c0 < j0 {
                    assert(qv[c0] == p[c0]);
                }
                if c0 > j0 {
                    assert(qv[j0].0@ == name@);
                }
            }
        }
        self.objs.set(obj.handle, Obj::Instance(c, q));
        proof {
            assert forall|k: int| 0 <= k < self.objs@.len() implies refs_below(
                #[trigger] self.objs@[k],
                self.objs@.len() as nat,
            ) by {
                assert(refs_below(old_objs[k], old_objs.len() as nat));
                if k == obj.handle {
                    assert forall|j: int| 0 <= j < qv.len() implies qv[j].1 < self.objs@.len() by {
                        if j < p.len() && j != i {
                            assert(qv[j] == p[j]);
                        }
                    }
                }
            }
        }
        Ok(())
    }

    /// Raises an error object; it stays pending until it is taken.
    pub fn throw_error(&mut self, error: AniRef) -> (res: Result<(), AniError>)
        requires
            old(self).wf(),
        ensures
            final(self).wf(),
            final(self).extends(old(self)),
            final(self).objects() == old(self).objects(),
            res is Ok <==> (old(self).valid(error) && old(self).objects()[error.handle as int] is Error),
            res is Ok ==> final(self).pending_error() == Some(error.handle),
            res is Err ==> final(self).pending_error() == old(self).pending_error(),
    {
        self.check(error)?;
        match &self.objs[error.handle] {
            Obj::Error(_, _) => {
                self.pending = Some(error.handle);
                Ok(())
            },
            _ => Err(AniError::of_kind(ErrorKind::Access, "object is not an error")),
        }
    }

    /// Constructs and raises a business error carrying `code` and `message`.
    pub fn throw_business_error(&mut self, code: i32, message: &str) -> (r: AniRef)
        requires
            old(self).wf(),
        ensures
            final(self).wf(),
            final(self).extends(old(self)),
            r.handle == old(self).objects().len(),
            r.handle < final(self).objects().len(),
            final(self).objects()[r.handle as int] matches Obj::Error(c, m) && c == Some(code) && m@ == message@,
            final(self).pending_error() == Some(r.handle),
    {
        let r = self.business_error(code, message);
        self.pending = Some(r.handle);
        r
    }

    /// Whether an error is pending.
    pub fn exist_unhandled_error(&self) -> (b: bool)
        ensures
            b == self.pending_error() is Some,
    {
        self.pending.is_some()
    }

    /// Takes the pending error, if any, leaving none.
    pub fn take_pending_error(&mut self) -> (r: Option<AniRef>)
        requires
            old(self).wf(),
        ensures
            final(self).wf(),
            final(self).extends(old(self)),
            final(self).objects() == old(self).objects(),
            final(self).pending_error() is None,
            r matches Some(e) ==> old(self).pending_error() == Some(e.handle),
            r is None <==> old(self).pending_error() is None,
    {
        let p = self.pending;
        self.pending = None;
        match p {
            Some(h) => Some(AniRef { handle: h }),
            None => None,
        }
    }

    /// The message of an error object.
    pub fn error_message(&self, r: AniRef) -> (res: Result<String, AniError>)
        ensures
            res is Ok <==> (self.valid(r) && self.objects()[r.handle as int] is Error),
            res is Ok ==> (self.objects()[r.handle as int] matches Obj::Error(_, m) && m@ == res->Ok_0@),
    {
        self.check(r)?;
        match &self.objs[r.handle] {
            Obj::Error(_, m) => Ok(m.clone()),
            _ => Err(AniError::of_kind(ErrorKind::Access, "object is not an error")),
        }
    }

    /// The business code of an error object: `None` for a plain error.
    pub fn error_code(&self, r: AniRef) -> (res: Result<Option<i32>, AniError>)
        ensures
            res is Ok <==> (self.valid(r) && self.objects()[r.handle as int] is Error),
            res is Ok ==> (self.objects()[r.handle as int] matches Obj::Error(c, _) && c == res->Ok_0),
    {
        self.check(r)?;
        match &self.objs[r.handle] {
            Obj::Error(c, _) => Ok(*c),
            _ => Err(AniError::of_kind(ErrorKind::Access, "object is not an error")),
        }
    }
}

/// The handles of reference pairs.
pub open spec fn handles_of(entries: Seq<(AniRef, AniRef)>) -> Seq<(usize, usize)> {
    entries.map_values(|e: (AniRef, AniRef)| (e.0.handle, e.1.handle))
}

/// Property names, as character sequences, with their handles.
pub open spec fn props_of(p: Seq<(String, usize)>) -> Seq<(Seq<char>, usize)> {
    p.map_values(|e: (String, usize)| (e.0@, e.1))
}

pub open spec fn props_of_refs(p: Seq<(String, AniRef)>) -> Seq<(Seq<char>, usize)> {
    p.map_values(|e: (String, AniRef)| (e.0@, e.1.handle))
}

} // verus!
