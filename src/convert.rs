//! The conversions between an enumeration's values and its integers.
use crate::repr::Repr;
use crate::schema::{EnumDecl, Schema, SchemaError, SchemaView};
use vstd::prelude::*;

verus! {

/// What the fallible conversions return when no variant takes an integer.
#[derive(Clone, Copy, Debug, PartialEq, Eq, Structural)]
pub struct UnknownVariantError {}

impl UnknownVariantError {
    pub fn message(&self) -> (r: String)
        ensures
            r@ == "unknown variant"@,
    {
        String::from_str("unknown variant")
    }
}

/// A value of the enumeration: the normal variant at an index (declaration
/// order among the normal variants), or the catch-all holding a bit pattern.
#[derive(Clone, Copy, Debug, PartialEq, Eq, Structural)]
pub enum Value {
    Normal(usize),
    CatchAll(u128),
}

/// The lookup table behind the conversions: one realized discriminant per
/// normal variant, computed once.
#[derive(Debug)]
pub struct Table {
    repr: Repr,
    keys: Vec<u128>,
    names: Vec<String>,
    catch_all: Option<String>,
}

pub ghost struct TableView {
    pub repr: Repr,
    pub keys: Seq<u128>,
    pub names: Seq<Seq<char>>,
    pub catch_all: Option<Seq<char>>,
}

/// `i` is the first normal variant whose discriminant is `raw`.
pub open spec fn first_match(keys: Seq<u128>, raw: u128, i: int) -> bool {
    0 <= i < keys.len() && keys[i] == raw && forall|j: int| 0 <= j < i ==> keys[j] != raw
}

/// No normal variant has the discriminant `raw`.
pub open spec fn no_match(keys: Seq<u128>, raw: u128) -> bool {
    forall|j: int| 0 <= j < keys.len() ==> keys[j] != raw
}

/// The table a schema gives.
pub open spec fn table_of(t: TableView, s: SchemaView) -> bool {
    &&& t.repr == s.repr
    &&& t.keys.len() == s.normals.len()
    &&& t.names.len() == s.normals.len()
    &&& forall|i: int|
        0 <= i < t.keys.len() ==> t.keys[i] as int == (#[trigger] s.normals[i]).1.value(s.repr)
            && t.names[i] == s.normals[i].0
    &&& t.catch_all == s.unknown
}

impl TableView {
    /// Every discriminant is a value of the representation.
    pub open spec fn wf(self) -> bool {
        forall|k: int| 0 <= k < self.keys.len() ==> self.repr.holds(#[trigger] self.keys[k])
    }

    /// A value that can be constructed for this enumeration.
    pub open spec fn valid(self, v: Value) -> bool {
        match v {
            Value::Normal(i) => i < self.keys.len(),
            Value::CatchAll(x) => self.catch_all is Some && self.repr.holds(x),
        }
    }

    /// The integer a valid value converts to.
    pub open spec fn int_of(self, v: Value) -> u128 {
        match v {
            Value::Normal(i) => self.keys[i as int],
            Value::CatchAll(x) => x,
        }
    }

    /// The value an integer converts to, where one exists.
    pub open spec fn value_of(self, raw: u128, v: Value) -> bool {
        match v {
            Value::Normal(i) => first_match(self.keys, raw, i as int),
            Value::CatchAll(x) => x == raw && no_match(self.keys, raw) && self.catch_all is Some
                && self.repr.holds(raw),
        }
    }
}

impl Table {
    pub closed spec fn view(&self) -> TableView {
        TableView {
            repr: self.repr,
            keys: self.keys@,
            names: self.names@.map_values(|n: String| n@),
            catch_all: crate::schema::opt_view(&self.catch_all),
        }
    }

    /// Realizes every discriminant of the schema once.
    pub fn new(schema: Schema) -> (r: Table)
        ensures
            table_of(r@, schema@),
            r@.wf(),
    {
        let repr = schema.repr;
        let ghost sv = schema@;
        let mut keys: Vec<u128> = Vec::new();
        let mut names: Vec<String> = Vec::new();
        let n = schema.normals.len();
        let mut i: usize = 0;
        while i < n
            invariant
                n == schema.normals@.len(),
                sv == schema@,
                repr == schema.repr,
                i <= n,
                keys@.len() == i,
                names@.len() == i,
                forall|j: int|
                    0 <= j < i ==> keys@[j] as int == (#[trigger] sv.normals[j]).1.value(repr)
                        && names@[j]@ == sv.normals[j].0,
                forall|j: int| 0 <= j < i ==> repr.holds(#[trigger] keys@[j]),
            decreases n - i,
        {
            let nv = &schema.normals[i];
            proof {
                crate::repr::lemma_range(repr, nv.disc.value(repr));
                assert(sv.normals[i as int].1 == nv.disc);
                assert(repr.holds(nv.disc.value(repr) as u128));
            }
            keys.push(nv.disc.realize(repr));
            names.push(nv.name.clone());
            i = i + 1;
        }
        let r = Table { repr, keys, names, catch_all: schema.unknown };
        assert(r@.names.len() == n);
        assert forall|j: int| 0 <= j < n implies r@.names[j] == sv.normals[j].0 by {}
        r
    }

    pub fn repr(&self) -> (r: Repr)
        ensures
            r == self@.repr,
    {
        self.repr
    }

    /// The first normal variant whose discriminant is `raw`.
    pub fn lookup(&self, raw: u128) -> (r: Option<usize>)
        ensures
            match r {
                Some(i) => first_match(self@.keys, raw, i as int),
                None => no_match(self@.keys, raw),
            },
    {
        let mut i: usize = 0;
        while i < self.keys.len()
            invariant
                i <= self.keys@.len(),
                forall|j: int| 0 <= j < i ==> self.keys@[j] != raw,
            decreases self.keys@.len() - i,
        {
            if self.keys[i] == raw {
                return Some(i);
            }
            i = i + 1;
        }
        None
    }

    /// The normal variant of the given name.
    pub fn variant(&self, name: &str) -> (r: Option<Value>)
        ensures
            match r {
                Some(v) => v matches Value::Normal(i) && i < self@.names.len() && self@.names[i as int]
                    == name@ && forall|j: int| 0 <= j < i ==> self@.names[j] != name@,
                None => forall|j: int| 0 <= j < self@.names.len() ==> self@.names[j] != name@,
            },
    {
        let mut i: usize = 0;
        while i < self.names.len()
            invariant
                i <= self.names@.len(),
                forall|j: int| 0 <= j < i ==> self@.names[j] != name@,
            decreases self.names@.len() - i,
        {
            if crate::repr::same_text(self.names[i].as_str(), name) {
                return Some(Value::Normal(i));
            }
            i = i + 1;
        }
        None
    }

    /// Strict conversion from an integer.
    pub fn from_int(&self, raw: u128) -> (r: Value)
        requires
            self@.repr.holds(raw),
            !no_match(self@.keys, raw) || self@.catch_all is Some,
        ensures
            self@.value_of(raw, r),
    {
        match self.lookup(raw) {
            Some(i) => Value::Normal(i),
            None => Value::CatchAll(raw),
        }
    }

    /// Fallible conversion from an integer.
    pub fn try_from_int(&self, raw: u128) -> (r: Result<Value, UnknownVariantError>)
        ensures
            match r {
                Ok(v) => self@.value_of(raw, v),
                Err(_) => no_match(self@.keys, raw) && (self@.catch_all is None || !self@.repr.holds(
                    raw,
                )),
            },
    {
        match self.lookup(raw) {
            Some(i) => Ok(Value::Normal(i)),
            None => if self.catch_all.is_some() && self.repr.contains(raw) {
                Ok(Value::CatchAll(raw))
            } else {
                Err(UnknownVariantError {  })
            },
        }
    }

    /// Strict conversion to an integer.
    pub fn to_int(&self, v: Value) -> (r: u128)
        requires
            self@.valid(v),
        ensures
            r == self@.int_of(v),
    {
        match v {
            Value::Normal(i) => self.keys[i],
            Value::CatchAll(x) => x,
        }
    }

    /// Fallible conversion to an integer.
    pub fn try_to_int(&self, v: Value) -> (r: Result<u128, UnknownVariantError>)
        ensures
            self@.valid(v) ==> r == Ok::<u128, UnknownVariantError>(self@.int_of(v)),
            !self@.valid(v) ==> r is Err,
    {
        match v {
            Value::Normal(i) => if i < self.keys.len() {
                Ok(self.keys[i])
            } else {
                Err(UnknownVariantError {  })
            },
            Value::CatchAll(x) => if self.catch_all.is_some() && self.repr.contains(x) {
                Ok(x)
            } else {
                Err(UnknownVariantError {  })
            },
        }
    }
}

/// The strict conversions: every integer of the representation maps to a
/// value, where a catch-all exists.
#[derive(Debug)]
pub struct EnumConvert {
    pub table: Table,
}

/// The fallible conversions.
#[derive(Debug)]
pub struct EnumTryConvert {
    pub table: Table,
}

impl EnumConvert {
    pub fn from_int(&self, raw: u128) -> (r: Value)
        requires
            self.table@.repr.holds(raw),
            !no_match(self.table@.keys, raw) || self.table@.catch_all is Some,
        ensures
            self.table@.value_of(raw, r),
    {
        self.table.from_int(raw)
    }

    pub fn to_int(&self, v: Value) -> (r: u128)
        requires
            self.table@.valid(v),
        ensures
            r == self.table@.int_of(v),
    {
        self.table.to_int(v)
    }
}

impl EnumTryConvert {
    pub fn try_from_int(&self, raw: u128) -> (r: Result<Value, UnknownVariantError>)
        ensures
            match r {
                Ok(v) => self.table@.value_of(raw, v),
                Err(_) => no_match(self.table@.keys, raw) && (self.table@.catch_all is None
                    || !self.table@.repr.holds(raw)),
            },
    {
        self.table.try_from_int(raw)
    }

    pub fn try_to_int(&self, v: Value) -> (r: Result<u128, UnknownVariantError>)
        ensures
            self.table@.valid(v) ==> r == Ok::<u128, UnknownVariantError>(self.table@.int_of(v)),
            !self.table@.valid(v) ==> r is Err,
    {
        self.table.try_to_int(v)
    }
}

/// A normal variant that no earlier variant shares its discriminant with
/// converts to an integer of the representation, and that integer converts
/// back to the same variant.
pub proof fn lemma_round_trip(t: TableView, i: usize)
    requires
        t.wf(),
        t.valid(Value::Normal(i)),
        forall|j: int| 0 <= j < i ==> t.keys[j] != t.keys[i as int],
    ensures
        t.repr.holds(t.int_of(Value::Normal(i))),
        !no_match(t.keys, t.int_of(Value::Normal(i))),
        forall|v: Value| t.value_of(t.int_of(Value::Normal(i)), v) ==> v == Value::Normal(i),
{
    let raw = t.keys[i as int];
    assert(t.repr.holds(t.keys[i as int]));
    assert forall|v: Value| t.value_of(raw, v) implies v == Value::Normal(i) by {
        if let Value::Normal(m) = v {
            if m < i {
                assert(t.keys[m as int] != raw);
            } else if m > i {
                assert(t.keys[i as int] != raw);
            }
        }
    }
}

/// With a catch-all, an integer of the representation that no normal
/// variant has converts to a value that converts back to that integer.
pub proof fn lemma_catch_all_lossless(t: TableView, raw: u128)
    requires
        t.catch_all is Some,
        t.repr.holds(raw),
        no_match(t.keys, raw),
    ensures
        forall|v: Value| t.value_of(raw, v) ==> t.valid(v) && t.int_of(v) == raw,
        t.value_of(raw, Value::CatchAll(raw)),
{
}

/// Without a catch-all, an integer that no normal variant has converts to
/// no value: the fallible conversion reports it, and the strict one may not
/// be called on it.
pub proof fn lemma_no_catch_all(t: TableView, raw: u128)
    requires
        t.catch_all is None,
        no_match(t.keys, raw),
    ensures
        forall|v: Value| !t.value_of(raw, v),
        !(!no_match(t.keys, raw) || t.catch_all is Some),
{
}

/// Builds the strict conversions of a declared enumeration.
pub fn derive_enum_convert(decl: &EnumDecl) -> (r: Result<EnumConvert, SchemaError>)
    ensures
        match r {
            Ok(c) => decl.build_view() matches Ok(s) && table_of(c.table@, s) && c.table@.wf(),
            Err(e) => decl.build_view() == Err::<SchemaView, SchemaError>(e),
        },
{
    match Schema::new(decl) {
        Ok(s) => Ok(EnumConvert { table: Table::new(s) }),
        Err(e) => Err(e),
    }
}

/// Builds the fallible conversions of a declared enumeration.
pub fn derive_enum_try_convert(decl: &EnumDecl) -> (r: Result<EnumTryConvert, SchemaError>)
    ensures
        match r {
            Ok(c) => decl.build_view() matches Ok(s) && table_of(c.table@, s) && c.table@.wf(),
            Err(e) => decl.build_view() == Err::<SchemaView, SchemaError>(e),
        },
{
    match Schema::new(decl) {
        Ok(s) => Ok(EnumTryConvert { table: Table::new(s) }),
        Err(e) => Err(e),
    }
}

} // verus!
