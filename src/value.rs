//! The two value models and their mathematical views.
use vstd::prelude::*;

verus! {

broadcast use vstd::std_specs::vec::axiom_vec_index_decreases;

/// A key of a script table, as far as conversion needs to read it.
pub enum LuaKey {
    /// An integer key.
    Int(i64),
    /// A string key whose bytes are valid text.
    Text(String),
    /// A string key whose bytes do not decode as text.
    Bytes(Vec<u8>),
    /// Any other key kind, carried as the runtime's diagnostic rendering of it.
    Other(String),
}

/// A dynamic script value: nil, boolean, integer, float, string or table.
pub enum LuaValue {
    Nil,
    Boolean(bool),
    Integer(i64),
    /// A float, held as its IEEE-754 binary64 bit pattern.
    Number(u64),
    /// A string whose bytes are valid text.
    Text(String),
    /// A string whose bytes do not decode as text.
    Bytes(Vec<u8>),
    /// A table, as its entries in the runtime's iteration order. A table never
    /// holds a nil value.
    Table(Vec<(LuaKey, LuaValue)>),
    /// A value of a kind that has no structured counterpart (function, userdata,
    /// thread), carried as the runtime's diagnostic rendering of it.
    Opaque(String),
}

/// A structured (JSON) value.
pub enum JsonValue {
    Null,
    Bool(bool),
    /// A number that is an integer in the range of `i64`.
    Int(i64),
    /// Any other number, held as the IEEE-754 binary64 bit pattern of a finite float.
    Float(u64),
    String(String),
    Array(Vec<JsonValue>),
    /// An object, as its members in insertion order.
    Object(Vec<(String, JsonValue)>),
}

/// The mathematical value of a `LuaKey`.
pub enum KeyModel {
    Int(i64),
    Text(Seq<char>),
    Bytes(Seq<u8>),
    Other(Seq<char>),
}

/// The mathematical value of a `LuaValue`: strings as character or byte
/// sequences, a table as its sequence of (key, value) entries.
pub enum LuaModel {
    Nil,
    Boolean(bool),
    Integer(i64),
    Number(u64),
    Text(Seq<char>),
    Bytes(Seq<u8>),
    Table(Seq<(KeyModel, LuaModel)>),
    Opaque(Seq<char>),
}

/// The mathematical value of a `JsonValue`: arrays as sequences, objects as
/// sequences of (name, value) members.
pub enum JsonModel {
    Null,
    Bool(bool),
    Int(i64),
    Float(u64),
    Str(Seq<char>),
    Array(Seq<JsonModel>),
    Object(Seq<(Seq<char>, JsonModel)>),
}

impl View for LuaKey {
    type V = KeyModel;

    open spec fn view(&self) -> KeyModel {
        match self {
            LuaKey::Int(i) => KeyModel::Int(*i),
            LuaKey::Text(s) => KeyModel::Text(s@),
            LuaKey::Bytes(b) => KeyModel::Bytes(b@),
            LuaKey::Other(s) => KeyModel::Other(s@),
        }
    }
}

impl LuaValue {
    /// The mathematical value of this dynamic value.
    pub open spec fn model(&self) -> LuaModel
        decreases self,
    {
        match self {
            LuaValue::Nil => LuaModel::Nil,
            LuaValue::Boolean(b) => LuaModel::Boolean(*b),
            LuaValue::Integer(i) => LuaModel::Integer(*i),
            LuaValue::Number(bits) => LuaModel::Number(*bits),
            LuaValue::Text(s) => LuaModel::Text(s@),
            LuaValue::Bytes(b) => LuaModel::Bytes(b@),
            LuaValue::Table(es) => LuaModel::Table(
                Seq::new(
                    es.len() as nat,
                    |i: int|
                        if 0 <= i < es.len() {
                            (es[i].0@, es[i].1.model())
                        } else {
                            (KeyModel::Int(0), LuaModel::Nil)
                        },
                ),
            ),
            LuaValue::Opaque(s) => LuaModel::Opaque(s@),
        }
    }
}

impl JsonValue {
    /// The mathematical value of this structured value.
    pub open spec fn model(&self) -> JsonModel
        decreases self,
    {
        match self {
            JsonValue::Null => JsonModel::Null,
            JsonValue::Bool(b) => JsonModel::Bool(*b),
            JsonValue::Int(i) => JsonModel::Int(*i),
            JsonValue::Float(bits) => JsonModel::Float(*bits),
            JsonValue::String(s) => JsonModel::Str(s@),
            JsonValue::Array(a) => JsonModel::Array(
                Seq::new(
                    a.len() as nat,
                    |i: int|
                        if 0 <= i < a.len() {
                            a[i].model()
                        } else {
                            JsonModel::Null
                        },
                ),
            ),
            JsonValue::Object(o) => JsonModel::Object(
                Seq::new(
                    o.len() as nat,
                    |i: int|
                        if 0 <= i < o.len() {
                            (o[i].0@, o[i].1.model())
                        } else {
                            (Seq::empty(), JsonModel::Null)
                        },
                ),
            ),
        }
    }
}

/// True when a binary64 bit pattern encodes a finite number (its exponent field
/// is not all ones).
pub open spec fn is_finite_bits(bits: u64) -> bool {
    (bits >> 52u64) & 0x7ffu64 != 0x7ffu64
}

/// The position of the first member named `k`, or -1 when there is none.
pub open spec fn member_index(o: Seq<(Seq<char>, JsonModel)>, k: Seq<char>) -> int
    decreases o.len(),
{
    if o.len() == 0 {
        -1
    } else if o[0].0 == k {
        0
    } else {
        let r = member_index(o.drop_first(), k);
        if r < 0 { -1 } else { r + 1 }
    }
}

/// No two members of an object share a name.
pub open spec fn unique_names(o: Seq<(Seq<char>, JsonModel)>) -> bool {
    forall|i: int, j: int| 0 <= i < j < o.len() ==> o[i].0 != o[j].0
}

impl JsonModel {
    /// A structured value as the exchange format admits it: every float finite,
    /// member names unique within each object, and every array short enough to
    /// be indexed by script integers.
    pub open spec fn wf(self) -> bool
        decreases self,
    {
        match self {
            JsonModel::Float(bits) => is_finite_bits(bits),
            JsonModel::Array(a) => a.len() < i64::MAX && forall|i: int|
                0 <= i < a.len() ==> (#[trigger] a[i]).wf(),
            JsonModel::Object(o) => unique_names(o) && forall|i: int|
                0 <= i < o.len() ==> (#[trigger] o[i]).1.wf(),
            _ => true,
        }
    }
}

} // verus!
