//! Conversion between dynamic script values and structured values.
use vstd::prelude::*;
use vstd::arithmetic::div_mod::lemma_small_mod;
use vstd::arithmetic::power2::{
    lemma2_to64, lemma2_to64_rest, lemma_pow2_pos, lemma_pow2_strictly_increases, pow2,
};
use vstd::bits::{lemma_u64_pow2_no_overflow, lemma_u64_shl_is_mul};
use crate::value::{is_finite_bits, member_index, unique_names, JsonModel, JsonValue, KeyModel, LuaKey, LuaModel, LuaValue};

verus! {

broadcast use vstd::std_specs::vec::axiom_vec_index_decreases;

/// Why a dynamic value has no structured counterpart.
pub enum ConversionError {
    /// A string (a value or a table key) whose bytes do not decode as text.
    InvalidText,
}

pub open spec fn digit_char(d: int) -> char {
    if d == 0 { '0' }
    else if d == 1 { '1' }
    else if d == 2 { '2' }
    else if d == 3 { '3' }
    else if d == 4 { '4' }
    else if d == 5 { '5' }
    else if d == 6 { '6' }
    else if d == 7 { '7' }
    else if d == 8 { '8' }
    else { '9' }
}

/// The decimal digits of a natural number, most significant first.
pub open spec fn digits(n: nat) -> Seq<char>
    decreases n,
{
    if n < 10 {
        seq![digit_char(n as int)]
    } else {
        digits(n / 10).push(digit_char((n % 10) as int))
    }
}

/// The decimal rendering of an integer, with a leading '-' when negative.
pub open spec fn decimal(i: int) -> Seq<char> {
    if i < 0 {
        seq!['-'] + digits((-i) as nat)
    } else {
        digits(i as nat)
    }
}

/// Relies on `ToString` for `i64` (its `Display`): the decimal rendering.
#[verifier::external_body]
fn decimal_text(i: i64) -> (r: String)
    ensures
        r@ == decimal(i as int),
{
    i.to_string()
}

/// A positive integer key: the only key kind an array-like table may hold.
pub open spec fn is_position(k: KeyModel) -> bool {
    match k {
        KeyModel::Int(i) => i > 0,
        _ => false,
    }
}

/// A table is array-like iff it is non-empty and every key is a positive integer.
pub open spec fn array_like(es: Seq<(KeyModel, LuaModel)>) -> bool {
    es.len() > 0 && forall|i: int| 0 <= i < es.len() ==> is_position(#[trigger] es[i].0)
}

/// The largest integer key of a table (0 when it has none above 0).
pub open spec fn max_key(es: Seq<(KeyModel, LuaModel)>) -> i64
    decreases es.len(),
{
    if es.len() == 0 {
        0
    } else {
        let m = max_key(es.drop_last());
        match es.last().0 {
            KeyModel::Int(k) => if k > m { k } else { m },
            _ => m,
        }
    }
}

/// The position of the last entry with integer key `k`, or -1 when there is none.
pub open spec fn last_key_index(es: Seq<(KeyModel, LuaModel)>, k: i64) -> int
    decreases es.len(),
{
    if es.len() == 0 {
        -1
    } else if es.last().0 == KeyModel::Int(k) {
        es.len() - 1
    } else {
        last_key_index(es.drop_last(), k)
    }
}

/// The member name an object-like table gives to a key.
pub open spec fn key_text(k: KeyModel) -> Seq<char> {
    match k {
        KeyModel::Int(i) => decimal(i as int),
        KeyModel::Text(s) => s,
        KeyModel::Other(s) => s,
        KeyModel::Bytes(_) => Seq::empty(),
    }
}

/// The value of a successful conversion; null stands in for a failed one.
pub open spec fn ok_or_null(r: Result<JsonModel, ConversionError>) -> JsonModel {
    match r {
        Ok(j) => j,
        Err(_) => JsonModel::Null,
    }
}

/// Sets member `k` to `v`: in place when the name is present, else appended.
pub open spec fn insert_member(
    o: Seq<(Seq<char>, JsonModel)>,
    k: Seq<char>,
    v: JsonModel,
) -> Seq<(Seq<char>, JsonModel)> {
    let i = member_index(o, k);
    if i < 0 {
        o.push((k, v))
    } else {
        o.update(i, (k, v))
    }
}

/// The object built by inserting the pairs in order; a later pair with a name
/// already present overwrites the earlier value.
pub open spec fn members_of(ps: Seq<(Seq<char>, JsonModel)>) -> Seq<(Seq<char>, JsonModel)>
    decreases ps.len(),
{
    if ps.len() == 0 {
        Seq::empty()
    } else {
        insert_member(members_of(ps.drop_last()), ps.last().0, ps.last().1)
    }
}

/// Some entry of the table has a key or a value without a structured counterpart.
pub open spec fn table_fails(es: Seq<(KeyModel, LuaModel)>) -> bool
    decreases es, 0nat,
{
    exists|i: int|
        0 <= i < es.len() && ((#[trigger] es[i]).0 is Bytes || to_json(es[i].1) is Err)
}

/// The structured value of a dynamic value.
pub open spec fn to_json(v: LuaModel) -> Result<JsonModel, ConversionError>
    decreases v, 2nat,
{
    match v {
        LuaModel::Nil => Ok(JsonModel::Null),
        LuaModel::Boolean(b) => Ok(JsonModel::Bool(b)),
        LuaModel::Integer(i) => Ok(JsonModel::Int(i)),
        LuaModel::Number(bits) => Ok(
            JsonModel::Float(if is_finite_bits(bits) { bits } else { 0 }),
        ),
        LuaModel::Text(s) => Ok(JsonModel::Str(s)),
        LuaModel::Bytes(_) => Err(ConversionError::InvalidText),
        LuaModel::Opaque(_) => Ok(JsonModel::Null),
        LuaModel::Table(es) => if table_fails(es) {
            Err(ConversionError::InvalidText)
        } else if array_like(es) {
            Ok(JsonModel::Array(array_slots(es)))
        } else {
            Ok(JsonModel::Object(members_of(table_pairs(es))))
        },
    }
}

/// Slot `p` of the array of an array-like table: the value under key `p + 1`
/// (the last such entry), or null where the table has no such key.
pub open spec fn slot(es: Seq<(KeyModel, LuaModel)>, p: int) -> JsonModel
    decreases es, 0nat,
{
    let j = last_key_index(es, (p + 1) as i64);
    if 0 <= j < es.len() {
        ok_or_null(to_json(es[j].1))
    } else {
        JsonModel::Null
    }
}

/// The array of an array-like table, one slot for each position up to the
/// largest key.
pub open spec fn array_slots(es: Seq<(KeyModel, LuaModel)>) -> Seq<JsonModel>
    decreases es, 1nat,
{
    Seq::new(max_key(es) as nat, |p: int| slot(es, p))
}

/// The (name, value) pairs of an object-like table, in iteration order.
pub open spec fn table_pairs(es: Seq<(KeyModel, LuaModel)>) -> Seq<(Seq<char>, JsonModel)>
    decreases es, 0nat,
{
    Seq::new(
        es.len(),
        |i: int|
            if 0 <= i < es.len() {
                (key_text(es[i].0), ok_or_null(to_json(es[i].1)))
            } else {
                (Seq::empty(), JsonModel::Null)
            },
    )
}

pub open spec fn entries_model(s: Seq<(LuaKey, LuaValue)>) -> Seq<(KeyModel, LuaModel)> {
    Seq::new(s.len(), |i: int| (s[i].0@, s[i].1.model()))
}

pub open spec fn members_model(o: Seq<(String, JsonValue)>) -> Seq<(Seq<char>, JsonModel)> {
    Seq::new(o.len(), |i: int| (o[i].0@, o[i].1.model()))
}

pub open spec fn result_model(r: Result<JsonValue, ConversionError>) -> Result<
    JsonModel,
    ConversionError,
> {
    match r {
        Ok(j) => Ok(j.model()),
        Err(e) => Err(e),
    }
}

proof fn lemma_member_index(o: Seq<(Seq<char>, JsonModel)>, k: Seq<char>)
    ensures
        member_index(o, k) < o.len(),
        member_index(o, k) >= 0 ==> o[member_index(o, k)].0 == k,
        forall|j: int|
            0 <= j < o.len() && (j < member_index(o, k) || member_index(o, k) < 0) ==> (
            #[trigger] o[j]).0 != k,
    decreases o.len(),
{
    if o.len() > 0 {
        lemma_member_index(o.drop_first(), k);
        assert forall|j: int|
            1 <= j < o.len() implies o[j] == o.drop_first()[j - 1] by {}
    }
}

proof fn lemma_max_key(es: Seq<(KeyModel, LuaModel)>)
    ensures
        max_key(es) >= 0,
        forall|i: int|
            0 <= i < es.len() && (#[trigger] es[i].0) is Int ==> es[i].0->Int_0 <= max_key(es),
    decreases es.len(),
{
    if es.len() > 0 {
        lemma_max_key(es.drop_last());
        assert forall|i: int| 0 <= i < es.len() - 1 implies es[i] == es.drop_last()[i] by {}
    }
}

proof fn lemma_last_key_index(es: Seq<(KeyModel, LuaModel)>, k: i64)
    ensures
        -1 <= last_key_index(es, k) < es.len(),
        last_key_index(es, k) >= 0 ==> es[last_key_index(es, k)].0 == KeyModel::Int(k),
        forall|i: int|
            0 <= i < es.len() && (#[trigger] es[i]).0 == KeyModel::Int(k) ==> i <= last_key_index(
                es,
                k,
            ),
    decreases es.len(),
{
    if es.len() > 0 {
        lemma_last_key_index(es.drop_last(), k);
        assert forall|i: int| 0 <= i < es.len() - 1 implies es[i] == es.drop_last()[i] by {}
    }
}

/// Sets member `k` of an object to `v`, in place when the name is present.
fn put_member(o: &mut Vec<(String, JsonValue)>, k: String, v: JsonValue)
    ensures
        members_model(final(o)@) == insert_member(members_model(old(o)@), k@, v.model()),
{
    let ghost m = members_model(o@);
    proof {
        lemma_member_index(m, k@);
    }
    let mut i: usize = 0;
    while i < o.len()
        invariant
            i <= o.len(),
            m == members_model(o@),
            m == members_model(old(o)@),
            forall|j: int| 0 <= j < i ==> o@[j].0@ != k@,
        decreases o.len() - i,
    {
        proof {
            lemma_member_index(m, k@);
        }
        assert(m[i as int].0 == o@[i as int].0@);
        if o[i].0 == k {
            assert(m[i as int].0 == k@);
            assert forall|j: int| 0 <= j < i implies m[j].0 != k@ by {
                assert(m[j].0 == o@[j].0@);
            }
            proof {
                let mi = member_index(m, k@);
                if mi < 0 {
                    assert(m[i as int].0 != k@);
                } else if mi < i {
                    assert(m[mi].0 != k@);
                } else if mi > i {
                    assert(m[i as int].0 != k@);
                }
            }
            assert(member_index(m, k@) == i);
            let ghost vm = v.model();
            o.set(i, (k, v));
            assert(members_model(o@) =~= m.update(i as int, (k@, vm)));
            return ;
        }
        i += 1;
    }
    assert forall|j: int| 0 <= j < m.len() implies m[j].0 != k@ by {
        assert(m[j].0 == o@[j].0@);
    }
    assert(member_index(m, k@) < 0);
    let ghost vm = v.model();
    let ghost km = k@;
    o.push((k, v));
    assert(members_model(o@) =~= m.push((km, vm)));
}

/// Converts a dynamic value to its structured counterpart: nil to null, a float
/// that is not finite to zero, a table to an array when it is array-like and to
/// an object otherwise. Fails only on a string that is not valid text.
pub fn lua_value_to_json(value: &LuaValue) -> (r: Result<JsonValue, ConversionError>)
    ensures
        result_model(r) == to_json(value.model()),
    decreases value, 2nat,
{
    match value {
        LuaValue::Nil => Ok(JsonValue::Null),
        LuaValue::Boolean(b) => Ok(JsonValue::Bool(*b)),
        LuaValue::Integer(i) => Ok(JsonValue::Int(*i)),
        LuaValue::Number(bits) => {
            if (*bits >> 52u64) & 0x7ffu64 != 0x7ffu64 {
                Ok(JsonValue::Float(*bits))
            } else {
                Ok(JsonValue::Float(0))
            }
        },
        LuaValue::Text(s) => Ok(JsonValue::String(s.clone())),
        LuaValue::Bytes(_) => Err(ConversionError::InvalidText),
        LuaValue::Opaque(_) => Ok(JsonValue::Null),
        LuaValue::Table(es) => {
            assert(value.model()->Table_0 =~= entries_model(es@));
            table_to_json(es)
        },
    }
}

fn table_to_json(es: &Vec<(LuaKey, LuaValue)>) -> (r: Result<JsonValue, ConversionError>)
    ensures
        result_model(r) == to_json(LuaModel::Table(entries_model(es@))),
    decreases es, 1nat,
{
    let ghost ms = entries_model(es@);
    let mut positional: bool = true;
    let mut max: i64 = 0;
    let mut i: usize = 0;
    while i < es.len()
        invariant
            i <= es.len(),
            ms == entries_model(es@),
            positional == (forall|j: int| 0 <= j < i ==> is_position(#[trigger] ms[j].0)),
            max == max_key(ms.take(i as int)),
        decreases es.len() - i,
    {
        assert(ms.take(i + 1).drop_last() =~= ms.take(i as int));
        match &es[i].0 {
            LuaKey::Int(k) => {
                if *k <= 0 {
                    positional = false;
                }
                if *k > max {
                    max = *k;
                }
            },
            _ => {
                positional = false;
            },
        }
        i += 1;
    }
    assert(ms.take(es.len() as int) =~= ms);
    if positional && es.len() > 0 {
        array_from(es, max)
    } else {
        object_from(es)
    }
}

fn array_from(es: &Vec<(LuaKey, LuaValue)>, max: i64) -> (r: Result<JsonValue, ConversionError>)
    requires
        array_like(entries_model(es@)),
        max == max_key(entries_model(es@)),
    ensures
        result_model(r) == (if table_fails(entries_model(es@)) {
            Err(ConversionError::InvalidText)
        } else {
            Ok(JsonModel::Array(array_slots(entries_model(es@))))
        }),
    decreases es, 0nat,
{
    let ghost ms = entries_model(es@);
    proof {
        lemma_max_key(ms);
    }
    let mut arr: Vec<JsonValue> = Vec::new();
    let mut filled: i64 = 0;
    while filled < max
        invariant
            0 <= filled <= max,
            arr.len() == filled,
            forall|p: int| 0 <= p < arr.len() ==> (#[trigger] arr@[p]).model() == JsonModel::Null,
        decreases max - filled,
    {
        arr.push(JsonValue::Null);
        filled += 1;
    }
    let ghost n = max as int;
    let mut i: usize = 0;
    while i < es.len()
        invariant
            i <= es.len(),
            arr.len() == n,
            n == max_key(ms),
            max == max_key(ms),
            ms == entries_model(es@),
            array_like(ms),
            forall|j: int| 0 <= j < i ==> to_json(#[trigger] ms[j].1) is Ok,
            forall|p: int| 0 <= p < n ==> (#[trigger] arr@[p]).model() == slot(ms.take(i as int), p),
        decreases es.len() - i,
    {
        assert(is_position(ms[i as int].0));
        assert(ms[i as int].0 == es@[i as int].0@);
        let k = match &es[i].0 {
            LuaKey::Int(k) => *k,
            _ => 0,
        };
        assert(ms[i as int].0 == KeyModel::Int(k));
        proof {
            lemma_max_key(ms);
        }
        assert(0 < k <= max);
        let conv = lua_value_to_json(&es[i].1);
        match conv {
            Err(e) => {
                assert(table_fails(ms)) by {
                    assert(to_json(ms[i as int].1) is Err);
                }
                return Err(e);
            },
            Ok(j) => {
                let ghost jm = j.model();
                let ghost prev = arr@;
                arr.set((k - 1) as usize, j);
                assert forall|p: int| 0 <= p < n implies (#[trigger] arr@[p]).model() == slot(
                    ms.take(i + 1),
                    p,
                ) by {
                    let t1 = ms.take(i + 1);
                    let t0 = ms.take(i as int);
                    assert(t1.drop_last() =~= t0);
                    assert(t1.last() == ms[i as int]);
                    assert(ms[i as int].1 == es@[i as int].1.model());
                    let q = (p + 1) as i64;
                    if p == k - 1 {
                        assert(last_key_index(t1, q) == i);
                        assert(slot(t1, p) == ok_or_null(to_json(ms[i as int].1)));
                    } else {
                        assert(last_key_index(t1, q) == last_key_index(t0, q));
                        lemma_last_key_index(t0, q);
                        let jx = last_key_index(t0, q);
                        if 0 <= jx < t0.len() {
                            assert(t1[jx] == t0[jx]);
                        }
                        assert(slot(t1, p) == slot(t0, p));
                    }
                    if p != k - 1 {
                        assert(arr@[p] == prev[p]);
                    }
                }
            },
        }
        i += 1;
    }
    assert(ms.take(es.len() as int) =~= ms);
    assert(!table_fails(ms));
    let r = JsonValue::Array(arr);
    assert(r.model()->Array_0 =~= array_slots(ms));
    Ok(r)
}

fn object_from(es: &Vec<(LuaKey, LuaValue)>) -> (r: Result<JsonValue, ConversionError>)
    ensures
        result_model(r) == (if table_fails(entries_model(es@)) {
            Err(ConversionError::InvalidText)
        } else {
            Ok(JsonModel::Object(members_of(table_pairs(entries_model(es@)))))
        }),
    decreases es, 0nat,
{
    let ghost ms = entries_model(es@);
    let ghost ps = table_pairs(ms);
    let mut obj: Vec<(String, JsonValue)> = Vec::new();
    let mut i: usize = 0;
    assert(ps.take(0) =~= Seq::<(Seq<char>, JsonModel)>::empty());
    assert(members_model(obj@) =~= Seq::<(Seq<char>, JsonModel)>::empty());
    while i < es.len()
        invariant
            i <= es.len(),
            ms == entries_model(es@),
            ps == table_pairs(ms),
            forall|j: int|
                0 <= j < i ==> !((#[trigger] ms[j]).0 is Bytes) && to_json(ms[j].1) is Ok,
            members_model(obj@) == members_of(ps.take(i as int)),
        decreases es.len() - i,
    {
        let key = match &es[i].0 {
            LuaKey::Int(k) => decimal_text(*k),
            LuaKey::Text(s) => s.clone(),
            LuaKey::Other(s) => s.clone(),
            LuaKey::Bytes(_) => {
                assert(table_fails(ms)) by {
                    assert(ms[i as int].0 is Bytes);
                }
                return Err(ConversionError::InvalidText);
            },
        };
        let conv = lua_value_to_json(&es[i].1);
        match conv {
            Err(e) => {
                assert(table_fails(ms)) by {
                    assert(to_json(ms[i as int].1) is Err);
                }
                return Err(e);
            },
            Ok(j) => {
                assert(ps.take(i + 1).drop_last() =~= ps.take(i as int));
                assert(ps.take(i + 1).last() == (key@, j.model()));
                put_member(&mut obj, key, j);
            },
        }
        i += 1;
    }
    assert(ps.take(es.len() as int) =~= ps);
    assert(!table_fails(ms));
    let r = JsonValue::Object(obj);
    assert(r.model()->Object_0 =~= members_model(obj@));
    Ok(r)
}

/// The integer that a binary64 bit pattern denotes, when it denotes an integer
/// in the range of `i64` (either zero gives 0), else `None`. The pattern is a
/// sign bit, an 11-bit biased exponent and a 52-bit fraction; a normal number is
/// `(2^52 + fraction) * 2^(exponent - 1075)`, a subnormal one lies strictly
/// between -1 and 1.
#[verifier::opaque]
pub open spec fn integral_i64_of(bits: u64) -> Option<i64> {
    let exp = ((bits >> 52u64) & 0x7ffu64) as int;
    let frac = (bits & 0xfffffffffffffu64) as int;
    if exp == 0 {
        if frac == 0 { Some(0) } else { None }
    } else if exp == 0x7ff {
        None
    } else {
        let m = frac + pow2(52);
        let mag: int = if exp >= 1075 {
            m * pow2((exp - 1075) as nat)
        } else if m % (pow2((1075 - exp) as nat) as int) == 0 {
            m / (pow2((1075 - exp) as nat) as int)
        } else {
            -1
        };
        let v: int = if bits >> 63u64 == 1 { -mag } else { mag };
        if mag >= 0 && i64::MIN <= v <= i64::MAX { Some(v as i64) } else { None }
    }
}

/// The dynamic value of a float: an integer when its value is one in the range
/// of `i64`, else the float itself.
pub open spec fn float_lua(bits: u64) -> LuaModel {
    match integral_i64_of(bits) {
        Some(i) => LuaModel::Integer(i),
        None => LuaModel::Number(bits),
    }
}

/// Computes `integral_i64_of` with integer arithmetic on the bit pattern.
pub fn integral_i64(bits: u64) -> (r: Option<i64>)
    ensures
        r == integral_i64_of(bits),
{
    reveal(integral_i64_of);
    let exp = (bits >> 52u64) & 0x7ffu64;
    let frac = bits & 0xfffffffffffffu64;
    if exp == 0 {
        return if frac == 0 { Some(0) } else { None };
    }
    if exp == 0x7ff {
        return None;
    }
    proof {
        lemma2_to64();
        lemma2_to64_rest();
        assert(frac < 0x10000000000000u64) by (bit_vector)
            requires frac == bits & 0xfffffffffffffu64;
        assert(exp <= 0x7ff) by (bit_vector)
            requires exp == (bits >> 52u64) & 0x7ffu64;
    }
    let m: u64 = frac + 0x10000000000000u64;
    let mag: u64;
    if exp >= 1075 {
        if exp > 1086 {
            proof {
                if exp > 1087 {
                    lemma_pow2_strictly_increases(12, (exp - 1075) as nat);
                }
                assert(pow2(12) == 4096);
                assert(m * pow2((exp - 1075) as nat) >= 0x10000000000000 * 4096) by (nonlinear_arith)
                    requires m >= 0x10000000000000, pow2((exp - 1075) as nat) >= 4096;
            }
            return None;
        }
        let k: u64 = exp - 1075;
        proof {
            lemma_u64_pow2_no_overflow(k as nat);
            if k < 11 {
                lemma_pow2_strictly_increases(k as nat, 11);
            }
            assert(pow2(11) == 2048);
            assert(1u64 * pow2(k as nat) <= u64::MAX);
            lemma_u64_shl_is_mul(1u64, k);
            assert(m * pow2(k as nat) < 0x20000000000000 * 2048) by (nonlinear_arith)
                requires m < 0x20000000000000, pow2(k as nat) <= 2048;
        }
        let p: u64 = 1u64 << k;
        mag = m * p;
    } else {
        let shift: u64 = 1075 - exp;
        if exp < 1023 {
            proof {
                if shift > 53 {
                    lemma_pow2_strictly_increases(53, shift as nat);
                }
                assert(pow2(53) == 0x20000000000000);
                lemma_small_mod(m as nat, pow2(shift as nat));
            }
            return None;
        }
        proof {
            lemma_u64_pow2_no_overflow(shift as nat);
            lemma_pow2_pos(shift as nat);
            lemma_u64_shl_is_mul(1u64, shift);
        }
        let p: u64 = 1u64 << shift;
        if m % p != 0 {
            return None;
        }
        mag = m / p;
    }
    if bits >> 63u64 == 1 {
        if mag > 0x8000000000000000u64 {
            None
        } else if mag == 0x8000000000000000u64 {
            Some(i64::MIN)
        } else {
            Some(-(mag as i64))
        }
    } else {
        if mag > 0x7fffffffffffffffu64 {
            None
        } else {
            Some(mag as i64)
        }
    }
}

fn float_to_lua(bits: u64) -> (r: LuaValue)
    ensures
        r.model() == float_lua(bits),
{
    match integral_i64(bits) {
        Some(i) => LuaValue::Integer(i),
        None => LuaValue::Number(bits),
    }
}

/// The entries of a table built by setting each pair in order: setting a key to
/// nil stores nothing, so nil-valued pairs leave no entry.
pub open spec fn without_nils(s: Seq<(KeyModel, LuaModel)>) -> Seq<(KeyModel, LuaModel)>
    decreases s.len(),
{
    if s.len() == 0 {
        s
    } else {
        let r = without_nils(s.drop_last());
        if s.last().1 is Nil {
            r
        } else {
            r.push(s.last())
        }
    }
}

/// The dynamic value of a structured value.
pub open spec fn to_lua(j: JsonModel) -> LuaModel
    decreases j, 1nat,
{
    match j {
        JsonModel::Null => LuaModel::Nil,
        JsonModel::Bool(b) => LuaModel::Boolean(b),
        JsonModel::Int(i) => LuaModel::Integer(i),
        JsonModel::Float(bits) => float_lua(bits),
        JsonModel::Str(s) => LuaModel::Text(s),
        JsonModel::Array(a) => LuaModel::Table(without_nils(array_pairs(a))),
        JsonModel::Object(o) => LuaModel::Table(without_nils(object_pairs(o))),
    }
}

/// An array's elements under the 1-based integer keys `1..n`, in order.
pub open spec fn array_pairs(a: Seq<JsonModel>) -> Seq<(KeyModel, LuaModel)>
    decreases a, 0nat,
{
    Seq::new(
        a.len(),
        |i: int|
            if 0 <= i < a.len() {
                (KeyModel::Int((i + 1) as i64), to_lua(a[i]))
            } else {
                (KeyModel::Int(0), LuaModel::Nil)
            },
    )
}

/// An object's members under their names as string keys, in order.
pub open spec fn object_pairs(o: Seq<(Seq<char>, JsonModel)>) -> Seq<(KeyModel, LuaModel)>
    decreases o, 0nat,
{
    Seq::new(
        o.len(),
        |i: int|
            if 0 <= i < o.len() {
                (KeyModel::Text(o[i].0), to_lua(o[i].1))
            } else {
                (KeyModel::Int(0), LuaModel::Nil)
            },
    )
}

fn array_to_table(a: &Vec<JsonValue>) -> (r: LuaValue)
    requires
        JsonValue::Array(*a).model().wf(),
    ensures
        r.model() == to_lua(JsonValue::Array(*a).model()),
    decreases a, 0nat,
{
    let ghost am = JsonValue::Array(*a).model()->Array_0;
    let ghost ps = array_pairs(am);
    let mut es: Vec<(LuaKey, LuaValue)> = Vec::new();
    let mut i: usize = 0;
    assert(ps.take(0) =~= Seq::<(KeyModel, LuaModel)>::empty());
    assert(entries_model(es@) =~= Seq::<(KeyModel, LuaModel)>::empty());
    while i < a.len()
        invariant
            i <= a.len(),
            a.len() < i64::MAX,
            am.len() == a.len(),
            ps == array_pairs(am),
            forall|j: int| 0 <= j < a.len() ==> (#[trigger] am[j]) == a@[j].model(),
            forall|j: int| 0 <= j < a.len() ==> (#[trigger] am[j]).wf(),
            entries_model(es@) == without_nils(ps.take(i as int)),
        decreases a.len() - i,
    {
        assert(am[i as int] == a@[i as int].model());
        let v = json_to_lua(&a[i]);
        let ghost prev = es@;
        let ghost vm = v.model();
        assert(ps.take(i + 1).drop_last() =~= ps.take(i as int));
        assert(ps.take(i + 1).last() == (KeyModel::Int((i + 1) as i64), vm));
        if let LuaValue::Nil = v {
        } else {
            es.push((LuaKey::Int((i + 1) as i64), v));
            assert(entries_model(es@) =~= entries_model(prev).push(
                (KeyModel::Int((i + 1) as i64), vm),
            ));
        }
        i += 1;
    }
    assert(ps.take(a.len() as int) =~= ps);
    let r = LuaValue::Table(es);
    assert(r.model()->Table_0 =~= entries_model(es@));
    r
}

fn object_to_table(o: &Vec<(String, JsonValue)>) -> (r: LuaValue)
    requires
        JsonValue::Object(*o).model().wf(),
    ensures
        r.model() == to_lua(JsonValue::Object(*o).model()),
    decreases o, 0nat,
{
    let ghost om = JsonValue::Object(*o).model()->Object_0;
    let ghost ps = object_pairs(om);
    let mut es: Vec<(LuaKey, LuaValue)> = Vec::new();
    let mut i: usize = 0;
    assert(ps.take(0) =~= Seq::<(KeyModel, LuaModel)>::empty());
    assert(entries_model(es@) =~= Seq::<(KeyModel, LuaModel)>::empty());
    while i < o.len()
        invariant
            i <= o.len(),
            om.len() == o.len(),
            ps == object_pairs(om),
            forall|j: int|
                0 <= j < o.len() ==> (#[trigger] om[j]) == (o@[j].0@, o@[j].1.model()),
            forall|j: int| 0 <= j < o.len() ==> (#[trigger] om[j]).1.wf(),
            entries_model(es@) == without_nils(ps.take(i as int)),
        decreases o.len() - i,
    {
        assert(om[i as int] == (o@[i as int].0@, o@[i as int].1.model()));
        let v = json_to_lua(&o[i].1);
        let ghost prev = es@;
        let ghost vm = v.model();
        let key = o[i].0.clone();
        assert(ps.take(i + 1).drop_last() =~= ps.take(i as int));
        assert(ps.take(i + 1).last() == (KeyModel::Text(key@), vm));
        if let LuaValue::Nil = v {
        } else {
            es.push((LuaKey::Text(key), v));
            assert(entries_model(es@) =~= entries_model(prev).push(
                (KeyModel::Text(key@), vm),
            ));
        }
        i += 1;
    }
    assert(ps.take(o.len() as int) =~= ps);
    let r = LuaValue::Table(es);
    assert(r.model()->Table_0 =~= entries_model(es@));
    r
}

/// Converts a structured value to a dynamic value: null to nil, a number whose
/// value is an integer in the range of `i64` (2.0 included) to that integer, any
/// other number to a float, an array to a table keyed `1..n`, an
/// object to a table keyed by member name. Null elements and members leave no
/// entry, as a table cannot hold nil.
pub fn json_to_lua(value: &JsonValue) -> (r: LuaValue)
    requires
        value.model().wf(),
    ensures
        r.model() == to_lua(value.model()),
    decreases value, 1nat,
{
    match value {
        JsonValue::Null => LuaValue::Nil,
        JsonValue::Bool(b) => LuaValue::Boolean(*b),
        JsonValue::Int(i) => LuaValue::Integer(*i),
        JsonValue::Float(bits) => {
            let r = float_to_lua(*bits);
            assert(value.model() == JsonModel::Float(*bits));
            assert(to_lua(JsonModel::Float(*bits)) == float_lua(*bits));
            r
        },
        JsonValue::String(s) => LuaValue::Text(s.clone()),
        JsonValue::Array(a) => array_to_table(a),
        JsonValue::Object(o) => object_to_table(o),
    }
}

/// A structured value that a table can carry unchanged: a table cannot hold nil,
/// so no object member is null and no array is empty or ends in null; and a
/// float whose value is an integer comes back as that integer. At any depth.
pub open spec fn survives_tables(j: JsonModel) -> bool
    decreases j,
{
    match j {
        JsonModel::Array(a) => a.len() > 0 && !(a.last() is Null) && forall|i: int|
            0 <= i < a.len() ==> survives_tables(#[trigger] a[i]),
        JsonModel::Object(o) => forall|i: int|
            0 <= i < o.len() ==> !((#[trigger] o[i]).1 is Null) && survives_tables(o[i].1),
        JsonModel::Float(bits) => integral_i64_of(bits) is None,
        _ => true,
    }
}

proof fn lemma_without_nils(s: Seq<(KeyModel, LuaModel)>)
    ensures
        forall|k: int|
            0 <= k < without_nils(s).len() ==> exists|i: int|
                0 <= i < s.len() && #[trigger] without_nils(s)[k] == s[i] && !(s[i].1 is Nil),
        forall|i: int|
            0 <= i < s.len() && !((#[trigger] s[i]).1 is Nil) ==> exists|k: int|
                0 <= k < without_nils(s).len() && without_nils(s)[k] == s[i],
        (forall|i: int| 0 <= i < s.len() ==> !((#[trigger] s[i]).1 is Nil)) ==> without_nils(s)
            == s,
    decreases s.len(),
{
    if s.len() > 0 {
        let t = s.drop_last();
        lemma_without_nils(t);
        let r = without_nils(t);
        let w = without_nils(s);
        assert forall|i: int| 0 <= i < t.len() implies t[i] == s[i] by {}
        assert forall|k: int| 0 <= k < w.len() implies exists|i: int|
            0 <= i < s.len() && #[trigger] w[k] == s[i] && !(s[i].1 is Nil) by {
            if k < r.len() {
                assert(w[k] == r[k]);
                let i = choose|i: int| 0 <= i < t.len() && r[k] == t[i] && !(t[i].1 is Nil);
                assert(w[k] == s[i]);
            } else {
                assert(w[k] == s[s.len() - 1]);
            }
        }
        assert forall|i: int| 0 <= i < s.len() && !((#[trigger] s[i]).1 is Nil) implies exists|
            k: int,
        | 0 <= k < w.len() && w[k] == s[i] by {
            if i < s.len() - 1 {
                assert(!(t[i].1 is Nil));
                let k = choose|k: int| 0 <= k < r.len() && r[k] == t[i];
                assert(w[k] == r[k]);
            } else {
                assert(w[r.len() as int] == s[i]);
            }
        }
        if forall|i: int| 0 <= i < s.len() ==> !((#[trigger] s[i]).1 is Nil) {
            assert(forall|i: int| 0 <= i < t.len() ==> !((#[trigger] t[i]).1 is Nil));
            assert(w =~= s);
        }
    }
}

proof fn lemma_max_key_at_most(es: Seq<(KeyModel, LuaModel)>, b: i64)
    requires
        b >= 0,
        forall|i: int| 0 <= i < es.len() ==> ((#[trigger] es[i]).0 is Int ==> es[i].0->Int_0 <= b),
    ensures
        max_key(es) <= b,
    decreases es.len(),
{
    if es.len() > 0 {
        let t = es.drop_last();
        assert forall|i: int| 0 <= i < t.len() implies t[i] == es[i] by {}
        lemma_max_key_at_most(t, b);
        assert(es.last() == es[es.len() - 1]);
    }
}

proof fn lemma_members_of_unique(o: Seq<(Seq<char>, JsonModel)>)
    requires
        unique_names(o),
    ensures
        members_of(o) == o,
    decreases o.len(),
{
    if o.len() > 0 {
        let t = o.drop_last();
        assert(unique_names(t));
        lemma_members_of_unique(t);
        lemma_member_index(t, o.last().0);
        if member_index(t, o.last().0) >= 0 {
            assert(o[member_index(t, o.last().0)].0 == o[o.len() - 1].0);
        }
        assert(members_of(o) =~= o);
    }
}

proof fn lemma_array_round_trip(a: Seq<JsonModel>)
    requires
        JsonModel::Array(a).wf(),
        survives_tables(JsonModel::Array(a)),
        forall|i: int|
            0 <= i < a.len() ==> to_json(to_lua(#[trigger] a[i])) == Ok::<JsonModel, ConversionError>(
                a[i],
            ),
    ensures
        !table_fails(without_nils(array_pairs(a))),
        array_like(without_nils(array_pairs(a))),
        array_slots(without_nils(array_pairs(a))) == a,
{
    let s = array_pairs(a);
    let es = without_nils(s);
    let n = a.len();
    lemma_without_nils(s);
    assert forall|k: int| 0 <= k < es.len() implies ({
        let i = (#[trigger] es[k]).0->Int_0 - 1;
        &&& es[k].0 is Int
        &&& 0 <= i < n
        &&& es[k] == s[i]
        &&& !(a[i] is Null)
    }) by {
        let i = choose|i: int| 0 <= i < s.len() && es[k] == s[i] && !(s[i].1 is Nil);
        assert(es[k] == s[i]);
    }
    assert(!table_fails(es));
    assert(!(s[n - 1].1 is Nil));
    assert(es.len() > 0);
    assert(array_like(es));
    lemma_max_key(es);
    lemma_max_key_at_most(es, n as i64);
    let k = choose|k: int| 0 <= k < es.len() && es[k] == s[n - 1];
    assert(es[k].0 == KeyModel::Int(n as i64));
    assert(max_key(es) == n);
    assert forall|p: int| 0 <= p < n implies slot(es, p) == a[p] by {
        let q = (p + 1) as i64;
        lemma_last_key_index(es, q);
        let jx = last_key_index(es, q);
        if a[p] is Null {
            if jx >= 0 {
                assert(es[jx].0 == KeyModel::Int(q));
            }
        } else {
            assert(!(s[p].1 is Nil));
            let k = choose|k: int| 0 <= k < es.len() && es[k] == s[p];
            assert(es[k].0 == KeyModel::Int(q));
            assert(es[jx].0 == KeyModel::Int(q));
        }
    }
    assert(array_slots(es) =~= a);
}

proof fn lemma_table_of_members(s: Seq<(KeyModel, LuaModel)>, o: Seq<(Seq<char>, JsonModel)>)
    requires
        s.len() == o.len(),
        unique_names(o),
        forall|i: int|
            0 <= i < s.len() ==> (#[trigger] s[i]).0 == KeyModel::Text(o[i].0) && to_json(s[i].1)
                == Ok::<JsonModel, ConversionError>(o[i].1),
    ensures
        !table_fails(s),
        !array_like(s),
        members_of(table_pairs(s)) == o,
{
    if o.len() > 0 {
        assert(!is_position(s[0].0));
    }
    assert(table_pairs(s) =~= o);
    lemma_members_of_unique(o);
}

proof fn lemma_object_round_trip(o: Seq<(Seq<char>, JsonModel)>)
    requires
        unique_names(o),
        forall|i: int| 0 <= i < o.len() ==> !((#[trigger] o[i]).1 is Null),
        forall|i: int|
            0 <= i < o.len() ==> to_json(to_lua((#[trigger] o[i]).1)) == Ok::<
                JsonModel,
                ConversionError,
            >(o[i].1),
    ensures
        !table_fails(without_nils(object_pairs(o))),
        !array_like(without_nils(object_pairs(o))),
        members_of(table_pairs(without_nils(object_pairs(o)))) == o,
{
    let s = object_pairs(o);
    assert forall|i: int| 0 <= i < s.len() implies (#[trigger] s[i]).0 == KeyModel::Text(o[i].0)
        && to_json(s[i].1) == Ok::<JsonModel, ConversionError>(o[i].1) && !(s[i].1 is Nil) by {
        assert(s[i] == (KeyModel::Text(o[i].0), to_lua(o[i].1)));
        assert(!(o[i].1 is Null));
    }
    lemma_without_nils(s);
    assert(without_nils(s) == s);
    lemma_table_of_members(s, o);
}

/// Carrying a structured value through a table loses nothing: for every value
/// the exchange format admits whose arrays are non-empty and do not end in null,
/// whose object members are not null, and whose floats are not whole numbers,
/// `ToStructured(ToDynamic(v)) == v`.
pub proof fn lemma_round_trip(j: JsonModel)
    requires
        j.wf(),
        survives_tables(j),
    ensures
        to_json(to_lua(j)) == Ok::<JsonModel, ConversionError>(j),
    decreases j,
{
    match j {
        JsonModel::Array(a) => {
            assert forall|i: int| 0 <= i < a.len() implies to_json(to_lua(#[trigger] a[i])) == Ok::<
                JsonModel,
                ConversionError,
            >(a[i]) by {
                lemma_round_trip(a[i]);
            }
            lemma_array_round_trip(a);
            assert(to_lua(j) == LuaModel::Table(without_nils(array_pairs(a))));
        },
        JsonModel::Object(o) => {
            assert forall|i: int| 0 <= i < o.len() implies to_json(to_lua((#[trigger] o[i]).1))
                == Ok::<JsonModel, ConversionError>(o[i].1) by {
                lemma_round_trip(o[i].1);
            }
            assert forall|i: int| 0 <= i < o.len() implies !((#[trigger] o[i]).1 is Null) by {}
            lemma_object_round_trip(o);
            assert(to_lua(j) == LuaModel::Table(without_nils(object_pairs(o))));
        },
        _ => {},
    }
}

/// Whether a structured value is one the exchange format admits: every float
/// finite, member names unique within each object, every array shorter than
/// `i64::MAX`. This is what `json_to_lua` requires.
pub fn is_admissible(value: &JsonValue) -> (r: bool)
    ensures
        r == value.model().wf(),
    decreases value, 1nat,
{
    match value {
        JsonValue::Float(bits) => (*bits >> 52u64) & 0x7ffu64 != 0x7ffu64,
        JsonValue::Array(a) => array_admissible(a),
        JsonValue::Object(o) => object_admissible(o),
        _ => true,
    }
}

fn array_admissible(a: &Vec<JsonValue>) -> (r: bool)
    ensures
        r == JsonValue::Array(*a).model().wf(),
    decreases a, 0nat,
{
    let ghost am = JsonValue::Array(*a).model()->Array_0;
    if a.len() as u64 >= 0x7fffffffffffffffu64 {
        return false;
    }
    let mut i: usize = 0;
    while i < a.len()
        invariant
            i <= a.len(),
            JsonValue::Array(*a).model() == JsonModel::Array(am),
            am.len() == a.len(),
            forall|j: int| 0 <= j < a.len() ==> (#[trigger] am[j]) == a@[j].model(),
            forall|j: int| 0 <= j < i ==> (#[trigger] am[j]).wf(),
        decreases a.len() - i,
    {
        assert(am[i as int] == a@[i as int].model());
        if !is_admissible(&a[i]) {
            assert(!am[i as int].wf());
            return false;
        }
        i += 1;
    }
    true
}

fn object_admissible(o: &Vec<(String, JsonValue)>) -> (r: bool)
    ensures
        r == JsonValue::Object(*o).model().wf(),
    decreases o, 0nat,
{
    let ghost om = JsonValue::Object(*o).model()->Object_0;
    let mut i: usize = 0;
    while i < o.len()
        invariant
            i <= o.len(),
            JsonValue::Object(*o).model() == JsonModel::Object(om),
            om.len() == o.len(),
            forall|j: int| 0 <= j < o.len() ==> (#[trigger] om[j]) == (o@[j].0@, o@[j].1.model()),
            forall|j: int| 0 <= j < i ==> (#[trigger] om[j]).1.wf(),
            forall|p: int, q: int| 0 <= p < q < i ==> om[p].0 != om[q].0,
        decreases o.len() - i,
    {
        assert(om[i as int] == (o@[i as int].0@, o@[i as int].1.model()));
        if !is_admissible(&o[i].1) {
            assert(!om[i as int].1.wf());
            return false;
        }
        let mut p: usize = 0;
        while p < i
            invariant
                p <= i < o.len(),
                JsonValue::Object(*o).model() == JsonModel::Object(om),
                om.len() == o.len(),
                forall|j: int| 0 <= j < o.len() ==> (#[trigger] om[j]) == (o@[j].0@, o@[j].1.model()),
                forall|j: int| 0 <= j < p ==> (#[trigger] om[j]).0 != om[i as int].0,
            decreases i - p,
        {
            assert(om[p as int] == (o@[p as int].0@, o@[p as int].1.model()));
            if o[p].0 == o[i].0 {
                assert(om[p as int].0 == om[i as int].0);
                assert(!unique_names(om));
                return false;
            }
            p += 1;
        }
        i += 1;
    }
    true
}

} // verus!
