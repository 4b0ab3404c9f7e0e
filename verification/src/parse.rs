//! The batch parser: turns the raw bytes of the endpoint's JSON response
//! into validated `SensorData` records, or fails as a whole.
//!
//! The accepted grammar is the external schema: a JSON array of objects
//! `{"id": <uint>, "type": "<kind>", "geolocation": {"lat": <uint>,
//! "lon": <uint>}, "value": "<true|false|uint>", "timestamp": <uint>}`,
//! fields in schema order, with whitespace allowed between tokens. Failure
//! of any single record fails the entire batch; a structural fault is
//! `MalformedJson`, a bad kind string `UnknownSensorKind`, a bad value
//! string `InvalidSensorValue`.

use vstd::prelude::*;
use vstd::slice::slice_subrange;

use crate::codec::all_digits;
use crate::codec::digits_val;
use crate::codec::is_digit;
use crate::codec::spec_de_sensor_type;
use crate::codec::spec_de_sensor_value;
use crate::codec::de_string_to_sensor_type;
use crate::codec::de_string_to_sensor_value;
use crate::types::Error;
use crate::types::Geolocation;
use crate::types::SensorData;

verus! {

/// JSON insignificant whitespace: space, tab, line feed, carriage return.
pub open spec fn is_ws(b: u8) -> bool {
    b == 32 || b == 9 || b == 10 || b == 13
}

/// The first position at or after `i` holding a byte that is not
/// whitespace, or the end of the input.
pub open spec fn skip_ws(s: Seq<u8>, i: int) -> int
    decreases s.len() - i,
{
    if i < 0 || i >= s.len() {
        i
    } else if is_ws(s[i]) {
        skip_ws(s, i + 1)
    } else {
        i
    }
}

/// The first position at or after `i` holding a non-digit, or the end.
pub open spec fn digits_end(s: Seq<u8>, i: int) -> int
    decreases s.len() - i,
{
    if i < 0 || i >= s.len() {
        i
    } else if is_digit(s[i]) {
        digits_end(s, i + 1)
    } else {
        i
    }
}

/// The first position at or after `i` holding a double quote, or the end.
pub open spec fn find_quote(s: Seq<u8>, i: int) -> int
    decreases s.len() - i,
{
    if i < 0 || i >= s.len() {
        i
    } else if s[i] == 34 {
        i
    } else {
        find_quote(s, i + 1)
    }
}

proof fn lemma_skip_ws(s: Seq<u8>, i: int)
    requires
        0 <= i <= s.len(),
    ensures
        i <= skip_ws(s, i) <= s.len(),
        skip_ws(s, i) < s.len() ==> !is_ws(s[skip_ws(s, i)]),
        forall|k: int| i <= k < skip_ws(s, i) ==> is_ws(s[k]),
    decreases s.len() - i,
{
    if i < s.len() && is_ws(s[i]) {
        lemma_skip_ws(s, i + 1);
    }
}

proof fn lemma_digits_end(s: Seq<u8>, i: int)
    requires
        0 <= i <= s.len(),
    ensures
        i <= digits_end(s, i) <= s.len(),
        digits_end(s, i) < s.len() ==> !is_digit(s[digits_end(s, i)]),
        forall|k: int| i <= k < digits_end(s, i) ==> is_digit(s[k]),
    decreases s.len() - i,
{
    if i < s.len() && is_digit(s[i]) {
        lemma_digits_end(s, i + 1);
    }
}

proof fn lemma_find_quote(s: Seq<u8>, i: int)
    requires
        0 <= i <= s.len(),
    ensures
        i <= find_quote(s, i) <= s.len(),
        find_quote(s, i) < s.len() ==> s[find_quote(s, i)] == 34,
        forall|k: int| i <= k < find_quote(s, i) ==> s[k] != 34,
    decreases s.len() - i,
{
    if i < s.len() && s[i] != 34 {
        lemma_find_quote(s, i + 1);
    }
}

/// Do the bytes of `lit` stand at position `i` of `s`?
pub open spec fn match_at(s: Seq<u8>, i: int, lit: Seq<u8>) -> bool {
    0 <= i && i + lit.len() <= s.len() && s.subrange(i, i + lit.len()) == lit
}

/// A decimal numeral at `i`: its value and the position after it, or
/// nothing when no digit stands at `i` or a leading zero is followed by
/// more digits.
pub open spec fn spec_number(s: Seq<u8>, i: int) -> Option<(int, int)> {
    let e = digits_end(s, i);
    if e == i {
        Option::<(int, int)>::None
    } else if s[i] == 48 && e > i + 1 {
        Option::<(int, int)>::None
    } else {
        Some((digits_val(s.subrange(i, e)), e))
    }
}

/// A quoted string at `i` (no escape handling: the content is everything up
/// to the next quote): its content and the position after the closing
/// quote, or nothing when `i` holds no quote or the quote is never closed.
pub open spec fn spec_string(s: Seq<u8>, i: int) -> Option<(Seq<u8>, int)> {
    if 0 <= i < s.len() && s[i] == 34 {
        let e = find_quote(s, i + 1);
        if e < s.len() {
            Some((s.subrange(i + 1, e), e + 1))
        } else {
            Option::<(Seq<u8>, int)>::None
        }
    } else {
        Option::<(Seq<u8>, int)>::None
    }
}

/// Skips whitespace from `i`.
fn ws(s: &[u8], i: usize) -> (r: usize)
    requires
        i <= s@.len(),
    ensures
        r as int == skip_ws(s@, i as int),
        i <= r <= s@.len(),
        r < s@.len() ==> !is_ws(s@[r as int]),
    decreases s@.len() - i,
{
    proof {
        lemma_skip_ws(s@, i as int);
    }
    let mut j: usize = i;
    while j < s.len()
        invariant
            i <= j <= s@.len(),
            skip_ws(s@, i as int) == skip_ws(s@, j as int),
        decreases s@.len() - j,
    {
        let b = s[j];
        if !(b == 32 || b == 9 || b == 10 || b == 13) {
            return j;
        }
        j += 1;
    }
    j
}

/// Do the bytes of `lit` stand at position `i` of `s`?
fn match_lit(s: &[u8], i: usize, lit: &[u8]) -> (r: bool)
    requires
        i <= s@.len(),
    ensures
        r == match_at(s@, i as int, lit@),
{
    let n = s.len();
    if lit.len() > n - i {
        return false;
    }
    let mut j: usize = 0;
    while j < lit.len()
        invariant
            j <= lit@.len(),
            n == s@.len(),
            i + lit@.len() <= n,
            forall|k: int| 0 <= k < j ==> s@[i + k] == lit@[k],
        decreases lit@.len() - j,
    {
        if s[i + j] != lit[j] {
            assert(s@.subrange(i as int, i + lit@.len())[j as int] != lit@[j as int]);
            return false;
        }
        j += 1;
    }
    proof {
        assert(s@.subrange(i as int, i + lit@.len()) =~= lit@);
    }
    true
}

/// Reads the decimal numeral at `i`, refusing values above `u64::MAX`.
fn number_u64(s: &[u8], i: usize) -> (r: Option<(u64, usize)>)
    requires
        i <= s@.len(),
    ensures
        (match spec_number(s@, i as int) {
            Some((v, e)) => {
                0 <= v && if v <= u64::MAX {
                    match r {
                        Some((rv, re)) => rv as int == v && re as int == e && i < re <= s@.len(),
                        Option::<(u64, usize)>::None => false,
                    }
                } else {
                    r is None
                }
            },
            Option::<(int, int)>::None => r is None,
        }),
{
    proof {
        lemma_digits_end(s@, i as int);
    }
    let ghost e = digits_end(s@, i as int);
    if i >= s.len() {
        return None;
    }
    let b0 = s[i];
    if b0 < 48 || b0 > 57 {
        return None;
    }
    assert(e > i);
    if b0 == 48 && i + 1 < s.len() {
        let b1 = s[i + 1];
        if 48 <= b1 && b1 <= 57 {
            assert(digits_end(s@, i as int) == digits_end(s@, i + 1));
            proof {
                lemma_digits_end(s@, i + 1);
            }
            assert(e > i + 1);
            return None;
        }
    }
    let ghost run = s@.subrange(i as int, e);
    proof {
        assert(all_digits(run));
    }
    let mut acc: u64 = 0;
    let mut j: usize = i;
    while j < s.len() && s[j] >= 48 && s[j] <= 57
        invariant
            i <= j <= e <= s@.len(),
            e == digits_end(s@, i as int),
            run == s@.subrange(i as int, e),
            all_digits(run),
            j < e ==> is_digit(s@[j as int]),
            acc == digits_val(s@.subrange(i as int, j as int)),
            forall|k: int| i <= k < e ==> is_digit(s@[k]),
            e < s@.len() ==> !is_digit(s@[e]),
        decreases s@.len() - j,
    {
        assert(j < e) by {
            assert(is_digit(s@[j as int]));
        }
        let d: u64 = (s[j] - 48) as u64;
        proof {
            assert(s@.subrange(i as int, j + 1).drop_last() =~= s@.subrange(i as int, j as int));
            assert(s@.subrange(i as int, j + 1).last() == s@[j as int]);
        }
        if acc > 1844674407370955161 || (acc == 1844674407370955161 && d > 5) {
            proof {
                let pfx = s@.subrange(i as int, j + 1);
                assert(pfx =~= run.subrange(0, j + 1 - i));
                crate::codec::lemma_digits_val_mono(run, j + 1 - i);
                assert(digits_val(pfx) == acc * 10 + d);
                assert(digits_val(run) > u64::MAX);
            }
            return None;
        }
        acc = acc * 10 + d;
        j += 1;
        assert(acc == digits_val(s@.subrange(i as int, j as int)));
    }
    assert(j == e) by {
        if j < e {
            assert(is_digit(s@[j as int]));
        }
    }
    Some((acc, j))
}

/// Finds the closing quote of the string opened at `i`; returns the index
/// of the closing quote.
fn string_end(s: &[u8], i: usize) -> (r: Option<usize>)
    requires
        i < s@.len(),
        s@[i as int] == 34,
    ensures
        (match spec_string(s@, i as int) {
            Some((content, next)) => {
                match r {
                    Some(e) => {
                        i < e < s@.len() && content == s@.subrange(i + 1, e as int) && next == e + 1
                    },
                    Option::<usize>::None => false,
                }
            },
            Option::<(Seq<u8>, int)>::None => r is None,
        }),
{
    proof {
        lemma_find_quote(s@, i + 1);
    }
    let ghost f = find_quote(s@, i + 1);
    let n = s.len();
    let mut j: usize = i + 1;
    while j < n
        invariant
            n == s@.len(),
            i < s@.len(),
            s@[i as int] == 34,
            i + 1 <= j <= s@.len(),
            f == find_quote(s@, i + 1),
            j <= f <= s@.len(),
            f < s@.len() ==> s@[f] == 34,
            forall|k: int| i + 1 <= k < f ==> s@[k] != 34,
        decreases s@.len() - j,
    {
        if s[j] == 34 {
            assert(j == f);
            return Some(j);
        }
        j += 1;
        assert(j <= f);
    }
    assert(f == s@.len());
    None
}

/// The bytes of "id".
pub open spec fn id_lit() -> Seq<u8> {
    seq![105u8, 100u8]
}

/// The bytes of "type".
pub open spec fn type_lit() -> Seq<u8> {
    seq![116u8, 121u8, 112u8, 101u8]
}

/// The bytes of "geolocation".
pub open spec fn geolocation_lit() -> Seq<u8> {
    seq![103u8, 101u8, 111u8, 108u8, 111u8, 99u8, 97u8, 116u8, 105u8, 111u8, 110u8]
}

/// The bytes of "lat".
pub open spec fn lat_lit() -> Seq<u8> {
    seq![108u8, 97u8, 116u8]
}

/// The bytes of "lon".
pub open spec fn lon_lit() -> Seq<u8> {
    seq![108u8, 111u8, 110u8]
}

/// The bytes of "value".
pub open spec fn value_lit() -> Seq<u8> {
    seq![118u8, 97u8, 108u8, 117u8, 101u8]
}

/// The bytes of "timestamp".
pub open spec fn timestamp_lit() -> Seq<u8> {
    seq![116u8, 105u8, 109u8, 101u8, 115u8, 116u8, 97u8, 109u8, 112u8]
}

/// A field introducer at `i`: the quoted `name`, whitespace, a colon,
/// whitespace; yields the position of the field's value.
pub open spec fn spec_field_at(s: Seq<u8>, i: int, name: Seq<u8>) -> Result<int, Error> {
    if !(0 <= i && i < s.len() && s[i] == 34 && match_at(s, i + 1, name) && i + 1 + name.len()
        < s.len() && s[i + 1 + name.len()] == 34) {
        Err(Error::MalformedJson)
    } else {
        let c = skip_ws(s, i + 2 + name.len());
        if !(c < s.len() && s[c] == 58) {
            Err(Error::MalformedJson)
        } else {
            Ok(skip_ws(s, c + 1))
        }
    }
}

/// A numeric field at `i`: the introducer for `name`, then a numeral no
/// larger than `bound`; yields the value and the position after it.
pub open spec fn spec_field_num(s: Seq<u8>, i: int, name: Seq<u8>, bound: int) -> Result<
    (int, int),
    Error,
> {
    match spec_field_at(s, i, name) {
        Err(e) => Err(e),
        Ok(v0) => match spec_number(s, v0) {
            Some((v, e)) => if v <= bound {
                Ok((v, e))
            } else {
                Err(Error::MalformedJson)
            },
            Option::<(int, int)>::None => Err(Error::MalformedJson),
        },
    }
}

/// A string field at `i`: the introducer for `name`, then a quoted string;
/// yields the content and the position after the closing quote.
pub open spec fn spec_field_string(s: Seq<u8>, i: int, name: Seq<u8>) -> Result<
    (Seq<u8>, int),
    Error,
> {
    match spec_field_at(s, i, name) {
        Err(e) => Err(e),
        Ok(v0) => match spec_string(s, v0) {
            Some((content, next)) => Ok((content, next)),
            Option::<(Seq<u8>, int)>::None => Err(Error::MalformedJson),
        },
    }
}

/// The nested geolocation object at `i`:
/// `{ "lat" : <uint> , "lon" : <uint> }`.
pub open spec fn spec_geo(s: Seq<u8>, i: int) -> Result<(Geolocation, int), Error> {
    if !(0 <= i && i < s.len() && s[i] == 123) {
        Err(Error::MalformedJson)
    } else {
        let f1 = skip_ws(s, i + 1);
        match spec_field_num(s, f1, lat_lit(), u32::MAX as int) {
            Err(e) => Err(e),
            Ok((lat, p1)) => {
                let c1 = skip_ws(s, p1);
                if !(c1 < s.len() && s[c1] == 44) {
                    Err(Error::MalformedJson)
                } else {
                    let f2 = skip_ws(s, c1 + 1);
                    match spec_field_num(s, f2, lon_lit(), u32::MAX as int) {
                        Err(e) => Err(e),
                        Ok((lon, p2)) => {
                            let c2 = skip_ws(s, p2);
                            if !(c2 < s.len() && s[c2] == 125) {
                                Err(Error::MalformedJson)
                            } else {
                                Ok((Geolocation { lat: lat as u32, lon: lon as u32 }, c2 + 1))
                            }
                        },
                    }
                }
            },
        }
    }
}

/// One sensor object at `i`, fields in schema order; yields the record and
/// the position after the closing brace.
pub open spec fn spec_record(s: Seq<u8>, i: int) -> Result<(SensorData, int), Error> {
    if !(0 <= i && i < s.len() && s[i] == 123) {
        Err(Error::MalformedJson)
    } else {
        let f1 = skip_ws(s, i + 1);
        match spec_field_num(s, f1, id_lit(), u32::MAX as int) {
            Err(e) => Err(e),
            Ok((id, p1)) => {
                let c1 = skip_ws(s, p1);
                if !(c1 < s.len() && s[c1] == 44) {
                    Err(Error::MalformedJson)
                } else {
                    let f2 = skip_ws(s, c1 + 1);
                    match spec_field_string(s, f2, type_lit()) {
                        Err(e) => Err(e),
                        Ok((ty_bytes, p2)) => match spec_de_sensor_type(ty_bytes) {
                            Err(e) => Err(e),
                            Ok(ty) => {
                                let c2 = skip_ws(s, p2);
                                if !(c2 < s.len() && s[c2] == 44) {
                                    Err(Error::MalformedJson)
                                } else {
                                    let f3 = skip_ws(s, c2 + 1);
                                    match spec_field_at(s, f3, geolocation_lit()) {
                                        Err(e) => Err(e),
                                        Ok(g0) => spec_record_tail(s, i, id, ty, g0),
                                    }
                                }
                            },
                        },
                    }
                }
            },
        }
    }
}

/// The rest of a sensor object once its geolocation value has been reached:
/// the nested object, the value string, the timestamp, the closing brace.
pub open spec fn spec_record_tail(
    s: Seq<u8>,
    i: int,
    id: int,
    ty: crate::types::SensorType,
    g0: int,
) -> Result<(SensorData, int), Error> {
    match spec_geo(s, g0) {
        Err(e) => Err(e),
        Ok((geo, p3)) => {
            let c3 = skip_ws(s, p3);
            if !(c3 < s.len() && s[c3] == 44) {
                Err(Error::MalformedJson)
            } else {
                let f4 = skip_ws(s, c3 + 1);
                match spec_field_string(s, f4, value_lit()) {
                    Err(e) => Err(e),
                    Ok((val_bytes, p4)) => match spec_de_sensor_value(val_bytes) {
                        Err(e) => Err(e),
                        Ok(value) => {
                            let c4 = skip_ws(s, p4);
                            if !(c4 < s.len() && s[c4] == 44) {
                                Err(Error::MalformedJson)
                            } else {
                                let f5 = skip_ws(s, c4 + 1);
                                match spec_field_num(s, f5, timestamp_lit(), u64::MAX as int) {
                                    Err(e) => Err(e),
                                    Ok((ts, p5)) => {
                                        let c5 = skip_ws(s, p5);
                                        if !(c5 < s.len() && s[c5] == 125) {
                                            Err(Error::MalformedJson)
                                        } else {
                                            Ok(
                                                (
                                                    SensorData {
                                                        id: id as u32,
                                                        type_: ty,
                                                        geolocation: geo,
                                                        value,
                                                        timestamp: ts as u64,
                                                    },
                                                    c5 + 1,
                                                ),
                                            )
                                        }
                                    },
                                }
                            }
                        },
                    },
                }
            }
        },
    }
}

proof fn lemma_field_at_advances(s: Seq<u8>, i: int, name: Seq<u8>)
    ensures
        spec_field_at(s, i, name) matches Ok(v0) ==> i + 2 <= v0 <= s.len(),
{
    match spec_field_at(s, i, name) {
        Ok(v0) => {
            lemma_skip_ws(s, i + 2 + name.len());
            let c = skip_ws(s, i + 2 + name.len());
            lemma_skip_ws(s, c + 1);
        },
        Err(_) => {},
    }
}

proof fn lemma_number_advances(s: Seq<u8>, i: int)
    requires
        0 <= i,
    ensures
        spec_number(s, i) matches Some(ve) ==> i < ve.1 <= s.len(),
{
    if i <= s.len() {
        lemma_digits_end(s, i);
    }
}

proof fn lemma_field_num_advances(s: Seq<u8>, i: int, name: Seq<u8>, bound: int)
    ensures
        spec_field_num(s, i, name, bound) matches Ok(vp) ==> i < vp.1 <= s.len(),
{
    lemma_field_at_advances(s, i, name);
    match spec_field_at(s, i, name) {
        Ok(v0) => {
            lemma_number_advances(s, v0);
        },
        Err(_) => {},
    }
}

proof fn lemma_field_string_advances(s: Seq<u8>, i: int, name: Seq<u8>)
    ensures
        spec_field_string(s, i, name) matches Ok(cp) ==> i < cp.1 <= s.len(),
{
    lemma_field_at_advances(s, i, name);
    match spec_field_at(s, i, name) {
        Ok(v0) => {
            if 0 <= v0 < s.len() && s[v0] == 34 {
                lemma_find_quote(s, v0 + 1);
            }
        },
        Err(_) => {},
    }
}

proof fn lemma_geo_advances(s: Seq<u8>, i: int)
    ensures
        spec_geo(s, i) matches Ok(gp) ==> i < gp.1 <= s.len(),
{
    if 0 <= i && i < s.len() && s[i] == 123 {
        lemma_skip_ws(s, i + 1);
        let f1 = skip_ws(s, i + 1);
        lemma_field_num_advances(s, f1, lat_lit(), u32::MAX as int);
        match spec_field_num(s, f1, lat_lit(), u32::MAX as int) {
            Ok((lat, p1)) => {
                lemma_skip_ws(s, p1);
                let c1 = skip_ws(s, p1);
                if c1 < s.len() && s[c1] == 44 {
                    lemma_skip_ws(s, c1 + 1);
                    let f2 = skip_ws(s, c1 + 1);
                    lemma_field_num_advances(s, f2, lon_lit(), u32::MAX as int);
                    match spec_field_num(s, f2, lon_lit(), u32::MAX as int) {
                        Ok((lon, p2)) => {
                            lemma_skip_ws(s, p2);
                        },
                        Err(_) => {},
                    }
                }
            },
            Err(_) => {},
        }
    }
}

proof fn lemma_record_advances(s: Seq<u8>, i: int)
    ensures
        spec_record(s, i) matches Ok(dp) ==> i < dp.1 <= s.len(),
{
    if 0 <= i && i < s.len() && s[i] == 123 {
        lemma_skip_ws(s, i + 1);
        let f1 = skip_ws(s, i + 1);
        lemma_field_num_advances(s, f1, id_lit(), u32::MAX as int);
        match spec_field_num(s, f1, id_lit(), u32::MAX as int) {
            Ok((id, p1)) => {
                lemma_skip_ws(s, p1);
                let c1 = skip_ws(s, p1);
                if c1 < s.len() && s[c1] == 44 {
                    lemma_skip_ws(s, c1 + 1);
                    let f2 = skip_ws(s, c1 + 1);
                    lemma_field_string_advances(s, f2, type_lit());
                    match spec_field_string(s, f2, type_lit()) {
                        Ok((ty_bytes, p2)) => {
                            lemma_skip_ws(s, p2);
                            let c2 = skip_ws(s, p2);
                            if c2 < s.len() && s[c2] == 44 {
                                lemma_skip_ws(s, c2 + 1);
                                let f3 = skip_ws(s, c2 + 1);
                                lemma_field_at_advances(s, f3, geolocation_lit());
                                match spec_field_at(s, f3, geolocation_lit()) {
                                    Ok(g0) => {
                                        match spec_de_sensor_type(ty_bytes) {
                                            Ok(ty) => {
                                                lemma_record_tail_advances(s, i, id, ty, g0);
                                            },
                                            Err(_) => {},
                                        }
                                    },
                                    Err(_) => {},
                                }
                            }
                        },
                        Err(_) => {},
                    }
                }
            },
            Err(_) => {},
        }
    }
}

proof fn lemma_record_tail_advances(
    s: Seq<u8>,
    i: int,
    id: int,
    ty: crate::types::SensorType,
    g0: int,
)
    requires
        i < g0,
    ensures
        spec_record_tail(s, i, id, ty, g0) matches Ok(dp) ==> i < dp.1 <= s.len(),
{
    lemma_geo_advances(s, g0);
    match spec_geo(s, g0) {
        Ok((geo, p3)) => {
            lemma_skip_ws(s, p3);
            let c3 = skip_ws(s, p3);
            if c3 < s.len() && s[c3] == 44 {
                lemma_skip_ws(s, c3 + 1);
                let f4 = skip_ws(s, c3 + 1);
                lemma_field_string_advances(s, f4, value_lit());
                match spec_field_string(s, f4, value_lit()) {
                    Ok((val_bytes, p4)) => {
                        lemma_skip_ws(s, p4);
                        let c4 = skip_ws(s, p4);
                        if c4 < s.len() && s[c4] == 44 {
                            lemma_skip_ws(s, c4 + 1);
                            let f5 = skip_ws(s, c4 + 1);
                            lemma_field_num_advances(s, f5, timestamp_lit(), u64::MAX as int);
                            match spec_field_num(s, f5, timestamp_lit(), u64::MAX as int) {
                                Ok((ts, p5)) => {
                                    lemma_skip_ws(s, p5);
                                },
                                Err(_) => {},
                            }
                        }
                    },
                    Err(_) => {},
                }
            }
        },
        Err(_) => {},
    }
}

/// Reads the field introducer for `name` at `i`.
fn field_at(s: &[u8], i: usize, name: &[u8]) -> (r: Result<usize, Error>)
    requires
        i <= s@.len(),
    ensures
        (match r {
            Ok(v0) => spec_field_at(s@, i as int, name@) == Ok::<int, Error>(v0 as int) && i + 2
                <= v0 <= s@.len(),
            Err(e) => spec_field_at(s@, i as int, name@) == Err::<int, Error>(e),
        }),
{
    let n = s.len();
    if i >= n || s[i] != 34 {
        return Err(Error::MalformedJson);
    }
    if !match_lit(s, i + 1, name) {
        return Err(Error::MalformedJson);
    }
    assert(i + 1 + name@.len() <= n);
    let q = i + 1 + name.len();
    if q >= n || s[q] != 34 {
        return Err(Error::MalformedJson);
    }
    let c = ws(s, q + 1);
    if c >= n || s[c] != 58 {
        return Err(Error::MalformedJson);
    }
    let v0 = ws(s, c + 1);
    Ok(v0)
}

/// Reads a numeric field for `name` at `i`, refusing values above `bound`.
fn field_num(s: &[u8], i: usize, name: &[u8], bound: u64) -> (r: Result<(u64, usize), Error>)
    requires
        i <= s@.len(),
    ensures
        (match r {
            Ok((v, p)) => spec_field_num(s@, i as int, name@, bound as int) == Ok::<
                (int, int),
                Error,
            >((v as int, p as int)) && i < p <= s@.len() && v <= bound,
            Err(e) => spec_field_num(s@, i as int, name@, bound as int) == Err::<
                (int, int),
                Error,
            >(e),
        }),
{
    let v0 = match field_at(s, i, name) {
        Ok(v0) => v0,
        Err(e) => {
            return Err(e);
        },
    };
    match number_u64(s, v0) {
        Some((v, e)) => {
            if v <= bound {
                Ok((v, e))
            } else {
                Err(Error::MalformedJson)
            }
        },
        None => Err(Error::MalformedJson),
    }
}

/// Reads a string field for `name` at `i`; yields the content bounds and
/// the position after the closing quote.
fn field_string(s: &[u8], i: usize, name: &[u8]) -> (r: Result<(usize, usize, usize), Error>)
    requires
        i <= s@.len(),
    ensures
        (match r {
            Ok((cs, ce, p)) => spec_field_string(s@, i as int, name@) == Ok::<
                (Seq<u8>, int),
                Error,
            >((s@.subrange(cs as int, ce as int), p as int)) && cs <= ce <= s@.len() && i < p
                <= s@.len(),
            Err(e) => spec_field_string(s@, i as int, name@) == Err::<(Seq<u8>, int), Error>(e),
        }),
{
    let v0 = match field_at(s, i, name) {
        Ok(v0) => v0,
        Err(e) => {
            return Err(e);
        },
    };
    if v0 >= s.len() || s[v0] != 34 {
        return Err(Error::MalformedJson);
    }
    match string_end(s, v0) {
        Some(e) => Ok((v0 + 1, e, e + 1)),
        None => Err(Error::MalformedJson),
    }
}

/// Reads the nested geolocation object at `i`.
fn geo_object(s: &[u8], i: usize) -> (r: Result<(Geolocation, usize), Error>)
    requires
        i <= s@.len(),
    ensures
        (match r {
            Ok((g, p)) => spec_geo(s@, i as int) == Ok::<(Geolocation, int), Error>((g, p as int))
                && i < p <= s@.len(),
            Err(e) => spec_geo(s@, i as int) == Err::<(Geolocation, int), Error>(e),
        }),
{
    let n = s.len();
    if i >= n || s[i] != 123 {
        return Err(Error::MalformedJson);
    }
    let f1 = ws(s, i + 1);
    let lat_name: [u8; 3] = [108, 97, 116];
    proof {
        assert(lat_name@ =~= lat_lit());
    }
    let (lat, p1) = match field_num(s, f1, lat_name.as_slice(), 0xffff_ffff) {
        Ok(x) => x,
        Err(e) => {
            return Err(e);
        },
    };
    let c1 = ws(s, p1);
    if c1 >= n || s[c1] != 44 {
        return Err(Error::MalformedJson);
    }
    let f2 = ws(s, c1 + 1);
    let lon_name: [u8; 3] = [108, 111, 110];
    proof {
        assert(lon_name@ =~= lon_lit());
    }
    let (lon, p2) = match field_num(s, f2, lon_name.as_slice(), 0xffff_ffff) {
        Ok(x) => x,
        Err(e) => {
            return Err(e);
        },
    };
    let c2 = ws(s, p2);
    if c2 >= n || s[c2] != 125 {
        return Err(Error::MalformedJson);
    }
    Ok((Geolocation { lat: lat as u32, lon: lon as u32 }, c2 + 1))
}

/// Reads one sensor object at `i`.
#[verifier::rlimit(50)]
fn record(s: &[u8], i: usize) -> (r: Result<(SensorData, usize), Error>)
    requires
        i <= s@.len(),
    ensures
        (match r {
            Ok((d, p)) => spec_record(s@, i as int) == Ok::<(SensorData, int), Error>(
                (d, p as int),
            ) && i < p <= s@.len(),
            Err(e) => spec_record(s@, i as int) == Err::<(SensorData, int), Error>(e),
        }),
{
    let n = s.len();
    if i >= n || s[i] != 123 {
        return Err(Error::MalformedJson);
    }
    let f1 = ws(s, i + 1);
    let id_name: [u8; 2] = [105, 100];
    proof {
        assert(id_name@ =~= id_lit());
    }
    let (id, p1) = match field_num(s, f1, id_name.as_slice(), 0xffff_ffff) {
        Ok(x) => x,
        Err(e) => {
            return Err(e);
        },
    };
    let c1 = ws(s, p1);
    if c1 >= n || s[c1] != 44 {
        return Err(Error::MalformedJson);
    }
    let f2 = ws(s, c1 + 1);
    let kind_name: [u8; 4] = [116, 121, 112, 101];
    proof {
        assert(kind_name@ =~= type_lit());
    }
    let (tcs, tce, p2) = match field_string(s, f2, kind_name.as_slice()) {
        Ok(x) => x,
        Err(e) => {
            return Err(e);
        },
    };
    let ty = match de_string_to_sensor_type(slice_subrange(s, tcs, tce)) {
        Ok(t) => t,
        Err(e) => {
            return Err(e);
        },
    };
    let c2 = ws(s, p2);
    if c2 >= n || s[c2] != 44 {
        return Err(Error::MalformedJson);
    }
    let f3 = ws(s, c2 + 1);
    let geo_name: [u8; 11] = [103, 101, 111, 108, 111, 99, 97, 116, 105, 111, 110];
    proof {
        assert(geo_name@ =~= geolocation_lit());
    }
    let g0 = match field_at(s, f3, geo_name.as_slice()) {
        Ok(x) => x,
        Err(e) => {
            return Err(e);
        },
    };
    let (geo, p3) = match geo_object(s, g0) {
        Ok(x) => x,
        Err(e) => {
            return Err(e);
        },
    };
    let c3 = ws(s, p3);
    if c3 >= n || s[c3] != 44 {
        return Err(Error::MalformedJson);
    }
    let f4 = ws(s, c3 + 1);
    let value_name: [u8; 5] = [118, 97, 108, 117, 101];
    proof {
        assert(value_name@ =~= value_lit());
    }
    let (vcs, vce, p4) = match field_string(s, f4, value_name.as_slice()) {
        Ok(x) => x,
        Err(e) => {
            return Err(e);
        },
    };
    let value = match de_string_to_sensor_value(slice_subrange(s, vcs, vce)) {
        Ok(v) => v,
        Err(e) => {
            return Err(e);
        },
    };
    let c4 = ws(s, p4);
    if c4 >= n || s[c4] != 44 {
        return Err(Error::MalformedJson);
    }
    let f5 = ws(s, c4 + 1);
    let ts_name: [u8; 9] = [116, 105, 109, 101, 115, 116, 97, 109, 112];
    proof {
        assert(ts_name@ =~= timestamp_lit());
    }
    let (ts, p5) = match field_num(s, f5, ts_name.as_slice(), 0xffff_ffff_ffff_ffff) {
        Ok(x) => x,
        Err(e) => {
            return Err(e);
        },
    };
    let c5 = ws(s, p5);
    if c5 >= n || s[c5] != 125 {
        return Err(Error::MalformedJson);
    }
    Ok(
        (
            SensorData { id: id as u32, type_: ty, geolocation: geo, value, timestamp: ts },
            c5 + 1,
        ),
    )
}

/// The records of a non-empty array, read from the start of the first
/// record at `i` to the closing bracket; yields the records and the
/// position after the bracket.
pub open spec fn spec_batch_rest(s: Seq<u8>, i: int) -> Result<(Seq<SensorData>, int), Error>
    decreases s.len() - i,
        via spec_batch_rest_decreases
{
    match spec_record(s, i) {
        Err(e) => Err(e),
        Ok((d, p)) => {
            let j = skip_ws(s, p);
            if j < s.len() && s[j] == 44 {
                match spec_batch_rest(s, skip_ws(s, j + 1)) {
                    Err(e) => Err(e),
                    Ok((ds, q)) => Ok((seq![d] + ds, q)),
                }
            } else if j < s.len() && s[j] == 93 {
                Ok((seq![d], j + 1))
            } else {
                Err(Error::MalformedJson)
            }
        },
    }
}

#[via_fn]
proof fn spec_batch_rest_decreases(s: Seq<u8>, i: int) {
    lemma_record_advances(s, i);
    match spec_record(s, i) {
        Ok((d, p)) => {
            lemma_skip_ws(s, p);
            let j = skip_ws(s, p);
            if j < s.len() && s[j] == 44 {
                lemma_skip_ws(s, j + 1);
            }
        },
        Err(_) => {},
    }
}

/// The whole response body as a batch: a JSON array of sensor objects with
/// nothing but whitespace around it. The empty array is a valid empty batch.
pub open spec fn spec_parse_batch(s: Seq<u8>) -> Result<Seq<SensorData>, Error> {
    let j = skip_ws(s, 0);
    if !(j < s.len() && s[j] == 91) {
        Err(Error::MalformedJson)
    } else {
        let j2 = skip_ws(s, j + 1);
        if j2 < s.len() && s[j2] == 93 {
            if skip_ws(s, j2 + 1) == s.len() {
                Ok(Seq::<SensorData>::empty())
            } else {
                Err(Error::MalformedJson)
            }
        } else {
            match spec_batch_rest(s, j2) {
                Err(e) => Err(e),
                Ok((ds, q)) => if skip_ws(s, q) == s.len() {
                    Ok(ds)
                } else {
                    Err(Error::MalformedJson)
                },
            }
        }
    }
}

/// Prefixing already-parsed records onto the outcome of the remainder of
/// the array.
spec fn spec_prepend(pre: Seq<SensorData>, r: Result<(Seq<SensorData>, int), Error>) -> Result<
    (Seq<SensorData>, int),
    Error,
> {
    match r {
        Ok((ds, q)) => Ok((pre + ds, q)),
        Err(e) => Err(e),
    }
}

/// Parses a batch of sensor records from the raw bytes of a response body.
///
/// Returns every record of the array, in order, exactly when the bytes
/// follow the schema; the batch fails as a whole on the first fault:
/// `MalformedJson` for a structural fault, `UnknownSensorKind` for a kind
/// string that matches none of the four names, `InvalidSensorValue` for a
/// value string that is neither a boolean nor a `u32` numeral.
pub fn parse_batch(s: &[u8]) -> (r: Result<Vec<SensorData>, Error>)
    ensures
        (match r {
            Ok(v) => spec_parse_batch(s@) == Ok::<Seq<SensorData>, Error>(v@),
            Err(e) => spec_parse_batch(s@) == Err::<Seq<SensorData>, Error>(e),
        }),
{
    let n = s.len();
    let j = ws(s, 0);
    if j >= n || s[j] != 91 {
        return Err(Error::MalformedJson);
    }
    let j2 = ws(s, j + 1);
    if j2 < n && s[j2] == 93 {
        let t = ws(s, j2 + 1);
        if t == n {
            let v: Vec<SensorData> = Vec::new();
            assert(v@ =~= Seq::<SensorData>::empty());
            return Ok(v);
        } else {
            return Err(Error::MalformedJson);
        }
    }
    let ghost first = j2 as int;
    let mut recs: Vec<SensorData> = Vec::new();
    let mut cur: usize = j2;
    proof {
        match spec_batch_rest(s@, first) {
            Ok((ds, q)) => {
                assert(recs@ + ds =~= ds);
            },
            Err(_) => {},
        }
    }
    loop
        invariant
            cur <= s@.len(),
            n == s@.len(),
            spec_batch_rest(s@, first) == spec_prepend(recs@, spec_batch_rest(s@, cur as int)),
            spec_parse_batch(s@) == (match spec_batch_rest(s@, first) {
                Err(e) => Err::<Seq<SensorData>, Error>(e),
                Ok((ds, q)) => if skip_ws(s@, q) == s@.len() {
                    Ok::<Seq<SensorData>, Error>(ds)
                } else {
                    Err::<Seq<SensorData>, Error>(Error::MalformedJson)
                },
            }),
        decreases s@.len() - cur,
    {
        let (d, p) = match record(s, cur) {
            Ok(x) => x,
            Err(e) => {
                return Err(e);
            },
        };
        let j3 = ws(s, p);
        if j3 < n && s[j3] == 44 {
            let next = ws(s, j3 + 1);
            proof {
                match spec_batch_rest(s@, next as int) {
                    Ok((ds, q)) => {
                        assert(recs@ + (seq![d] + ds) =~= recs@.push(d) + ds);
                    },
                    Err(_) => {},
                }
            }
            recs.push(d);
            cur = next;
        } else if j3 < n && s[j3] == 93 {
            proof {
                assert(spec_batch_rest(s@, cur as int) == Ok::<(Seq<SensorData>, int), Error>(
                    (seq![d], j3 + 1),
                ));
                assert(recs@ + seq![d] =~= recs@.push(d));
            }
            recs.push(d);
            let t = ws(s, j3 + 1);
            if t == n {
                return Ok(recs);
            } else {
                return Err(Error::MalformedJson);
            }
        } else {
            return Err(Error::MalformedJson);
        }
    }
}

/// A geolocation object with nothing but whitespace around it.
pub open spec fn spec_de_geolocation(s: Seq<u8>) -> Result<Geolocation, Error> {
    let j = skip_ws(s, 0);
    match spec_geo(s, j) {
        Err(e) => Err(e),
        Ok((g, p)) => if skip_ws(s, p) == s.len() {
            Ok(g)
        } else {
            Err(Error::MalformedJson)
        },
    }
}

/// Decodes a standalone geolocation object:
/// `{ "lat": <uint>, "lon": <uint> }` with nothing but whitespace around it.
pub fn de_string_to_geolocation(s: &[u8]) -> (r: Result<Geolocation, Error>)
    ensures
        r == spec_de_geolocation(s@),
{
    let j = ws(s, 0);
    match geo_object(s, j) {
        Err(e) => Err(e),
        Ok((g, p)) => {
            let t = ws(s, p);
            if t == s.len() {
                Ok(g)
            } else {
                Err(Error::MalformedJson)
            }
        },
    }
}

} // verus!

