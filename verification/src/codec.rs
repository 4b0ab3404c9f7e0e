//! String forms of the sensor enumerations, as the external JSON schema
//! encodes them: the four kind names, and values written as `"true"`,
//! `"false"` or an unsigned decimal numeral.

use vstd::prelude::*;
use vstd::slice::slice_to_vec;

use crate::types::Error;
use crate::types::SensorType;
use crate::types::SensorValue;

verus! {

/// The bytes of "Humidity".
pub open spec fn humidity_name() -> Seq<u8> {
    seq![72u8, 117u8, 109u8, 105u8, 100u8, 105u8, 116u8, 121u8]
}

/// The bytes of "Pressure".
pub open spec fn pressure_name() -> Seq<u8> {
    seq![80u8, 114u8, 101u8, 115u8, 115u8, 117u8, 114u8, 101u8]
}

/// The bytes of "Temperature".
pub open spec fn temperature_name() -> Seq<u8> {
    seq![84u8, 101u8, 109u8, 112u8, 101u8, 114u8, 97u8, 116u8, 117u8, 114u8, 101u8]
}

/// The bytes of "Digital".
pub open spec fn digital_name() -> Seq<u8> {
    seq![68u8, 105u8, 103u8, 105u8, 116u8, 97u8, 108u8]
}

/// The bytes of "true".
pub open spec fn true_lit() -> Seq<u8> {
    seq![116u8, 114u8, 117u8, 101u8]
}

/// The bytes of "false".
pub open spec fn false_lit() -> Seq<u8> {
    seq![102u8, 97u8, 108u8, 115u8, 101u8]
}

/// The string form of each sensor kind.
pub open spec fn spec_sensor_type_name(t: SensorType) -> Seq<u8> {
    match t {
        SensorType::Humidity => humidity_name(),
        SensorType::Pressure => pressure_name(),
        SensorType::Temperature => temperature_name(),
        SensorType::Digital => digital_name(),
    }
}

/// Decoding a kind string: exactly one of the four names (case-sensitive),
/// anything else is `UnknownSensorKind` — never a default.
pub open spec fn spec_de_sensor_type(s: Seq<u8>) -> Result<SensorType, Error> {
    if s == humidity_name() {
        Ok(SensorType::Humidity)
    } else if s == pressure_name() {
        Ok(SensorType::Pressure)
    } else if s == temperature_name() {
        Ok(SensorType::Temperature)
    } else if s == digital_name() {
        Ok(SensorType::Digital)
    } else {
        Err(Error::UnknownSensorKind)
    }
}

/// Is `b` the code of a decimal digit?
pub open spec fn is_digit(b: u8) -> bool {
    48 <= b && b <= 57
}

/// Is every byte of `s` a decimal digit?
pub open spec fn all_digits(s: Seq<u8>) -> bool {
    forall|i: int| 0 <= i < s.len() ==> is_digit(s[i])
}

/// The value of `s` read as a decimal numeral, most significant digit first.
pub open spec fn digits_val(s: Seq<u8>) -> int
    decreases s.len(),
{
    if s.len() == 0 {
        0
    } else {
        digits_val(s.drop_last()) * 10 + (s.last() - 48)
    }
}

/// Decoding a value string: `"true"` and `"false"` are booleans; any other
/// string must be a decimal numeral that fits `u32`, else the record fails
/// with `InvalidSensorValue` — never a default.
pub open spec fn spec_de_sensor_value(s: Seq<u8>) -> Result<SensorValue, Error> {
    if s == true_lit() {
        Ok(SensorValue::Bool(true))
    } else if s == false_lit() {
        Ok(SensorValue::Bool(false))
    } else if s.len() > 0 && all_digits(s) && digits_val(s) <= u32::MAX {
        Ok(SensorValue::Number(digits_val(s) as u32))
    } else {
        Err(Error::InvalidSensorValue)
    }
}

/// Byte-for-byte equality of two slices.
fn bytes_eq(a: &[u8], b: &[u8]) -> (r: bool)
    ensures
        r == (a@ == b@),
{
    if a.len() != b.len() {
        return false;
    }
    let mut i: usize = 0;
    while i < a.len()
        invariant
            i <= a@.len(),
            a@.len() == b@.len(),
            forall|j: int| 0 <= j < i ==> a@[j] == b@[j],
        decreases a@.len() - i,
    {
        if a[i] != b[i] {
            return false;
        }
        i += 1;
    }
    proof {
        assert(a@ =~= b@);
    }
    true
}

/// The string form of a sensor kind, for encoding a record back into the
/// external schema.
pub fn sensor_type_name(t: SensorType) -> (r: Vec<u8>)
    ensures
        r@ == spec_sensor_type_name(t),
{
    match t {
        SensorType::Humidity => {
            let arr: [u8; 8] = [72, 117, 109, 105, 100, 105, 116, 121];
            let v = slice_to_vec(arr.as_slice());
            proof {
                assert(v@ =~= humidity_name());
            }
            v
        },
        SensorType::Pressure => {
            let arr: [u8; 8] = [80, 114, 101, 115, 115, 117, 114, 101];
            let v = slice_to_vec(arr.as_slice());
            proof {
                assert(v@ =~= pressure_name());
            }
            v
        },
        SensorType::Temperature => {
            let arr: [u8; 11] = [84, 101, 109, 112, 101, 114, 97, 116, 117, 114, 101];
            let v = slice_to_vec(arr.as_slice());
            proof {
                assert(v@ =~= temperature_name());
            }
            v
        },
        SensorType::Digital => {
            let arr: [u8; 7] = [68, 105, 103, 105, 116, 97, 108];
            let v = slice_to_vec(arr.as_slice());
            proof {
                assert(v@ =~= digital_name());
            }
            v
        },
    }
}

/// Decodes a kind string: one of the four kind names, or
/// `UnknownSensorKind`.
pub fn de_string_to_sensor_type(s: &[u8]) -> (r: Result<SensorType, Error>)
    ensures
        r == spec_de_sensor_type(s@),
{
    let hum: [u8; 8] = [72, 117, 109, 105, 100, 105, 116, 121];
    proof {
        assert(hum@ =~= humidity_name());
    }
    if bytes_eq(s, hum.as_slice()) {
        return Ok(SensorType::Humidity);
    }
    let pre: [u8; 8] = [80, 114, 101, 115, 115, 117, 114, 101];
    proof {
        assert(pre@ =~= pressure_name());
    }
    if bytes_eq(s, pre.as_slice()) {
        return Ok(SensorType::Pressure);
    }
    let tem: [u8; 11] = [84, 101, 109, 112, 101, 114, 97, 116, 117, 114, 101];
    proof {
        assert(tem@ =~= temperature_name());
    }
    if bytes_eq(s, tem.as_slice()) {
        return Ok(SensorType::Temperature);
    }
    let dig: [u8; 7] = [68, 105, 103, 105, 116, 97, 108];
    proof {
        assert(dig@ =~= digital_name());
    }
    if bytes_eq(s, dig.as_slice()) {
        return Ok(SensorType::Digital);
    }
    Err(Error::UnknownSensorKind)
}

/// The value of an all-digit numeral is never negative.
pub(crate) proof fn lemma_digits_val_nonneg(s: Seq<u8>)
    requires
        all_digits(s),
    ensures
        digits_val(s) >= 0,
    decreases s.len(),
{
    if s.len() > 0 {
        let s0 = s.drop_last();
        assert(all_digits(s0)) by {
            assert(forall|k: int| 0 <= k < s0.len() ==> s0[k] == s[k]);
        }
        lemma_digits_val_nonneg(s0);
        assert(is_digit(s.last()));
    }
}

/// An all-digit numeral keeps or grows its value as digits are appended on
/// the right.
pub(crate) proof fn lemma_digits_val_mono(s: Seq<u8>, j: int)
    requires
        0 <= j <= s.len(),
        all_digits(s),
    ensures
        digits_val(s) >= digits_val(s.subrange(0, j)),
    decreases s.len() - j,
{
    if j == s.len() {
        assert(s.subrange(0, j) =~= s);
    } else {
        let s0 = s.drop_last();
        assert(all_digits(s0)) by {
            assert(forall|k: int| 0 <= k < s0.len() ==> s0[k] == s[k]);
        }
        assert(is_digit(s.last()));
        lemma_digits_val_mono(s0, j);
        lemma_digits_val_nonneg(s0);
        assert(s0.subrange(0, j) =~= s.subrange(0, j));
        assert(digits_val(s) == digits_val(s0) * 10 + (s.last() - 48));
        assert(digits_val(s0) * 10 >= digits_val(s0));
    }
}

/// Decodes a value string: `"true"`, `"false"`, or a decimal numeral that
/// fits `u32`; anything else is `InvalidSensorValue`.
pub fn de_string_to_sensor_value(s: &[u8]) -> (r: Result<SensorValue, Error>)
    ensures
        r == spec_de_sensor_value(s@),
{
    let tru: [u8; 4] = [116, 114, 117, 101];
    proof {
        assert(tru@ =~= true_lit());
    }
    if bytes_eq(s, tru.as_slice()) {
        return Ok(SensorValue::Bool(true));
    }
    let fal: [u8; 5] = [102, 97, 108, 115, 101];
    proof {
        assert(fal@ =~= false_lit());
    }
    if bytes_eq(s, fal.as_slice()) {
        return Ok(SensorValue::Bool(false));
    }
    if s.len() == 0 {
        return Err(Error::InvalidSensorValue);
    }
    let mut acc: u64 = 0;
    let mut i: usize = 0;
    while i < s.len()
        invariant
            i <= s@.len(),
            s@.len() > 0,
            s@ != true_lit(),
            s@ != false_lit(),
            acc <= u32::MAX,
            acc == digits_val(s@.subrange(0, i as int)),
            forall|j: int| 0 <= j < i ==> is_digit(s@[j]),
        decreases s@.len() - i,
    {
        let b = s[i];
        if b < 48 || b > 57 {
            return Err(Error::InvalidSensorValue);
        }
        proof {
            assert(s@.subrange(0, i + 1).drop_last() =~= s@.subrange(0, i as int));
            assert(s@.subrange(0, i + 1).last() == s@[i as int]);
        }
        acc = acc * 10 + ((b - 48) as u64);
        i += 1;
        if acc > 0xffff_ffff {
            proof {
                if all_digits(s@) {
                    lemma_digits_val_mono(s@, i as int);
                }
            }
            return Err(Error::InvalidSensorValue);
        }
    }
    proof {
        assert(s@.subrange(0, s@.len() as int) =~= s@);
    }
    Ok(SensorValue::Number(acc as u32))
}

/// Law: round trip. Encoding any sensor kind to its string form and decoding
/// it back yields the original kind.
pub proof fn lemma_sensor_type_round_trip(t: SensorType)
    ensures
        spec_de_sensor_type(spec_sensor_type_name(t)) == Ok::<SensorType, Error>(t),
{
    assert(pressure_name()[0] != humidity_name()[0]);
    assert(temperature_name().len() != humidity_name().len());
    assert(digital_name().len() != humidity_name().len());
    assert(digital_name().len() != pressure_name().len());
    assert(digital_name().len() != temperature_name().len());
}

} // verus!
