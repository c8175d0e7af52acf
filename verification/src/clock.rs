//! Fresh identifiers and the current time, the two values a new record takes from outside, and
//! how an identifier is written.

use vstd::prelude::*;
use crate::text::hex_digit_spec;

verus! {

/// A fresh random (version 4) UUID, as its 128-bit big-endian value: `uuid::Uuid::new_v4`.
///
/// The value is random; what holds of every outcome is the version nibble (4) and the RFC 4122
/// variant bits (`10`), which `new_v4` sets on every value it returns.
#[verifier::external_body]
pub fn new_uuid() -> (r: u128)
    ensures
        (r >> 76u128) & 0xfu128 == 4,
        (r >> 62u128) & 0x3u128 == 2,
{
    uuid::Uuid::new_v4().as_u128()
}

#[verifier::external_type_specification]
#[verifier::external_body]
pub struct ExSystemTime(std::time::SystemTime);

/// `std::time::SystemTime::now`: the machine's clock. Nothing is stated of the value.
#[verifier::external_body]
fn system_now() -> (r: std::time::SystemTime) {
    std::time::SystemTime::now()
}

/// `SystemTime::duration_since(UNIX_EPOCH)`: how long after the Unix epoch `t` is, and nothing
/// when `t` is before it. Which it is depends on the clock and is not stated.
#[verifier::external_body]
fn since_unix_epoch(t: &std::time::SystemTime) -> (r: Option<core::time::Duration>) {
    t.duration_since(std::time::UNIX_EPOCH).ok()
}

/// `Duration::as_micros`: the whole microseconds of a duration. The duration is opaque here,
/// so nothing is stated of the value.
#[verifier::external_body]
fn duration_micros(d: &core::time::Duration) -> (r: u128) {
    d.as_micros()
}

/// A clock reading of `us` microseconds since the Unix epoch as an `i64`: the same number when it
/// fits, and nothing when it is later than `i64` microseconds reach.
pub fn micros_reading(us: u128) -> (r: Option<i64>)
    ensures
        r is Some <==> us <= i64::MAX,
        r matches Some(v) ==> v == us,
{
    if us <= 0x7fff_ffff_ffff_ffffu128 {
        Some(us as i64)
    } else {
        None
    }
}

/// The current time, in microseconds since the Unix epoch; nothing when the machine's clock
/// reads before the epoch, or later than `i64` microseconds reach. What holds of every reading
/// is that it is not before the epoch.
pub fn now_micros() -> (r: Option<i64>)
    ensures
        r matches Some(v) ==> v >= 0,
{
    let t = system_now();
    match since_unix_epoch(&t) {
        Some(d) => micros_reading(duration_micros(&d)),
        None => None,
    }
}

/// The `k`-th hexadecimal digit of a 128-bit value, most significant first.
pub open spec fn uuid_nibble(id: u128, k: int) -> u8 {
    ((id >> ((31 - k) * 4) as u128) & 0xfu128) as u8
}

/// A UUID as its `Display` writes it: the 32 lower-case hexadecimal digits of its big-endian
/// value, hyphenated 8-4-4-4-12.
pub open spec fn uuid_text(id: u128) -> Seq<char> {
    Seq::new(
        36,
        |i: int|
            if i == 8 || i == 13 || i == 18 || i == 23 {
                '-'
            } else {
                let k = if i < 8 {
                    i
                } else if i < 13 {
                    i - 1
                } else if i < 18 {
                    i - 2
                } else if i < 23 {
                    i - 3
                } else {
                    i - 4
                };
                hex_digit_spec(uuid_nibble(id, k), false)
            },
    )
}

/// `uuid::Uuid::from_u128(id)` written by its `Display`, which is its lower-case hyphenated form
/// ([`uuid_text`]).
#[verifier::external_body]
pub(crate) fn uuid_text_of(id: u128) -> (r: String)
    ensures
        r@ == uuid_text(id),
{
    uuid::Uuid::from_u128(id).to_string()
}

} // verus!
