//! The timestamp extension: byte layouts of an instant and the range of what a date can hold.
use vstd::prelude::*;

verus! {

/// The extension tag that MessagePack reserves for timestamps.
pub const TIMESTAMP_TAG: i8 = -1;

/// Seconds since the epoch of the first instant a date can hold: the start of the year -262143.
pub const MIN_SECONDS: i64 = -8_334_601_228_800;

/// Seconds since the epoch of the last second a date can hold: the end of the year 262142.
pub const MAX_SECONDS: i64 = 8_210_266_876_799;

/// An instant in UTC: whole seconds since 1970-01-01T00:00:00Z and the nanoseconds past them.
///
/// During a leap second `nanos` runs from 1_000_000_000 up to 1_999_999_999.
#[derive(Clone, Copy, Debug, PartialEq, Eq, Structural)]
pub struct Timestamp {
    pub seconds: i64,
    pub nanos: u32,
}

/// Whether a date can hold the instant `seconds` and `nanos`.
///
/// The seconds must fall within the years -262143 to 262142, and the nanoseconds may pass one
/// second only in the last second of a minute, where a leap second would stand.
pub open spec fn instant_in_range(seconds: int, nanos: int) -> bool {
    &&& MIN_SECONDS <= seconds <= MAX_SECONDS
    &&& 0 <= nanos < 2_000_000_000
    &&& (nanos >= 1_000_000_000 ==> seconds % 60 == 59)
}

impl Timestamp {
    /// The instant at `seconds` and `nanos` past the epoch, where a date can hold it.
    pub fn new(seconds: i64, nanos: u32) -> (r: Option<Timestamp>)
        ensures
            r == (if instant_in_range(seconds as int, nanos as int) {
                Some(Timestamp { seconds, nanos })
            } else {
                None
            }),
    {
        utc_instant(seconds, nanos)
    }

    /// Whether a date can hold this instant.
    pub open spec fn in_range_spec(self) -> bool {
        instant_in_range(self.seconds as int, self.nanos as int)
    }

    /// Whether a date can hold this instant.
    pub fn in_range(&self) -> (r: bool)
        ensures
            r == self.in_range_spec(),
    {
        if self.seconds < MIN_SECONDS || self.seconds > MAX_SECONDS {
            return false;
        }
        if self.nanos < 1_000_000_000 {
            return true;
        }
        if self.nanos >= 2_000_000_000 {
            return false;
        }
        if self.seconds >= 0 {
            self.seconds % 60 == 59
        } else {
            let back: i64 = -(self.seconds + 1);
            back % 60 == 0
        }
    }
}

/// Calls `chrono::DateTime::from_timestamp` and reads the instant back.
///
/// Trusted: the call succeeds exactly on the instants of [`instant_in_range`], and the date it
/// makes then holds the seconds and nanoseconds it was given.
#[verifier::external_body]
fn utc_instant(seconds: i64, nanos: u32) -> (r: Option<Timestamp>)
    ensures
        r == (if instant_in_range(seconds as int, nanos as int) {
            Some(Timestamp { seconds, nanos })
        } else {
            None
        }),
{
    let date = chrono::DateTime::from_timestamp(seconds, nanos)?;
    Some(Timestamp { seconds: date.timestamp(), nanos: date.timestamp_subsec_nanos() })
}

/// The unsigned number that four bytes spell in big-endian order, starting at `at`.
pub open spec fn be_u32_at(bytes: Seq<u8>, at: int) -> int {
    bytes[at] * 0x100_0000 + bytes[at + 1] * 0x1_0000 + bytes[at + 2] * 0x100 + bytes[at + 3]
}

/// The unsigned number that eight bytes spell in big-endian order, starting at `at`.
pub open spec fn be_u64_at(bytes: Seq<u8>, at: int) -> int {
    be_u32_at(bytes, at) * 0x1_0000_0000 + be_u32_at(bytes, at + 4)
}

/// The signed number that eight bytes spell in big-endian two's complement, starting at `at`.
pub open spec fn be_i64_at(bytes: Seq<u8>, at: int) -> int {
    let word = be_u64_at(bytes, at);
    if word >= 0x8000_0000_0000_0000 {
        word - 0x1_0000_0000_0000_0000
    } else {
        word
    }
}

/// The four bytes that spell `value` in big-endian order.
pub open spec fn be_bytes_u32(value: int) -> Seq<u8> {
    seq![
        (value / 0x100_0000 % 0x100) as u8,
        (value / 0x1_0000 % 0x100) as u8,
        (value / 0x100 % 0x100) as u8,
        (value % 0x100) as u8,
    ]
}

/// The eight bytes that spell `value` in big-endian two's complement.
pub open spec fn be_bytes_i64(value: int) -> Seq<u8> {
    let word = if value < 0 {
        value + 0x1_0000_0000_0000_0000
    } else {
        value
    };
    be_bytes_u32(word / 0x1_0000_0000) + be_bytes_u32(word % 0x1_0000_0000)
}

/// The seconds and nanoseconds that a timestamp payload spells, by its length; `None` for a
/// length that is none of 4, 8 and 12.
///
/// Four bytes are the seconds. Eight bytes are one word, whose upper 30 bits are the nanoseconds
/// and whose lower 34 bits are the seconds. Twelve bytes are the nanoseconds in four bytes and
/// then the signed seconds in eight.
pub open spec fn payload_instant(payload: Seq<u8>) -> Option<(int, int)> {
    if payload.len() == 4 {
        Some((be_u32_at(payload, 0), 0))
    } else if payload.len() == 8 {
        Some((be_u64_at(payload, 0) % 0x4_0000_0000, be_u64_at(payload, 0) / 0x4_0000_0000))
    } else if payload.len() == 12 {
        Some((be_i64_at(payload, 4), be_u32_at(payload, 0)))
    } else {
        None
    }
}

/// The payload that spells an instant in the shortest of the layouts that are written: four
/// bytes where the seconds fit 32 unsigned bits and no nanoseconds are left over, else twelve.
pub open spec fn instant_payload(seconds: int, nanos: int) -> Seq<u8> {
    if 0 <= seconds <= u32::MAX && nanos == 0 {
        be_bytes_u32(seconds)
    } else {
        be_bytes_u32(nanos) + be_bytes_i64(seconds)
    }
}

/// Reads four bytes in big-endian order.
pub fn read_be_u32(bytes: &[u8], at: usize) -> (r: u32)
    requires
        at + 4 <= bytes@.len(),
    ensures
        r == be_u32_at(bytes@, at as int),
{
    let b0: u32 = bytes[at] as u32;
    let b1: u32 = bytes[at + 1] as u32;
    let b2: u32 = bytes[at + 2] as u32;
    let b3: u32 = bytes[at + 3] as u32;
    b0 * 0x100_0000 + b1 * 0x1_0000 + b2 * 0x100 + b3
}

/// Reads eight bytes in big-endian order.
pub fn read_be_u64(bytes: &[u8], at: usize) -> (r: u64)
    requires
        at + 8 <= bytes@.len(),
    ensures
        r == be_u64_at(bytes@, at as int),
{
    let total: usize = bytes.len();
    assert(at + 8 <= total);
    let high: u64 = read_be_u32(bytes, at) as u64;
    let low: u64 = read_be_u32(bytes, at + 4) as u64;
    high * 0x1_0000_0000 + low
}

/// Reads eight bytes as a signed number in big-endian two's complement.
pub fn read_be_i64(bytes: &[u8], at: usize) -> (r: i64)
    requires
        at + 8 <= bytes@.len(),
    ensures
        r == be_i64_at(bytes@, at as int),
{
    let word: u64 = read_be_u64(bytes, at);
    if word >= 0x8000_0000_0000_0000 {
        let below: u64 = u64::MAX - word;
        -(below as i64) - 1
    } else {
        word as i64
    }
}

/// Appends the four bytes that spell `value` in big-endian order.
fn push_be_u32(out: &mut Vec<u8>, value: u32)
    ensures
        final(out)@ == old(out)@ + be_bytes_u32(value as int),
{
    out.push((value / 0x100_0000) as u8);
    out.push((value / 0x1_0000 % 0x100) as u8);
    out.push((value / 0x100 % 0x100) as u8);
    out.push((value % 0x100) as u8);
    assert(out@ =~= old(out)@ + be_bytes_u32(value as int));
}

/// Appends the eight bytes that spell `value` in big-endian two's complement.
fn push_be_i64(out: &mut Vec<u8>, value: i64)
    ensures
        final(out)@ == old(out)@ + be_bytes_i64(value as int),
{
    let word: u64 = if value < 0 {
        u64::MAX - ((-(value + 1)) as u64)
    } else {
        value as u64
    };
    push_be_u32(out, (word / 0x1_0000_0000) as u32);
    push_be_u32(out, (word % 0x1_0000_0000) as u32);
    assert(out@ =~= old(out)@ + be_bytes_i64(value as int));
}

/// The payload of the timestamp extension for an instant, in the shortest layout that is
/// written: four bytes, or twelve. The eight-byte layout is read and never written.
pub fn timestamp_payload(instant: Timestamp) -> (payload: Vec<u8>)
    ensures
        payload@ == instant_payload(instant.seconds as int, instant.nanos as int),
{
    let mut payload: Vec<u8> = Vec::new();
    if 0 <= instant.seconds && instant.seconds <= 0xFFFF_FFFF && instant.nanos == 0 {
        push_be_u32(&mut payload, instant.seconds as u32);
    } else {
        push_be_u32(&mut payload, instant.nanos);
        push_be_i64(&mut payload, instant.seconds);
    }
    assert(payload@ =~= instant_payload(instant.seconds as int, instant.nanos as int));
    payload
}

/// Four bytes written for a number spell that number again.
pub proof fn lemma_be_u32_round_trip(value: int)
    requires
        0 <= value <= u32::MAX,
    ensures
        be_bytes_u32(value).len() == 4,
        be_u32_at(be_bytes_u32(value), 0) == value,
{
    let x = value as u32;
    assert(x == (x / 0x100_0000 % 0x100) * 0x100_0000 + (x / 0x1_0000 % 0x100) * 0x1_0000 + (x
        / 0x100 % 0x100) * 0x100 + x % 0x100) by (bit_vector);
}

/// Eight bytes written for a signed number spell that number again.
pub proof fn lemma_be_i64_round_trip(value: int)
    requires
        i64::MIN <= value <= i64::MAX,
    ensures
        be_bytes_i64(value).len() == 8,
        be_i64_at(be_bytes_i64(value), 0) == value,
{
    let word: int = if value < 0 {
        value + 0x1_0000_0000_0000_0000
    } else {
        value
    };
    let high = word / 0x1_0000_0000;
    let low = word % 0x1_0000_0000;
    lemma_be_u32_round_trip(high);
    lemma_be_u32_round_trip(low);
    let bytes = be_bytes_i64(value);
    assert(be_u32_at(bytes, 0) == be_u32_at(be_bytes_u32(high), 0));
    assert(be_u32_at(bytes, 4) == be_u32_at(be_bytes_u32(low), 0));
}

/// The number that four bytes spell is written as those four bytes.
pub proof fn lemma_be_u32_canonical(bytes: Seq<u8>, at: int)
    requires
        0 <= at,
        at + 4 <= bytes.len(),
    ensures
        0 <= be_u32_at(bytes, at) <= u32::MAX,
        be_bytes_u32(be_u32_at(bytes, at)) == bytes.subrange(at, at + 4),
{
    let b0 = bytes[at];
    let b1 = bytes[at + 1];
    let b2 = bytes[at + 2];
    let b3 = bytes[at + 3];
    let x: u32 = (b0 as u32 * 0x100_0000 + b1 as u32 * 0x1_0000 + b2 as u32 * 0x100
        + b3 as u32) as u32;
    assert(x == be_u32_at(bytes, at));
    assert(x / 0x100_0000 % 0x100 == b0 && x / 0x1_0000 % 0x100 == b1 && x / 0x100 % 0x100 == b2
        && x % 0x100 == b3) by (bit_vector)
        requires
            x == b0 as u32 * 0x100_0000 + b1 as u32 * 0x1_0000 + b2 as u32 * 0x100 + b3 as u32,
    ;
    assert(be_bytes_u32(be_u32_at(bytes, at)) =~= bytes.subrange(at, at + 4));
}

/// The signed number that eight bytes spell is written as those eight bytes.
pub proof fn lemma_be_i64_canonical(bytes: Seq<u8>, at: int)
    requires
        0 <= at,
        at + 8 <= bytes.len(),
    ensures
        i64::MIN <= be_i64_at(bytes, at) <= i64::MAX,
        be_bytes_i64(be_i64_at(bytes, at)) == bytes.subrange(at, at + 8),
{
    lemma_be_u32_canonical(bytes, at);
    lemma_be_u32_canonical(bytes, at + 4);
    let high = be_u32_at(bytes, at);
    let low = be_u32_at(bytes, at + 4);
    let word = be_u64_at(bytes, at);
    assert(word / 0x1_0000_0000 == high && word % 0x1_0000_0000 == low);
    assert(be_bytes_i64(be_i64_at(bytes, at)) =~= bytes.subrange(at, at + 4) + bytes.subrange(
        at + 4,
        at + 8,
    ));
    assert(bytes.subrange(at, at + 4) + bytes.subrange(at + 4, at + 8) =~= bytes.subrange(
        at,
        at + 8,
    ));
}

/// An instant is written in four bytes exactly when its seconds fit 32 unsigned bits and it has
/// no nanoseconds, and in twelve bytes otherwise; the payload spells the instant again.
pub proof fn lemma_instant_payload(seconds: int, nanos: int)
    requires
        i64::MIN <= seconds <= i64::MAX,
        0 <= nanos <= u32::MAX,
    ensures
        0 <= seconds <= u32::MAX && nanos == 0 ==> instant_payload(seconds, nanos).len() == 4,
        !(0 <= seconds <= u32::MAX && nanos == 0) ==> instant_payload(seconds, nanos).len() == 12,
        payload_instant(instant_payload(seconds, nanos)) == Some((seconds, nanos)),
{
    if 0 <= seconds <= u32::MAX && nanos == 0 {
        lemma_be_u32_round_trip(seconds);
    } else {
        lemma_be_u32_round_trip(nanos);
        lemma_be_i64_round_trip(seconds);
        let payload = instant_payload(seconds, nanos);
        assert(be_u32_at(payload, 0) == be_u32_at(be_bytes_u32(nanos), 0));
        assert(be_u32_at(payload, 4) == be_u32_at(be_bytes_i64(seconds), 0));
        assert(be_u32_at(payload, 8) == be_u32_at(be_bytes_i64(seconds), 4));
    }
}

/// Whether a payload is the one that is written for the instant it spells: four bytes, or
/// twelve bytes for an instant that four bytes cannot hold.
pub open spec fn payload_is_shortest(payload: Seq<u8>) -> bool {
    match payload_instant(payload) {
        None => false,
        Some((seconds, nanos)) => payload.len() == 4 || (payload.len() == 12 && !(0 <= seconds
            <= u32::MAX && nanos == 0)),
    }
}

/// A payload in the shortest layout is the payload written for the instant it spells.
pub proof fn lemma_shortest_payload(payload: Seq<u8>)
    requires
        payload_is_shortest(payload),
    ensures
        payload_instant(payload) matches Some((seconds, nanos)) && instant_payload(seconds, nanos)
            == payload,
{
    if payload.len() == 4 {
        lemma_be_u32_canonical(payload, 0);
        assert(payload.subrange(0, 4) =~= payload);
    } else {
        lemma_be_u32_canonical(payload, 0);
        lemma_be_i64_canonical(payload, 4);
        assert(payload.subrange(0, 4) + payload.subrange(4, 12) =~= payload);
    }
}

} // verus!
