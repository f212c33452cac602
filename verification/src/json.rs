//! JSON text of the leaf values that a feed message is made of.
//!
//! Numbers, strings and instants are rendered by `serde_json` and `chrono`.
//! The three functions that call them, `write_u64`, `write_str` and
//! `write_instant`, are trusted: their contracts say which bytes the call
//! appends, and nothing proves them. Everything else is verified against
//! those contracts.

use vstd::prelude::*;
use vstd::utf8::encode_utf8;

verus! {

/// `[`
pub const OPEN: u8 = 0x5b;

/// `]`
pub const CLOSE: u8 = 0x5d;

/// `,`
pub const COMMA: u8 = 0x2c;

/// `"`
pub const QUOTE: u8 = 0x22;

/// `\`
pub const BACKSLASH: u8 = 0x5c;

/// The decimal digits of `n`, most significant first, without leading zeros.
pub open spec fn decimal(n: nat) -> Seq<u8>
    decreases n,
{
    if n < 10 {
        seq![(0x30 + n) as u8]
    } else {
        decimal(n / 10).push((0x30 + n % 10) as u8)
    }
}

/// The lower-case hexadecimal digit of `n`, for `n < 16`.
pub open spec fn hex_digit(n: nat) -> u8 {
    if n < 10 {
        (0x30 + n) as u8
    } else {
        (0x57 + n) as u8
    }
}

/// How one byte of a string appears between the quotes: `"` and `\` behind a
/// backslash, the control characters as `\b`, `\t`, `\n`, `\f`, `\r` or
/// `\u00XX`, every other byte as it is.
pub open spec fn escaped(b: u8) -> Seq<u8> {
    if b == QUOTE {
        seq![BACKSLASH, QUOTE]
    } else if b == BACKSLASH {
        seq![BACKSLASH, BACKSLASH]
    } else if b == 0x08 {
        seq![BACKSLASH, 0x62]
    } else if b == 0x09 {
        seq![BACKSLASH, 0x74]
    } else if b == 0x0a {
        seq![BACKSLASH, 0x6e]
    } else if b == 0x0c {
        seq![BACKSLASH, 0x66]
    } else if b == 0x0d {
        seq![BACKSLASH, 0x72]
    } else if b < 0x20 {
        seq![BACKSLASH, 0x75, 0x30, 0x30, hex_digit(b as nat / 16), hex_digit(b as nat % 16)]
    } else {
        seq![b]
    }
}

/// The bytes of `text`, each one escaped.
pub open spec fn escaped_text(text: Seq<u8>) -> Seq<u8>
    decreases text.len(),
{
    if text.len() == 0 {
        Seq::empty()
    } else {
        escaped_text(text.drop_last()) + escaped(text.last())
    }
}

/// The JSON string whose content is `text`: the escaped bytes between two quotes.
pub open spec fn json_string(text: Seq<u8>) -> Seq<u8> {
    seq![QUOTE] + escaped_text(text) + seq![QUOTE]
}

/// `null`
pub open spec fn null() -> Seq<u8> {
    seq![0x6e, 0x75, 0x6c, 0x6c]
}

/// The JSON text of an optional number: its digits, or `null`.
pub open spec fn optional(value: Option<u64>) -> Seq<u8> {
    match value {
        Some(n) => decimal(n as nat),
        None => null(),
    }
}

/// The RFC 3339 text that `chrono` gives the instant `secs` seconds and `nanos`
/// nanoseconds after the Unix epoch, in UTC; `None` where `chrono` cannot hold
/// that instant.
pub uninterp spec fn rfc3339(secs: i64, nanos: u32) -> Option<Seq<u8>>;

/// `serde_json::Error`, as the writers below hand it back. Nothing is known of
/// what it holds.
#[verifier::external_type_specification]
#[verifier::external_body]
pub struct ExJsonError(serde_json::Error);

/// `serde_json::to_writer` on a `u64`: appends the decimal digits of `n` to
/// `out`. Writing into a vector cannot fail, so the result is always `Ok`.
#[verifier::external_body]
pub(crate) fn write_u64(out: &mut Vec<u8>, n: u64) -> (r: Result<(), serde_json::Error>)
    ensures
        r is Ok,
        final(out)@ == old(out)@ + decimal(n as nat),
{
    serde_json::to_writer(out, &n)
}

/// `serde_json::to_writer` on a `str`: appends a quote, the UTF-8 bytes of
/// `text` with `"`, `\` and the control characters escaped, and a quote.
/// Writing into a vector cannot fail, so the result is always `Ok`.
#[verifier::external_body]
pub(crate) fn write_str(out: &mut Vec<u8>, text: &str) -> (r: Result<(), serde_json::Error>)
    ensures
        r is Ok,
        final(out)@ == old(out)@ + json_string(encode_utf8(text@)),
{
    serde_json::to_writer(out, text)
}

/// `chrono::DateTime::from_timestamp`, then `serde_json::to_writer` on the
/// `DateTime<Utc>` it made. Where `chrono` has no such instant the result is
/// `None` and `out` is untouched. Otherwise `chrono` formats the instant as
/// RFC 3339 text and `serde_json` appends that text as a JSON string, which
/// cannot fail.
#[verifier::external_body]
pub(crate) fn write_instant(out: &mut Vec<u8>, secs: i64, nanos: u32) -> (r: Option<
    Result<(), serde_json::Error>,
>)
    ensures
        r is Some <==> rfc3339(secs, nanos) is Some,
        r matches Some(written) ==> written is Ok,
        final(out)@ == old(out)@ + match rfc3339(secs, nanos) {
            Some(text) => json_string(text),
            None => Seq::empty(),
        },
{
    match chrono::DateTime::from_timestamp(secs, nanos) {
        Some(instant) => Some(serde_json::to_writer(out, &instant)),
        None => None,
    }
}

/// A payload could not be rendered as JSON.
#[derive(Debug, Clone, Copy, PartialEq, Eq)]
pub struct EncodingError;

/// Appends the decimal digits of `n` to `out`.
pub fn write_number(out: &mut Vec<u8>, n: u64) -> (r: Result<(), EncodingError>)
    ensures
        r is Ok,
        final(out)@ == old(out)@ + decimal(n as nat),
{
    match write_u64(out, n) {
        Ok(()) => Ok(()),
        Err(_) => Err(EncodingError),
    }
}

/// Appends `text` to `out` as a JSON string.
pub fn write_text(out: &mut Vec<u8>, text: &str) -> (r: Result<(), EncodingError>)
    ensures
        r is Ok,
        final(out)@ == old(out)@ + json_string(encode_utf8(text@)),
{
    match write_str(out, text) {
        Ok(()) => Ok(()),
        Err(_) => Err(EncodingError),
    }
}

/// Appends the digits of `value` to `out`, or `null` where there is none.
pub fn write_optional(out: &mut Vec<u8>, value: Option<u64>) -> (r: Result<(), EncodingError>)
    ensures
        r is Ok,
        final(out)@ == old(out)@ + optional(value),
{
    match value {
        Some(n) => write_number(out, n),
        None => {
            out.push(0x6e);
            out.push(0x75);
            out.push(0x6c);
            out.push(0x6c);
            Ok(())
        },
    }
}

/// Appends the instant `secs` seconds and `nanos` nanoseconds after the Unix
/// epoch to `out`, as a JSON string of RFC 3339 text. Fails, and leaves `out`
/// as it was, where `chrono` cannot hold the instant.
pub fn write_timestamp(out: &mut Vec<u8>, secs: i64, nanos: u32) -> (r: Result<(), EncodingError>)
    ensures
        r is Ok <==> rfc3339(secs, nanos) is Some,
        final(out)@ == old(out)@ + match rfc3339(secs, nanos) {
            Some(text) => json_string(text),
            None => Seq::empty(),
        },
{
    match write_instant(out, secs, nanos) {
        Some(Ok(())) => Ok(()),
        Some(Err(_)) => Err(EncodingError),
        None => Err(EncodingError),
    }
}

} // verus!
