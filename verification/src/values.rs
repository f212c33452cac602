//! The texts of numbers and strings as elements of an array.
//!
//! Each of them gets a reader through without ending the array around it, and
//! each tells its value: no two values have the same text.

use vstd::prelude::*;
use crate::json::{decimal, escaped, escaped_text, json_string, null, optional, QUOTE};
use crate::reading::{
    in_string, is_element, lemma_passes_concat, lemma_plain_is_element, passes, run, top,
};

verus! {

/// The digits of a number are digits, and there is at least one.
proof fn lemma_decimal_digits(n: nat)
    ensures
        decimal(n).len() > 0,
        forall|i: int| 0 <= i < decimal(n).len() ==> 0x30 <= #[trigger] decimal(n)[i] <= 0x39,
    decreases n,
{
    if n >= 10 {
        lemma_decimal_digits(n / 10);
    }
}

/// A number is an element.
pub proof fn lemma_decimal_is_element(n: nat)
    ensures
        is_element(decimal(n)),
{
    lemma_decimal_digits(n);
    lemma_plain_is_element(decimal(n));
}

/// The digits tell the number: two numbers with the same digits are the
/// same number.
pub proof fn lemma_decimal_tells_number(a: nat, b: nat)
    requires
        decimal(a) == decimal(b),
    ensures
        a == b,
    decreases a,
{
    lemma_decimal_digits(a / 10);
    lemma_decimal_digits(b / 10);
    if a < 10 && b < 10 {
        assert(decimal(a)[0] == (0x30 + a) as u8);
        assert(decimal(b)[0] == (0x30 + b) as u8);
    } else if a >= 10 && b >= 10 {
        assert(decimal(a / 10) =~= decimal(a).drop_last());
        assert(decimal(b / 10) =~= decimal(b).drop_last());
        assert(decimal(a).last() == (0x30 + a % 10) as u8);
        assert(decimal(b).last() == (0x30 + b % 10) as u8);
        lemma_decimal_tells_number(a / 10, b / 10);
        assert(a % 10 == b % 10);
    } else if a < 10 {
        assert(decimal(a).len() == 1);
        assert(decimal(b).len() >= 2);
    } else {
        assert(decimal(b).len() == 1);
        assert(decimal(a).len() >= 2);
    }
}

/// An optional number is an element.
pub proof fn lemma_optional_is_element(value: Option<u64>)
    ensures
        is_element(optional(value)),
{
    match value {
        Some(n) => lemma_decimal_is_element(n as nat),
        None => lemma_plain_is_element(null()),
    }
}

/// The text of an optional number tells whether there is one, and which.
pub proof fn lemma_optional_tells_value(a: Option<u64>, b: Option<u64>)
    requires
        optional(a) == optional(b),
    ensures
        a == b,
{
    match (a, b) {
        (Some(m), Some(n)) => lemma_decimal_tells_number(m as nat, n as nat),
        (Some(m), None) => {
            lemma_decimal_digits(m as nat);
            assert(decimal(m as nat)[0] != null()[0]);
        },
        (None, Some(n)) => {
            lemma_decimal_digits(n as nat);
            assert(decimal(n as nat)[0] != null()[0]);
        },
        (None, None) => {},
    }
}

/// Inside a string an escaped byte leaves the reader inside the string.
proof fn lemma_escaped_passes(b: u8, depth: int)
    ensures
        passes(in_string(depth), escaped(b), false),
        run(in_string(depth), escaped(b), escaped(b).len() as int) == in_string(depth),
{
    reveal_with_fuel(run, 7);
    let text = escaped(b);
    let at = in_string(depth);
    assert(run(at, text, 0).quoted);
    assert(run(at, text, 1).quoted || text.len() == 1);
    if text.len() == 6 {
        assert(run(at, text, 2).quoted);
        assert(run(at, text, 3).quoted);
        assert(run(at, text, 4).quoted);
        assert(run(at, text, 5).quoted);
    }
}

/// Inside a string an escaped text leaves the reader inside the string.
proof fn lemma_escaped_text_passes(text: Seq<u8>, depth: int)
    ensures
        passes(in_string(depth), escaped_text(text), false),
        run(in_string(depth), escaped_text(text), escaped_text(text).len() as int) == in_string(
            depth,
        ),
    decreases text.len(),
{
    if text.len() > 0 {
        lemma_escaped_text_passes(text.drop_last(), depth);
        lemma_escaped_passes(text.last(), depth);
        lemma_passes_concat(
            in_string(depth),
            escaped_text(text.drop_last()),
            escaped(text.last()),
            false,
        );
    }
}

/// A string is an element, whatever its content.
pub proof fn lemma_string_is_element(text: Seq<u8>)
    ensures
        is_element(json_string(text)),
{
    let quote = seq![QUOTE];
    reveal_with_fuel(run, 2);
    assert(passes(top(), quote, false));
    assert(run(top(), quote, 1) == in_string(0));
    lemma_escaped_text_passes(text, 0);
    lemma_passes_concat(top(), quote, escaped_text(text), false);
    assert(passes(in_string(0), quote, false));
    assert(run(in_string(0), quote, 1) == top());
    lemma_passes_concat(top(), quote + escaped_text(text), quote, false);
}

/// An escaped text begins with its first byte, escaped.
proof fn lemma_escaped_first(text: Seq<u8>)
    requires
        text.len() > 0,
    ensures
        escaped_text(text) == escaped(text[0]) + escaped_text(text.drop_first()),
    decreases text.len(),
{
    if text.len() == 1 {
        assert(escaped_text(text.drop_last()) =~= Seq::<u8>::empty());
        assert(escaped_text(text.drop_first()) =~= Seq::<u8>::empty());
        assert(escaped_text(text) =~= escaped(text[0]) + escaped_text(text.drop_first()));
    } else {
        let init = text.drop_last();
        lemma_escaped_first(init);
        assert(init.drop_first() =~= text.drop_first().drop_last());
        assert(escaped_text(text) =~= escaped(text[0]) + escaped_text(text.drop_first()));
    }
}

/// An escaped byte can be told from how it begins, whatever follows it.
proof fn lemma_escaped_tells_byte(a: u8, after_a: Seq<u8>, b: u8, after_b: Seq<u8>)
    requires
        escaped(a) + after_a == escaped(b) + after_b,
    ensures
        a == b,
{
    let ours = escaped(a) + after_a;
    let theirs = escaped(b) + after_b;
    assert(ours[0] == escaped(a)[0] && theirs[0] == escaped(b)[0]);
    if escaped(a).len() > 1 {
        assert(escaped(b).len() > 1);
        assert(ours[1] == escaped(a)[1] && theirs[1] == escaped(b)[1]);
        if escaped(a).len() == 6 {
            assert(escaped(b).len() == 6);
            assert(ours[4] == escaped(a)[4] && theirs[4] == escaped(b)[4]);
            assert(ours[5] == escaped(a)[5] && theirs[5] == escaped(b)[5]);
            assert(a as nat / 16 == b as nat / 16);
            assert(a as nat % 16 == b as nat % 16);
        }
    }
}

/// The escaped text tells the text.
proof fn lemma_escaped_tells_text(a: Seq<u8>, b: Seq<u8>)
    requires
        escaped_text(a) == escaped_text(b),
    ensures
        a == b,
    decreases a.len(),
{
    if a.len() == 0 || b.len() == 0 {
        if a.len() > 0 {
            lemma_escaped_first(a);
            assert(escaped(a[0]).len() > 0);
            assert(escaped_text(a).len() > 0);
        }
        if b.len() > 0 {
            lemma_escaped_first(b);
            assert(escaped(b[0]).len() > 0);
            assert(escaped_text(b).len() > 0);
        }
        assert(a =~= b);
    } else {
        lemma_escaped_first(a);
        lemma_escaped_first(b);
        let rest_a = escaped_text(a.drop_first());
        let rest_b = escaped_text(b.drop_first());
        lemma_escaped_tells_byte(a[0], rest_a, b[0], rest_b);
        let first = escaped(a[0]);
        let whole = escaped_text(a);
        assert(rest_a =~= whole.subrange(first.len() as int, whole.len() as int));
        assert(rest_b =~= whole.subrange(first.len() as int, whole.len() as int));
        lemma_escaped_tells_text(a.drop_first(), b.drop_first());
        assert(a =~= seq![a[0]] + a.drop_first());
        assert(b =~= seq![b[0]] + b.drop_first());
    }
}

/// The string tells its content: two texts with the same JSON string are
/// the same text.
pub proof fn lemma_string_tells_text(a: Seq<u8>, b: Seq<u8>)
    requires
        json_string(a) == json_string(b),
    ensures
        a == b,
{
    let ours = json_string(a);
    let theirs = json_string(b);
    assert(escaped_text(a) =~= ours.subrange(1, ours.len() - 1));
    assert(escaped_text(b) =~= theirs.subrange(1, theirs.len() - 1));
    lemma_escaped_tells_text(a, b);
}

} // verus!
