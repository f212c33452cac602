//! The outline of JSON text: which brackets and strings are open at each byte.
//!
//! A reader that walks over a JSON array only has to follow brackets and
//! quotes to find where one element ends and the next begins. This module
//! states that walk, says which texts can stand as one element, and proves
//! that an array of elements can be taken apart in one way only.

use vstd::prelude::*;
use crate::json::{BACKSLASH, CLOSE, COMMA, OPEN, QUOTE};

verus! {

/// `{`
pub const BRACE_OPEN: u8 = 0x7b;

/// `}`
pub const BRACE_CLOSE: u8 = 0x7d;

/// Where a reader stands in a text.
pub struct Place {
    /// Brackets opened and not yet closed.
    pub depth: int,
    /// Inside a string.
    pub quoted: bool,
    /// Inside a string, right behind a backslash.
    pub escape: bool,
}

/// Outside of every bracket and string.
pub open spec fn top() -> Place {
    Place { depth: 0, quoted: false, escape: false }
}

/// Inside a string, `depth` brackets deep.
pub open spec fn in_string(depth: int) -> Place {
    Place { depth, quoted: true, escape: false }
}

/// The place `at`, `by` brackets deeper.
pub open spec fn deeper(at: Place, by: int) -> Place {
    Place { depth: at.depth + by, ..at }
}

/// The place after reading `b` at `at`.
pub open spec fn step(at: Place, b: u8) -> Place {
    if at.quoted {
        if at.escape {
            Place { escape: false, ..at }
        } else if b == BACKSLASH {
            Place { escape: true, ..at }
        } else if b == QUOTE {
            Place { quoted: false, ..at }
        } else {
            at
        }
    } else if b == QUOTE {
        Place { quoted: true, ..at }
    } else if b == OPEN || b == BRACE_OPEN {
        Place { depth: at.depth + 1, ..at }
    } else if b == CLOSE || b == BRACE_CLOSE {
        Place { depth: at.depth - 1, ..at }
    } else {
        at
    }
}

/// The place after reading the first `n` bytes of `text`, starting at `at`.
pub open spec fn run(at: Place, text: Seq<u8>, n: int) -> Place
    decreases n,
{
    if n <= 0 {
        at
    } else {
        step(run(at, text, n - 1), text[n - 1])
    }
}

/// The place after reading the first `n` bytes of `text` from the top.
pub open spec fn place(text: Seq<u8>, n: int) -> Place {
    run(top(), text, n)
}

/// `b` at `at` ends the text being read: a closing bracket that the text did
/// not open or, unless `commas` are let through, a comma outside of every
/// bracket and string.
pub open spec fn halts(at: Place, b: u8, commas: bool) -> bool {
    !at.quoted && at.depth == 0 && (b == CLOSE || b == BRACE_CLOSE || (b == COMMA && !commas))
}

/// A reader that starts at `at` gets through all of `text`.
pub open spec fn passes(at: Place, text: Seq<u8>, commas: bool) -> bool {
    forall|i: int| 0 <= i < text.len() ==> !halts(#[trigger] run(at, text, i), text[i], commas)
}

/// Every bracket and string that `text` opens it also closes, and it closes
/// no other.
pub open spec fn balanced(text: Seq<u8>) -> bool {
    passes(top(), text, true) && place(text, text.len() as int) == top()
}

/// `text` can stand as one element of a JSON array: it is not empty, it is
/// balanced, and it has no comma outside of its own brackets and strings.
pub open spec fn is_element(text: Seq<u8>) -> bool {
    text.len() > 0 && passes(top(), text, false) && place(text, text.len() as int) == top()
}

/// Every text of `parts` is an element.
pub open spec fn all_elements(parts: Seq<Seq<u8>>) -> bool {
    forall|i: int| 0 <= i < parts.len() ==> is_element(#[trigger] parts[i])
}

/// A byte that opens or closes nothing and separates nothing.
pub open spec fn plain(b: u8) -> bool {
    b != QUOTE && b != OPEN && b != CLOSE && b != BRACE_OPEN && b != BRACE_CLOSE && b != COMMA
}

/// The texts `parts` with a comma between each two.
pub open spec fn join(parts: Seq<Seq<u8>>) -> Seq<u8>
    decreases parts.len(),
{
    if parts.len() == 0 {
        Seq::empty()
    } else if parts.len() == 1 {
        parts[0]
    } else {
        join(parts.drop_last()) + seq![COMMA] + parts.last()
    }
}

/// The JSON array whose elements are `parts`.
pub open spec fn array(parts: Seq<Seq<u8>>) -> Seq<u8> {
    seq![OPEN] + join(parts) + seq![CLOSE]
}

/// What follows the first of `parts` in their join.
pub open spec fn after_first(parts: Seq<Seq<u8>>) -> Seq<u8> {
    if parts.len() <= 1 {
        Seq::empty()
    } else {
        seq![COMMA] + join(parts.drop_first())
    }
}

/// Whether `text` can stand as one element of a JSON array.
pub fn check_element(text: &[u8]) -> (ok: bool)
    ensures
        ok == is_element(text@),
{
    let mut depth: usize = 0;
    let mut quoted = false;
    let mut escape = false;
    let mut i: usize = 0;
    while i < text.len()
        invariant
            i <= text.len(),
            depth <= i,
            !quoted ==> !escape,
            place(text@, i as int) == (Place { depth: depth as int, quoted, escape }),
            forall|k: int| 0 <= k < i ==> !halts(#[trigger] run(top(), text@, k), text@[k], false),
        decreases text.len() - i,
    {
        let b = text[i];
        if quoted {
            if escape {
                escape = false;
            } else if b == BACKSLASH {
                escape = true;
            } else if b == QUOTE {
                quoted = false;
            }
        } else if b == QUOTE {
            quoted = true;
        } else if b == OPEN || b == BRACE_OPEN {
            depth += 1;
        } else if b == CLOSE || b == BRACE_CLOSE {
            if depth == 0 {
                assert(halts(run(top(), text@, i as int), text@[i as int], false));
                return false;
            }
            depth -= 1;
        } else if b == COMMA && depth == 0 {
            assert(halts(run(top(), text@, i as int), text@[i as int], false));
            return false;
        }
        i += 1;
    }
    i > 0 && depth == 0 && !quoted
}

/// A walk depends only on the bytes it has read.
proof fn lemma_run_agrees(at: Place, a: Seq<u8>, b: Seq<u8>, n: int)
    requires
        0 <= n <= a.len(),
        n <= b.len(),
        forall|k: int| 0 <= k < n ==> a[k] == b[k],
    ensures
        run(at, a, n) == run(at, b, n),
    decreases n,
{
    if n > 0 {
        lemma_run_agrees(at, a, b, n - 1);
    }
}

/// Walking over `a + b` is walking over `a` and then over `b`.
proof fn lemma_run_concat(at: Place, a: Seq<u8>, b: Seq<u8>, i: int)
    requires
        0 <= i <= b.len(),
    ensures
        run(at, a + b, a.len() + i) == run(run(at, a, a.len() as int), b, i),
    decreases i,
{
    if i == 0 {
        lemma_run_agrees(at, a + b, a, a.len() as int);
    } else {
        lemma_run_concat(at, a, b, i - 1);
        assert((a + b)[a.len() + i - 1] == b[i - 1]);
    }
}

/// Brackets around a walk change nothing but its depth.
proof fn lemma_run_deeper(at: Place, text: Seq<u8>, n: int, by: int)
    ensures
        run(deeper(at, by), text, n) == deeper(run(at, text, n), by),
    decreases n,
{
    if n > 0 {
        lemma_run_deeper(at, text, n - 1, by);
    }
}

/// A reader that gets through a text from the top is never above the top.
proof fn lemma_depth(text: Seq<u8>, n: int)
    requires
        passes(top(), text, true),
        0 <= n <= text.len(),
    ensures
        place(text, n).depth >= 0,
    decreases n,
{
    if n > 0 {
        lemma_depth(text, n - 1);
        assert(!halts(run(top(), text, n - 1), text[n - 1], true));
    }
}

/// A reader gets through `a + b` if it gets through `a` and, from where that
/// leaves it, through `b`.
pub proof fn lemma_passes_concat(at: Place, a: Seq<u8>, b: Seq<u8>, commas: bool)
    requires
        passes(at, a, commas),
        passes(run(at, a, a.len() as int), b, commas),
    ensures
        passes(at, a + b, commas),
        run(at, a + b, (a + b).len() as int) == run(run(at, a, a.len() as int), b, b.len() as int),
{
    let ab = a + b;
    assert forall|i: int| 0 <= i < ab.len() implies !halts(
        #[trigger] run(at, ab, i),
        ab[i],
        commas,
    ) by {
        if i < a.len() {
            lemma_run_agrees(at, ab, a, i);
            assert(!halts(run(at, a, i), a[i], commas));
        } else {
            lemma_run_concat(at, a, b, i - a.len());
            assert(!halts(run(run(at, a, a.len() as int), b, i - a.len()), b[i - a.len()], commas));
        }
    }
    lemma_run_concat(at, a, b, b.len() as int);
}

/// A balanced text inside brackets holds nothing that ends the text around it.
proof fn lemma_nested(text: Seq<u8>, depth: int)
    requires
        balanced(text),
        depth >= 1,
    ensures
        passes(deeper(top(), depth), text, false),
        run(deeper(top(), depth), text, text.len() as int) == deeper(top(), depth),
{
    let at = deeper(top(), depth);
    assert forall|i: int| 0 <= i < text.len() implies !halts(
        #[trigger] run(at, text, i),
        text[i],
        false,
    ) by {
        lemma_run_deeper(top(), text, i, depth);
        lemma_depth(text, i);
    }
    lemma_run_deeper(top(), text, text.len() as int, depth);
}

/// An element is balanced.
pub proof fn lemma_element_balanced(text: Seq<u8>)
    requires
        is_element(text),
    ensures
        balanced(text),
{
    assert forall|i: int| 0 <= i < text.len() implies !halts(
        #[trigger] run(top(), text, i),
        text[i],
        true,
    ) by {
        assert(!halts(run(top(), text, i), text[i], false));
    }
}

/// Balanced texts in a row are balanced.
pub proof fn lemma_balanced_concat(a: Seq<u8>, b: Seq<u8>)
    requires
        balanced(a),
        balanced(b),
    ensures
        balanced(a + b),
{
    lemma_passes_concat(top(), a, b, true);
}

/// A text of plain bytes keeps the reader where it is.
proof fn lemma_plain_run(at: Place, text: Seq<u8>, n: int)
    requires
        !at.quoted,
        0 <= n <= text.len(),
        forall|i: int| 0 <= i < text.len() ==> plain(#[trigger] text[i]),
    ensures
        run(at, text, n) == at,
    decreases n,
{
    if n > 0 {
        lemma_plain_run(at, text, n - 1);
        assert(plain(text[n - 1]));
    }
}

/// A text of plain bytes, if it is not empty, is an element.
pub proof fn lemma_plain_is_element(text: Seq<u8>)
    requires
        text.len() > 0,
        forall|i: int| 0 <= i < text.len() ==> plain(#[trigger] text[i]),
    ensures
        is_element(text),
{
    assert forall|i: int| 0 <= i < text.len() implies !halts(
        #[trigger] run(top(), text, i),
        text[i],
        false,
    ) by {
        lemma_plain_run(top(), text, i);
        assert(plain(text[i]));
    }
    lemma_plain_run(top(), text, text.len() as int);
}

/// A balanced text between `[` and `]` is an element.
pub proof fn lemma_bracketed(text: Seq<u8>)
    requires
        balanced(text),
    ensures
        is_element(seq![OPEN] + text + seq![CLOSE]),
{
    let open = seq![OPEN];
    let close = seq![CLOSE];
    reveal_with_fuel(run, 2);
    assert(passes(top(), open, false));
    assert(run(top(), open, 1) == deeper(top(), 1));
    lemma_nested(text, 1);
    lemma_passes_concat(top(), open, text, false);
    assert(passes(deeper(top(), 1), close, false));
    assert(run(deeper(top(), 1), close, 1) == top());
    lemma_passes_concat(top(), open + text, close, false);
}

/// Behind `[` and a balanced text the reader is one bracket deep.
pub proof fn lemma_open_array(text: Seq<u8>)
    requires
        balanced(text),
    ensures
        place(seq![OPEN] + text, (seq![OPEN] + text).len() as int) == deeper(top(), 1),
{
    let open = seq![OPEN];
    reveal_with_fuel(run, 2);
    assert(passes(top(), open, false));
    assert(run(top(), open, 1) == deeper(top(), 1));
    lemma_nested(text, 1);
    lemma_passes_concat(top(), open, text, false);
}

/// A join grows at its end: the new part comes behind a comma, unless it is
/// the first.
pub proof fn lemma_join_push(parts: Seq<Seq<u8>>, part: Seq<u8>)
    ensures
        join(parts.push(part)) == if parts.len() == 0 {
            part
        } else {
            join(parts) + seq![COMMA] + part
        },
{
    assert(parts.push(part).drop_last() =~= parts);
}

/// Elements with commas between them are balanced.
pub proof fn lemma_join_balanced(parts: Seq<Seq<u8>>)
    requires
        all_elements(parts),
    ensures
        balanced(join(parts)),
    decreases parts.len(),
{
    if parts.len() == 0 {
    } else if parts.len() == 1 {
        lemma_element_balanced(parts[0]);
    } else {
        let comma = seq![COMMA];
        reveal_with_fuel(run, 2);
        assert(balanced(comma));
        lemma_join_balanced(parts.drop_last());
        lemma_element_balanced(parts.last());
        lemma_balanced_concat(join(parts.drop_last()), comma);
        lemma_balanced_concat(join(parts.drop_last()) + comma, parts.last());
    }
}

/// An array of elements is an element.
pub proof fn lemma_array_is_element(parts: Seq<Seq<u8>>)
    requires
        all_elements(parts),
    ensures
        is_element(array(parts)),
{
    lemma_join_balanced(parts);
    lemma_bracketed(join(parts));
}

/// A join begins with its first part.
proof fn lemma_join_first(parts: Seq<Seq<u8>>)
    requires
        parts.len() > 0,
    ensures
        join(parts) == parts[0] + after_first(parts),
    decreases parts.len(),
{
    if parts.len() == 1 {
        assert(join(parts) =~= parts[0] + after_first(parts));
    } else {
        let init = parts.drop_last();
        let rest = parts.drop_first();
        lemma_join_first(init);
        if parts.len() == 2 {
            assert(rest.len() == 1);
            assert(join(rest) == parts[1]);
            assert(join(init) == parts[0]);
        } else {
            assert(rest.drop_last() =~= init.drop_first());
        }
        assert(join(parts) =~= parts[0] + after_first(parts));
    }
}

/// Of two elements that begin the same text, the first followed by nothing
/// or by a comma, the second is no longer than the first.
proof fn lemma_first_ends(
    text: Seq<u8>,
    a: Seq<u8>,
    after_a: Seq<u8>,
    b: Seq<u8>,
    after_b: Seq<u8>,
)
    requires
        is_element(a),
        is_element(b),
        text == a + after_a,
        text == b + after_b,
        after_a.len() > 0 ==> after_a[0] == COMMA,
    ensures
        b.len() <= a.len(),
{
    if a.len() < b.len() {
        let n = a.len() as int;
        assert(after_a.len() > 0);
        assert(text[n] == after_a[0]);
        assert(text[n] == b[n]);
        assert forall|k: int| 0 <= k < n implies a[k] == b[k] by {
            assert(a[k] == text[k]);
            assert(b[k] == text[k]);
        }
        lemma_run_agrees(top(), a, b, n);
        assert(!halts(run(top(), b, n), b[n], false));
    }
}

/// Two rows of elements with the same join are the same row: a text can be
/// split into elements at its commas in one way only.
pub proof fn lemma_join_unique(p: Seq<Seq<u8>>, q: Seq<Seq<u8>>)
    requires
        all_elements(p),
        all_elements(q),
        join(p) == join(q),
    ensures
        p == q,
    decreases p.len(),
{
    if p.len() == 0 || q.len() == 0 {
        if p.len() > 0 {
            lemma_join_first(p);
            assert(is_element(p[0]));
        }
        if q.len() > 0 {
            lemma_join_first(q);
            assert(is_element(q[0]));
        }
        assert(p =~= q);
    } else {
        let text = join(p);
        let a = p[0];
        let b = q[0];
        lemma_join_first(p);
        lemma_join_first(q);
        assert(is_element(a) && is_element(b));
        lemma_first_ends(text, a, after_first(p), b, after_first(q));
        lemma_first_ends(text, b, after_first(q), a, after_first(p));
        assert(a =~= text.subrange(0, a.len() as int));
        assert(b =~= text.subrange(0, b.len() as int));
        assert(after_first(p) =~= text.subrange(a.len() as int, text.len() as int));
        assert(after_first(q) =~= text.subrange(a.len() as int, text.len() as int));
        if p.len() == 1 || q.len() == 1 {
            assert(p.len() == 1 && q.len() == 1);
            assert(p =~= q);
        } else {
            let rest_p = p.drop_first();
            let rest_q = q.drop_first();
            assert(join(rest_p) =~= after_first(p).subrange(1, after_first(p).len() as int));
            assert(join(rest_q) =~= after_first(q).subrange(1, after_first(q).len() as int));
            lemma_join_unique(rest_p, rest_q);
            assert(p =~= seq![a] + rest_p);
            assert(q =~= seq![b] + rest_q);
        }
    }
}

/// The array tells its elements: two rows of elements with the same array
/// are the same row.
pub proof fn lemma_array_tells_elements(p: Seq<Seq<u8>>, q: Seq<Seq<u8>>)
    requires
        all_elements(p),
        all_elements(q),
        array(p) == array(q),
    ensures
        p == q,
{
    let ours = array(p);
    let theirs = array(q);
    assert(join(p) =~= ours.subrange(1, ours.len() - 1));
    assert(join(q) =~= theirs.subrange(1, theirs.len() - 1));
    lemma_join_unique(p, q);
}

} // verus!
