//! The order in which titles are listed.
//!
//! Titles are ordered as Rust orders strings: lexicographically by the bytes
//! of their UTF-8 encoding. The first position at which two titles differ
//! decides; a title that is a prefix of another comes first.

use vstd::prelude::*;
use vstd::relations::*;
use vstd::utf8::*;

verus! {

/// Whether `a` is at most `b` in lexicographic order, looking only at the
/// positions from `i` on.
pub open spec fn bytes_le_from(a: Seq<u8>, b: Seq<u8>, i: int) -> bool
    decreases a.len() - i,
{
    if i >= a.len() {
        true
    } else if i >= b.len() {
        false
    } else if a[i] != b[i] {
        a[i] < b[i]
    } else {
        bytes_le_from(a, b, i + 1)
    }
}

/// Lexicographic order on byte strings.
pub open spec fn bytes_le(a: Seq<u8>, b: Seq<u8>) -> bool {
    bytes_le_from(a, b, 0)
}

/// The order of titles: `a` comes before `b`, or is equal to it.
pub open spec fn title_le(a: Seq<char>, b: Seq<char>) -> bool {
    bytes_le(encode_utf8(a), encode_utf8(b))
}

/// `title_le` as a value, for the lemmas of vstd that take a relation.
pub open spec fn title_order() -> spec_fn(Seq<char>, Seq<char>) -> bool {
    |a: Seq<char>, b: Seq<char>| title_le(a, b)
}

/// A sequence of titles is in listing order: no title stands before one that
/// it does not precede.
pub open spec fn ascending(titles: Seq<Seq<char>>) -> bool {
    forall|i: int, j: int| 0 <= i < j < titles.len() ==> title_le(titles[i], titles[j])
}

proof fn lemma_bytes_le_refl(a: Seq<u8>, i: int)
    requires
        0 <= i,
    ensures
        bytes_le_from(a, a, i),
    decreases a.len() - i,
{
    if i < a.len() {
        lemma_bytes_le_refl(a, i + 1);
    }
}

proof fn lemma_bytes_le_total(a: Seq<u8>, b: Seq<u8>, i: int)
    requires
        0 <= i,
    ensures
        bytes_le_from(a, b, i) || bytes_le_from(b, a, i),
    decreases a.len() - i,
{
    if i < a.len() && i < b.len() && a[i] == b[i] {
        lemma_bytes_le_total(a, b, i + 1);
    }
}

proof fn lemma_bytes_le_trans(a: Seq<u8>, b: Seq<u8>, c: Seq<u8>, i: int)
    requires
        0 <= i,
        bytes_le_from(a, b, i),
        bytes_le_from(b, c, i),
    ensures
        bytes_le_from(a, c, i),
    decreases a.len() - i,
{
    if i < a.len() && a[i] == b[i] && b[i] == c[i] {
        lemma_bytes_le_trans(a, b, c, i + 1);
    }
}

proof fn lemma_bytes_le_antisym(a: Seq<u8>, b: Seq<u8>, i: int)
    requires
        0 <= i <= a.len(),
        i <= b.len(),
        forall|j: int| 0 <= j < i ==> a[j] == b[j],
        bytes_le_from(a, b, i),
        bytes_le_from(b, a, i),
    ensures
        a == b,
    decreases a.len() - i,
{
    if i < a.len() {
        lemma_bytes_le_antisym(a, b, i + 1);
    } else {
        assert(a =~= b);
    }
}

/// Every title is at most itself.
pub proof fn lemma_title_le_reflexive(a: Seq<char>)
    ensures
        title_le(a, a),
{
    lemma_bytes_le_refl(encode_utf8(a), 0);
}

/// Of two titles, one is at most the other.
pub proof fn lemma_title_le_total(a: Seq<char>, b: Seq<char>)
    ensures
        title_le(a, b) || title_le(b, a),
{
    lemma_bytes_le_total(encode_utf8(a), encode_utf8(b), 0);
}

/// The order of titles is transitive.
pub proof fn lemma_title_le_transitive(a: Seq<char>, b: Seq<char>, c: Seq<char>)
    requires
        title_le(a, b),
        title_le(b, c),
    ensures
        title_le(a, c),
{
    lemma_bytes_le_trans(encode_utf8(a), encode_utf8(b), encode_utf8(c), 0);
}

/// Two titles that are each at most the other are the same title: distinct
/// titles never tie.
pub proof fn lemma_title_le_antisymmetric(a: Seq<char>, b: Seq<char>)
    requires
        title_le(a, b),
        title_le(b, a),
    ensures
        a == b,
{
    lemma_bytes_le_antisym(encode_utf8(a), encode_utf8(b), 0);
    encode_utf8_decode_utf8(a);
    encode_utf8_decode_utf8(b);
}

/// The order of titles is a total order.
pub proof fn lemma_title_order_total()
    ensures
        total_ordering(title_order()),
{
    let r = title_order();
    assert forall|x: Seq<char>| #[trigger] r(x, x) by {
        lemma_title_le_reflexive(x);
    }
    assert forall|x: Seq<char>, y: Seq<char>| #[trigger] r(x, y) && #[trigger] r(y, x) implies x
        == y by {
        lemma_title_le_antisymmetric(x, y);
    }
    assert forall|x: Seq<char>, y: Seq<char>, z: Seq<char>| #[trigger]
        r(x, y) && #[trigger] r(y, z) implies r(x, z) by {
        lemma_title_le_transitive(x, y, z);
    }
    assert forall|x: Seq<char>, y: Seq<char>| #[trigger] r(x, y) || #[trigger] r(y, x) by {
        lemma_title_le_total(x, y);
    }
}

/// Says whether `a` comes before `b` in listing order, or is equal to it.
pub fn title_precedes(a: &str, b: &str) -> (r: bool)
    ensures
        r == title_le(a@, b@),
{
    let x = a.as_bytes();
    let y = b.as_bytes();
    let mut i: usize = 0;
    while i < x.len() && i < y.len()
        invariant
            x@ == encode_utf8(a@),
            y@ == encode_utf8(b@),
            i <= x@.len(),
            i <= y@.len(),
            bytes_le(x@, y@) == bytes_le_from(x@, y@, i as int),
        decreases x@.len() - i,
    {
        if x[i] != y[i] {
            return x[i] < y[i];
        }
        i += 1;
    }
    i >= x.len()
}

} // verus!
