//! The order of texts: that of the bytes that encode them.

use vstd::prelude::*;
use vstd::string::*;
use vstd::utf8::{encode_utf8, encode_utf8_decode_utf8};

use crate::text::Text;

verus! {

/// Whether `a` comes before `b`: it is smaller at the first place at which they differ, or ends
/// there.
pub open spec fn bytes_before(a: Seq<u8>, b: Seq<u8>) -> bool
    decreases a.len(),
{
    if b.len() == 0 {
        false
    } else if a.len() == 0 {
        true
    } else if a[0] != b[0] {
        a[0] < b[0]
    } else {
        bytes_before(a.drop_first(), b.drop_first())
    }
}

/// Whether `a` comes before `b` in the order of texts.
pub open spec fn text_before_text(a: Text, b: Text) -> bool {
    bytes_before(encode_utf8(a), encode_utf8(b))
}

fn bytes_less(a: &[u8], b: &[u8]) -> (r: bool)
    ensures
        r == bytes_before(a@, b@),
{
    let mut i: usize = 0;
    proof {
        assert(a@.skip(0) =~= a@);
        assert(b@.skip(0) =~= b@);
    }
    while i < a.len() && i < b.len()
        invariant
            0 <= i <= a@.len(),
            i <= b@.len(),
            bytes_before(a@.skip(i as int), b@.skip(i as int)) == bytes_before(a@, b@),
        decreases a@.len() - i,
    {
        if a[i] != b[i] {
            return a[i] < b[i];
        }
        proof {
            assert(a@.skip(i as int).drop_first() =~= a@.skip(i + 1));
            assert(b@.skip(i as int).drop_first() =~= b@.skip(i + 1));
        }
        i += 1;
    }
    i < b.len()
}

/// Whether `a` comes before `b` in the order of texts.
pub fn text_less(a: &str, b: &str) -> (r: bool)
    ensures
        r == text_before_text(a@, b@),
{
    bytes_less(a.as_bytes(), b.as_bytes())
}

proof fn lemma_bytes_irreflexive(a: Seq<u8>)
    ensures
        !bytes_before(a, a),
    decreases a.len(),
{
    if a.len() > 0 {
        lemma_bytes_irreflexive(a.drop_first());
    }
}

proof fn lemma_bytes_transitive(a: Seq<u8>, b: Seq<u8>, c: Seq<u8>)
    requires
        bytes_before(a, b),
        bytes_before(b, c),
    ensures
        bytes_before(a, c),
    decreases a.len(),
{
    if a.len() > 0 && a[0] == b[0] && b[0] == c[0] {
        lemma_bytes_transitive(a.drop_first(), b.drop_first(), c.drop_first());
    }
}

proof fn lemma_bytes_total(a: Seq<u8>, b: Seq<u8>)
    ensures
        a == b || bytes_before(a, b) || bytes_before(b, a),
    decreases a.len(),
{
    if a.len() > 0 && b.len() > 0 && a[0] == b[0] {
        lemma_bytes_total(a.drop_first(), b.drop_first());
        if a.drop_first() == b.drop_first() {
            assert(a =~= seq![a[0]] + a.drop_first());
            assert(b =~= seq![b[0]] + b.drop_first());
        }
    } else if a.len() == 0 && b.len() == 0 {
        assert(a =~= b);
    }
}

/// No text comes before itself.
pub proof fn law_text_order_irreflexive(a: Text)
    ensures
        !text_before_text(a, a),
{
    lemma_bytes_irreflexive(encode_utf8(a));
}

/// What comes before a text comes before all that follow it.
pub proof fn law_text_order_transitive(a: Text, b: Text, c: Text)
    requires
        text_before_text(a, b),
        text_before_text(b, c),
    ensures
        text_before_text(a, c),
{
    lemma_bytes_transitive(encode_utf8(a), encode_utf8(b), encode_utf8(c));
}

/// Of two different texts one comes before the other.
pub proof fn law_text_order_total(a: Text, b: Text)
    ensures
        a == b || text_before_text(a, b) || text_before_text(b, a),
{
    lemma_bytes_total(encode_utf8(a), encode_utf8(b));
    encode_utf8_decode_utf8(a);
    encode_utf8_decode_utf8(b);
}

/// The bytes of two texts in a row are those of the one, then those of the other.
pub proof fn lemma_encode_adds(a: Text, b: Text)
    ensures
        encode_utf8(a + b) == encode_utf8(a) + encode_utf8(b),
    decreases a.len(),
{
    if a.len() == 0 {
        assert(a + b =~= b);
        assert(encode_utf8(a) + encode_utf8(b) =~= encode_utf8(b));
    } else {
        lemma_encode_adds(a.drop_first(), b);
        assert((a + b).drop_first() =~= a.drop_first() + b);
        assert(encode_utf8(a + b) =~= encode_utf8(a) + encode_utf8(b));
    }
}

proof fn lemma_bytes_before_tail(a: Seq<u8>, b: Seq<u8>, tail: Seq<u8>)
    requires
        bytes_before(a, b),
        a.len() == b.len(),
    ensures
        bytes_before(a + tail, b + tail),
    decreases a.len(),
{
    assert((a + tail)[0] == a[0] && (b + tail)[0] == b[0]);
    if a[0] == b[0] {
        lemma_bytes_before_tail(a.drop_first(), b.drop_first(), tail);
        assert((a + tail).drop_first() =~= a.drop_first() + tail);
        assert((b + tail).drop_first() =~= b.drop_first() + tail);
    }
}

proof fn lemma_bytes_before_head(head: Seq<u8>, a: Seq<u8>, b: Seq<u8>)
    requires
        bytes_before(a, b),
    ensures
        bytes_before(head + a, head + b),
    decreases head.len(),
{
    if head.len() == 0 {
        assert(head + a =~= a);
        assert(head + b =~= b);
    } else {
        lemma_bytes_before_head(head.drop_first(), a, b);
        assert((head + a).drop_first() =~= head.drop_first() + a);
        assert((head + b).drop_first() =~= head.drop_first() + b);
    }
}

/// Texts of the same size keep their order between the same texts.
pub proof fn law_text_order_inside(head: Text, a: Text, b: Text, tail: Text)
    requires
        text_before_text(a, b),
        encode_utf8(a).len() == encode_utf8(b).len(),
    ensures
        text_before_text(head + a + tail, head + b + tail),
{
    lemma_encode_adds(head + a, tail);
    lemma_encode_adds(head, a);
    lemma_encode_adds(head + b, tail);
    lemma_encode_adds(head, b);
    let (h, x, y, t) = (encode_utf8(head), encode_utf8(a), encode_utf8(b), encode_utf8(tail));
    lemma_bytes_before_tail(x, y, t);
    lemma_bytes_before_head(h, x + t, y + t);
    assert(h + x + t =~= h + (x + t));
    assert(h + y + t =~= h + (y + t));
}

} // verus!
