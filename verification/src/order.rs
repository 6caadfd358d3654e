//! The order in which names are ranked: the order of `String`, that is the
//! lexicographic order of their UTF-8 bytes.

use vstd::prelude::*;
use vstd::utf8::*;

verus! {

/// Lexicographic order on byte sequences: `x` comes strictly before `y`.
pub open spec fn bytes_before(x: Seq<u8>, y: Seq<u8>) -> bool
    decreases x.len(),
{
    if y.len() == 0 {
        false
    } else if x.len() == 0 {
        true
    } else if x[0] != y[0] {
        x[0] < y[0]
    } else {
        bytes_before(x.drop_first(), y.drop_first())
    }
}

/// `a` comes strictly before `b` in the order of names (that of `String`).
pub open spec fn name_before(a: Seq<char>, b: Seq<char>) -> bool {
    bytes_before(encode_utf8(a), encode_utf8(b))
}

/// No byte sequence comes before itself.
pub proof fn lemma_bytes_irreflexive(x: Seq<u8>)
    ensures
        !bytes_before(x, x),
    decreases x.len(),
{
    if x.len() > 0 {
        lemma_bytes_irreflexive(x.drop_first());
    }
}

/// The byte order is transitive.
pub proof fn lemma_bytes_transitive(x: Seq<u8>, y: Seq<u8>, z: Seq<u8>)
    requires
        bytes_before(x, y),
        bytes_before(y, z),
    ensures
        bytes_before(x, z),
    decreases x.len(),
{
    if x.len() > 0 && y.len() > 0 && z.len() > 0 && x[0] == y[0] && y[0] == z[0] {
        lemma_bytes_transitive(x.drop_first(), y.drop_first(), z.drop_first());
    }
}

/// Two distinct byte sequences are ordered one way or the other.
pub proof fn lemma_bytes_total(x: Seq<u8>, y: Seq<u8>)
    requires
        x != y,
    ensures
        bytes_before(x, y) || bytes_before(y, x),
    decreases x.len(),
{
    if x.len() > 0 && y.len() > 0 && x[0] == y[0] {
        if x.drop_first() == y.drop_first() {
            assert(x =~= seq![x[0]] + x.drop_first());
            assert(y =~= seq![y[0]] + y.drop_first());
        }
        lemma_bytes_total(x.drop_first(), y.drop_first());
    } else if x.len() == 0 && y.len() == 0 {
        assert(x =~= y);
    }
}

/// The order of names is a strict total order: irreflexive, transitive, and
/// total on distinct names.
pub proof fn lemma_name_order(a: Seq<char>, b: Seq<char>, c: Seq<char>)
    ensures
        !name_before(a, a),
        name_before(a, b) && name_before(b, c) ==> name_before(a, c),
        a != b ==> name_before(a, b) || name_before(b, a),
{
    lemma_bytes_irreflexive(encode_utf8(a));
    if name_before(a, b) && name_before(b, c) {
        lemma_bytes_transitive(encode_utf8(a), encode_utf8(b), encode_utf8(c));
    }
    if a != b {
        encode_utf8_decode_utf8(a);
        encode_utf8_decode_utf8(b);
        lemma_bytes_total(encode_utf8(a), encode_utf8(b));
    }
}

/// Whether the name `a` comes strictly before the name `b`.
pub fn name_less(a: &str, b: &str) -> (r: bool)
    ensures
        r == name_before(a@, b@),
{
    let x = a.as_bytes();
    let y = b.as_bytes();
    let ghost xs = x@;
    let ghost ys = y@;
    let mut i: usize = 0;
    assert(xs.skip(0) =~= xs);
    assert(ys.skip(0) =~= ys);
    while i < x.len() && i < y.len()
        invariant
            x@ == xs,
            y@ == ys,
            xs == encode_utf8(a@),
            ys == encode_utf8(b@),
            i <= xs.len(),
            i <= ys.len(),
            bytes_before(xs, ys) == bytes_before(xs.skip(i as int), ys.skip(i as int)),
        decreases x.len() - i,
    {
        if x[i] != y[i] {
            return x[i] < y[i];
        }
        assert(xs.skip(i as int).drop_first() =~= xs.skip(i + 1));
        assert(ys.skip(i as int).drop_first() =~= ys.skip(i + 1));
        i = i + 1;
    }
    i < y.len()
}

} // verus!
