//! The composite key encoder.
//!
//! A [`MultiKey`] is a derived key: the bytes of the first part followed by
//! the bytes of the second, with no separator and no length prefix. The
//! lexicographic order of the encoded key therefore equals ordering by
//! (first part bytes, then second part bytes); the encoding is uniquely
//! invertible only when the first part has a fixed, known width.

use vstd::prelude::*;

use crate::kinds::clone_bytes;
use crate::order::lex_lt;

verus! {

/// A flattened derived key built from two byte-representable parts.
#[derive(Clone, Debug)]
pub struct MultiKey {
    inner: Vec<u8>,
}

impl View for MultiKey {
    type V = Seq<u8>;

    closed spec fn view(&self) -> Seq<u8> {
        self.inner@
    }
}

impl MultiKey {
    /// Encodes the pair: exactly the bytes of the first part followed by
    /// the bytes of the second.
    pub fn new(key: &(Vec<u8>, Vec<u8>)) -> (r: Self)
        ensures
            r@ == key.0@ + key.1@,
    {
        let mut inner = clone_bytes(&key.0);
        let mut tail = clone_bytes(&key.1);
        inner.append(&mut tail);
        MultiKey { inner }
    }

    /// The encoded bytes.
    pub fn as_bytes(&self) -> (r: &[u8])
        ensures
            r@ == self@,
    {
        self.inner.as_slice()
    }

    /// Surrenders the encoded bytes.
    pub fn into_vec(self) -> (r: Vec<u8>)
        ensures
            r@ == self@,
    {
        self.inner
    }
}

impl Default for MultiKey {
    /// The empty composite key: both parts empty.
    fn default() -> (r: Self)
        ensures
            r@ == Seq::<u8>::empty(),
    {
        MultiKey { inner: Vec::new() }
    }
}

/// When the first part has a fixed width, a composite key starts with the
/// bytes of `k1` exactly when its first part is `k1`.
pub proof fn lemma_multikey_prefix(a: Seq<u8>, b: Seq<u8>, k1: Seq<u8>)
    requires
        a.len() == k1.len(),
    ensures
        k1.is_prefix_of(a + b) <==> a == k1,
{
    if k1.is_prefix_of(a + b) {
        assert((a + b).subrange(0, k1.len() as int) =~= a);
    }
    if a == k1 {
        assert(k1 =~= (a + b).subrange(0, k1.len() as int));
    }
}

/// Composite keys sharing a first part sort contiguously: every key that
/// lies between two keys carrying the prefix carries the prefix itself.
pub proof fn lemma_prefix_block_contiguous(p: Seq<u8>, x: Seq<u8>, lo: Seq<u8>, hi: Seq<u8>)
    requires
        p.is_prefix_of(lo),
        p.is_prefix_of(hi),
        !lex_lt(x, lo),
        !lex_lt(hi, x),
    ensures
        p.is_prefix_of(x),
    decreases p.len(),
{
    if p.len() > 0 {
        assert(lo.len() > 0 && lo[0] == p[0]) by {
            assert(lo.subrange(0, p.len() as int)[0] == lo[0]);
        }
        assert(hi.len() > 0 && hi[0] == p[0]) by {
            assert(hi.subrange(0, p.len() as int)[0] == hi[0]);
        }
        if x.len() == 0 {
            assert(lex_lt(x, lo));
        } else if x[0] < lo[0] {
            assert(lex_lt(x, lo));
        } else if x[0] > hi[0] {
            assert(lex_lt(hi, x));
        } else {
            assert(x[0] == p[0]);
            assert(p.skip(1).is_prefix_of(lo.skip(1))) by {
                assert(p.skip(1) =~= lo.skip(1).subrange(0, p.len() - 1)) by {
                    assert(forall|m: int|
                        0 <= m < p.len() - 1 ==> #[trigger] p.skip(1)[m] == p[m + 1]
                            && lo.skip(1).subrange(0, p.len() - 1)[m] == lo[m + 1]);
                    assert(forall|m: int|
                        0 <= m < p.len() ==> p[m] == #[trigger] lo.subrange(
                            0,
                            p.len() as int,
                        )[m]);
                }
            }
            assert(p.skip(1).is_prefix_of(hi.skip(1))) by {
                assert(p.skip(1) =~= hi.skip(1).subrange(0, p.len() - 1)) by {
                    assert(forall|m: int|
                        0 <= m < p.len() - 1 ==> #[trigger] p.skip(1)[m] == p[m + 1]
                            && hi.skip(1).subrange(0, p.len() - 1)[m] == hi[m + 1]);
                    assert(forall|m: int|
                        0 <= m < p.len() ==> p[m] == #[trigger] hi.subrange(
                            0,
                            p.len() as int,
                        )[m]);
                }
            }
            assert(!lex_lt(x.skip(1), lo.skip(1)));
            assert(!lex_lt(hi.skip(1), x.skip(1)));
            lemma_prefix_block_contiguous(p.skip(1), x.skip(1), lo.skip(1), hi.skip(1));
            assert(p.skip(1) =~= x.skip(1).subrange(0, p.len() - 1));
            assert(p.len() <= x.len());
            assert forall|m: int| 0 <= m < p.len() implies p[m] == x[m] by {
                if m > 0 {
                    assert(p[m] == p.skip(1)[m - 1]);
                    assert(x.skip(1).subrange(0, p.len() - 1)[m - 1] == x.skip(1)[m - 1]);
                    assert(x[m] == x.skip(1)[m - 1]);
                    assert(p.skip(1)[m - 1] == x.skip(1).subrange(0, p.len() - 1)[m - 1]);
                }
            }
            assert(p =~= x.subrange(0, p.len() as int));
        }
    } else {
        assert(p =~= x.subrange(0, 0));
    }
}

} // verus!
