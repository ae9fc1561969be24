use vstd::prelude::*;

verus! {

/// Strict lexicographic order on byte sequences (the order of the store's
/// default byte comparator).
pub open spec fn lex_lt(a: Seq<u8>, b: Seq<u8>) -> bool
    decreases a.len(),
{
    if a.len() == 0 {
        b.len() > 0
    } else if b.len() == 0 {
        false
    } else if a[0] != b[0] {
        a[0] < b[0]
    } else {
        lex_lt(a.drop_first(), b.drop_first())
    }
}

/// `n` zero bytes.
pub open spec fn zeros(n: nat) -> Seq<u8> {
    Seq::new(n, |i: int| 0u8)
}

/// Comparing two sequences that start with prefixes of equal length: a
/// differing prefix decides, an equal prefix leaves the rest to decide.
pub proof fn lemma_lex_concat(p1: Seq<u8>, r1: Seq<u8>, p2: Seq<u8>, r2: Seq<u8>)
    requires
        p1.len() == p2.len(),
    ensures
        p1 == p2 ==> lex_lt(p1 + r1, p2 + r2) == lex_lt(r1, r2),
        p1 != p2 ==> lex_lt(p1 + r1, p2 + r2) == lex_lt(p1, p2),
    decreases p1.len(),
{
    if p1.len() == 0 {
        assert(p1 + r1 =~= r1);
        assert(p2 + r2 =~= r2);
        assert(p1 =~= p2);
    } else {
        assert((p1 + r1)[0] == p1[0]);
        assert((p2 + r2)[0] == p2[0]);
        assert((p1 + r1).drop_first() =~= p1.drop_first() + r1);
        assert((p2 + r2).drop_first() =~= p2.drop_first() + r2);
        lemma_lex_concat(p1.drop_first(), r1, p2.drop_first(), r2);
        if p1[0] == p2[0] && p1 != p2 {
            assert(p1.drop_first() != p2.drop_first()) by {
                if p1.drop_first() == p2.drop_first() {
                    assert(p1 =~= p2) by {
                        assert forall|i: int| 0 <= i < p1.len() implies p1[i] == p2[i] by {
                            if i > 0 {
                                assert(p1[i] == p1.drop_first()[i - 1]);
                                assert(p2[i] == p2.drop_first()[i - 1]);
                            }
                        }
                    }
                }
            }
        }
    }
}

/// No sequence at least `n` bytes long sorts before `n` zero bytes.
pub proof fn lemma_not_below_zeros(a: Seq<u8>, n: nat)
    requires
        a.len() >= n,
    ensures
        !lex_lt(a, zeros(n)),
    decreases n,
{
    if n > 0 {
        assert(zeros(n).drop_first() =~= zeros((n - 1) as nat));
        lemma_not_below_zeros(a.drop_first(), (n - 1) as nat);
    }
}

/// Whether `a` sorts strictly before `b` in lexicographic byte order.
pub fn bytes_lt(a: &[u8], b: &[u8]) -> (r: bool)
    ensures
        r == lex_lt(a@, b@),
{
    let mut i: usize = 0;
    let alen: usize = a.len();
    let blen: usize = b.len();
    proof {
        assert(a@.subrange(0, alen as int) =~= a@);
        assert(b@.subrange(0, blen as int) =~= b@);
    }
    while i < alen && i < blen
        invariant
            i <= alen == a@.len(),
            i <= blen == b@.len(),
            lex_lt(a@, b@) == lex_lt(a@.subrange(i as int, alen as int), b@.subrange(i as int, blen as int)),
        decreases alen - i,
    {
        if a[i] != b[i] {
            return a[i] < b[i];
        }
        proof {
            assert(a@.subrange(i as int, alen as int).drop_first() =~= a@.subrange(i + 1, alen as int));
            assert(b@.subrange(i as int, blen as int).drop_first() =~= b@.subrange(i + 1, blen as int));
        }
        i = i + 1;
    }
    i == alen && i < blen
}

/// One end of a range of user keys.
#[derive(Debug, Clone)]
pub enum KeyBound {
    /// The end key belongs to the range.
    Included(Vec<u8>),
    /// The end key does not belong to the range.
    Excluded(Vec<u8>),
    /// The range is open at this end.
    Unbounded,
}

impl KeyBound {
    /// Whether `key` lies on the inner side of this bound, taken as a lower bound.
    pub open spec fn admits_from_below(&self, key: Seq<u8>) -> bool {
        match self {
            KeyBound::Included(b) => !lex_lt(key, b@),
            KeyBound::Excluded(b) => lex_lt(b@, key),
            KeyBound::Unbounded => true,
        }
    }

    /// Whether `key` lies on the inner side of this bound, taken as an upper bound.
    pub open spec fn admits_from_above(&self, key: Seq<u8>) -> bool {
        match self {
            KeyBound::Included(b) => !lex_lt(b@, key),
            KeyBound::Excluded(b) => lex_lt(key, b@),
            KeyBound::Unbounded => true,
        }
    }
}

/// Whether `key` lies within the range from `lo` to `hi`.
pub open spec fn in_key_range(key: Seq<u8>, lo: &KeyBound, hi: &KeyBound) -> bool {
    lo.admits_from_below(key) && hi.admits_from_above(key)
}

/// Whether `key` lies within the range from `lo` to `hi`.
pub fn key_in_range(key: &[u8], lo: &KeyBound, hi: &KeyBound) -> (r: bool)
    ensures
        r == in_key_range(key@, lo, hi),
{
    let above = match lo {
        KeyBound::Included(b) => !bytes_lt(key, b.as_slice()),
        KeyBound::Excluded(b) => bytes_lt(b.as_slice(), key),
        KeyBound::Unbounded => true,
    };
    let below = match hi {
        KeyBound::Included(b) => !bytes_lt(b.as_slice(), key),
        KeyBound::Excluded(b) => bytes_lt(key, b.as_slice()),
        KeyBound::Unbounded => true,
    };
    above && below
}

/// A range of user keys, given by its two ends.
#[derive(Debug, Clone)]
pub struct HeedRangeAdapter {
    pub lo: KeyBound,
    pub hi: KeyBound,
}

impl HeedRangeAdapter {
    /// The range from `lo` to `hi`.
    pub fn new(lo: KeyBound, hi: KeyBound) -> (r: Self)
        ensures
            r.lo == lo,
            r.hi == hi,
    {
        HeedRangeAdapter { lo, hi }
    }

    /// Whether `key` lies in the range.
    pub fn contains(&self, key: &[u8]) -> (r: bool)
        ensures
            r == in_key_range(key@, &self.lo, &self.hi),
    {
        key_in_range(key, &self.lo, &self.hi)
    }
}

/// The default value of a key type, used where a range end needs some value.
pub fn get_key_default<K: Default>() -> K {
    K::default()
}

} // verus!
