use crate::error::ScopedDbError;
use crate::order::{lex_lt, zeros};
use vstd::prelude::*;

verus! {

/// `256` raised to the power `n`.
pub open spec fn pow256(n: nat) -> nat
    decreases n,
{
    if n == 0 {
        1
    } else {
        256 * pow256((n - 1) as nat)
    }
}

/// The `n` low-order bytes of `x`, most significant first.
pub open spec fn be_bytes(x: nat, n: nat) -> Seq<u8>
    decreases n,
{
    if n == 0 {
        Seq::empty()
    } else {
        be_bytes(x / 256, (n - 1) as nat).push((x % 256) as u8)
    }
}

/// The unsigned integer that a byte sequence spells, most significant byte first.
pub open spec fn be_value(s: Seq<u8>) -> nat
    decreases s.len(),
{
    if s.len() == 0 {
        0
    } else {
        be_value(s.drop_last()) * 256 + s.last() as nat
    }
}

/// `be_bytes(x, n)` has `n` bytes.
pub proof fn lemma_be_bytes_len(x: nat, n: nat)
    ensures
        be_bytes(x, n).len() == n,
    decreases n,
{
    if n > 0 {
        lemma_be_bytes_len(x / 256, (n - 1) as nat);
    }
}

/// Reading back the bytes of a value that fits in `n` bytes gives the value.
pub proof fn lemma_be_value_of_bytes(x: nat, n: nat)
    requires
        x < pow256(n),
    ensures
        be_value(be_bytes(x, n)) == x,
    decreases n,
{
    if n > 0 {
        let p = pow256((n - 1) as nat);
        assert(x / 256 < p) by (nonlinear_arith)
            requires
                x < 256 * p,
        ;
        lemma_be_value_of_bytes(x / 256, (n - 1) as nat);
        let s = be_bytes(x, n);
        assert(s.drop_last() =~= be_bytes(x / 256, (n - 1) as nat));
    }
}

/// The value of `n` bytes is below `256^n`.
pub proof fn lemma_be_value_bound(s: Seq<u8>)
    ensures
        be_value(s) < pow256(s.len()),
    decreases s.len(),
{
    if s.len() > 0 {
        lemma_be_value_bound(s.drop_last());
        let v = be_value(s.drop_last());
        let p = pow256(s.drop_last().len());
        assert(v * 256 + (s.last() as nat) < 256 * p) by (nonlinear_arith)
            requires
                v < p,
                s.last() < 256,
        ;
    }
}

/// Zero spelled on `n` bytes is `n` zero bytes.
pub proof fn lemma_be_bytes_zero(n: nat)
    ensures
        be_bytes(0, n) == zeros(n),
    decreases n,
{
    if n > 0 {
        lemma_be_bytes_zero((n - 1) as nat);
        assert(be_bytes(0, n) =~= zeros(n));
    }
}

/// The value of a sequence split after its first byte.
pub proof fn lemma_be_value_front(a: Seq<u8>)
    requires
        a.len() > 0,
    ensures
        be_value(a) == a[0] as nat * pow256((a.len() - 1) as nat) + be_value(a.drop_first()),
    decreases a.len(),
{
    if a.len() == 1 {
        assert(a.drop_last() =~= Seq::<u8>::empty());
        assert(a.drop_first() =~= Seq::<u8>::empty());
        assert(pow256(0) == 1);
        assert(be_value(Seq::<u8>::empty()) == 0);
        assert(a.last() == a[0]);
        let x = a[0] as nat;
        assert(x * pow256(0) == x) by (nonlinear_arith)
            requires
                pow256(0) == 1,
        ;
    } else {
        let l = a.drop_last();
        lemma_be_value_front(l);
        assert(a.drop_first().drop_last() =~= l.drop_first());
        assert(a.drop_first().last() == a.last());
        assert(l[0] == a[0]);
        let x = a[0] as nat;
        let p = pow256((a.len() - 2) as nat);
        assert(pow256((a.len() - 1) as nat) == 256 * p);
        let rest = be_value(l.drop_first());
        assert(be_value(a) == be_value(l) * 256 + a.last() as nat);
        assert(be_value(a.drop_first()) == rest * 256 + a.last() as nat);
        assert((x * p + rest) * 256 + a.last() as nat == x * (256 * p) + (rest * 256 + a.last() as nat))
            by (nonlinear_arith);
        let q = pow256((a.len() - 1) as nat);
        assert(x * q == x * (256 * p));
        assert(be_value(l) == x * p + rest);
    }
}

/// For sequences of one length, lexicographic order is the order of their
/// big-endian values.
pub proof fn lemma_lex_is_numeric(a: Seq<u8>, b: Seq<u8>)
    requires
        a.len() == b.len(),
    ensures
        lex_lt(a, b) == (be_value(a) < be_value(b)),
    decreases a.len(),
{
    if a.len() > 0 {
        lemma_be_value_front(a);
        lemma_be_value_front(b);
        lemma_lex_is_numeric(a.drop_first(), b.drop_first());
        let p = pow256((a.len() - 1) as nat);
        let ra = be_value(a.drop_first());
        let rb = be_value(b.drop_first());
        lemma_be_value_bound(a.drop_first());
        lemma_be_value_bound(b.drop_first());
        let x = a[0] as nat;
        let y = b[0] as nat;
        if x < y {
            assert(x * p + ra < y * p + rb) by (nonlinear_arith)
                requires
                    x < y,
                    ra < p,
            ;
        } else if y < x {
            assert(y * p + rb < x * p + ra) by (nonlinear_arith)
                requires
                    y < x,
                    rb < p,
            ;
        }
    }
}

/// Appends the `n` low-order bytes of `x`, most significant first.
fn push_be(out: &mut Vec<u8>, x: u64, n: usize)
    ensures
        final(out)@ == old(out)@ + be_bytes(x as nat, n as nat),
    decreases n,
{
    if n > 0 {
        push_be(out, x / 256, n - 1);
        out.push((x % 256) as u8);
        assert(final(out)@ =~= old(out)@ + be_bytes(x as nat, n as nat));
    }
}

/// Reads the `n` bytes at `start` as a big-endian integer.
fn read_be(bytes: &[u8], start: usize, n: usize) -> (r: u64)
    requires
        n <= 8,
        start + n <= bytes@.len(),
    ensures
        r as nat == be_value(bytes@.subrange(start as int, start + n)),
{
    let mut acc: u64 = 0;
    let mut i: usize = start;
    let len: usize = bytes.len();
    assert(start + n <= len);
    let end: usize = start + n;
    proof {
        reveal_with_fuel(pow256, 9);
        assert(bytes@.subrange(start as int, start as int) =~= Seq::<u8>::empty());
    }
    while i < end
        invariant
            end == start + n,
            start <= i <= start + n,
            start + n <= bytes@.len(),
            n <= 8,
            acc as nat == be_value(bytes@.subrange(start as int, i as int)),
            pow256(8) == 0x1_0000_0000_0000_0000,
        decreases start + n - i,
    {
        proof {
            let s = bytes@.subrange(start as int, i as int);
            lemma_be_value_bound(s);
            lemma_pow256_mono(s.len(), 7);
            assert(bytes@.subrange(start as int, i + 1).drop_last() =~= s);
            let a = acc as nat;
            let p = pow256(s.len());
            let b = bytes@[i as int] as nat;
            assert(a * 256 + b < 0x1_0000_0000_0000_0000) by (nonlinear_arith)
                requires
                    a < p,
                    p <= pow256(7),
                    pow256(8) == 256 * pow256(7),
                    pow256(8) == 0x1_0000_0000_0000_0000,
                    b < 256,
            ;
        }
        acc = acc * 256 + bytes[i] as u64;
        i = i + 1;
    }
    acc
}

/// Powers of 256 grow with the exponent.
pub proof fn lemma_pow256_mono(a: nat, b: nat)
    requires
        a <= b,
    ensures
        pow256(a) <= pow256(b),
    decreases b,
{
    if a < b {
        lemma_pow256_mono(a, (b - 1) as nat);
    }
}

/// The stored form of a key of a named scope: the scope id (4 bytes), the key
/// length (8 bytes), both big-endian, then the key bytes.
pub open spec fn composite_key(id: u32, key: Seq<u8>) -> Seq<u8> {
    be_bytes(id as nat, 4) + be_bytes(key.len(), 8) + key
}

/// What a stored composite key decodes to, or `None` where it is too short
/// for its 12-byte header or for the key length that the header declares.
pub open spec fn decode_composite(bytes: Seq<u8>) -> Option<(u32, Seq<u8>)> {
    if bytes.len() < 12 {
        None
    } else {
        let len = be_value(bytes.subrange(4, 12));
        if bytes.len() < 12 + len {
            None
        } else {
            Some((be_value(bytes.subrange(0, 4)) as u32, bytes.subrange(12, 12 + len as int)))
        }
    }
}

/// Decoding an encoded composite key gives back the scope id and the user key.
pub proof fn lemma_codec_round_trip(id: u32, key: Seq<u8>)
    requires
        key.len() < 0x1_0000_0000_0000_0000,
    ensures
        decode_composite(composite_key(id, key)) == Some((id, key)),
{
    reveal_with_fuel(pow256, 9);
    assert(pow256(4) == 0x1_0000_0000);
    assert(pow256(8) == 0x1_0000_0000_0000_0000);
    let c = composite_key(id, key);
    let h = be_bytes(id as nat, 4);
    let l = be_bytes(key.len(), 8);
    lemma_be_bytes_len(id as nat, 4);
    lemma_be_bytes_len(key.len(), 8);
    lemma_be_value_of_bytes(id as nat, 4);
    lemma_be_value_of_bytes(key.len(), 8);
    assert(c.subrange(0, 4) =~= h);
    assert(c.subrange(4, 12) =~= l);
    assert(c.subrange(12, 12 + key.len() as int) =~= key);
}

/// A key of the generic container together with the id of its scope.
#[derive(Debug, Clone, PartialEq, Eq)]
pub struct ScopedKey<K> {
    pub scope_hash: u32,
    pub key: K,
}

/// The codec of composite keys.
///
/// Layout: `[scope id: 4 bytes BE][key length: 8 bytes BE][key bytes]`. Both
/// integers are big-endian, so that the byte order of stored keys sorts by
/// scope id first and every scope is one contiguous run of keys.
pub struct ScopedBytesCodec;

impl ScopedBytesCodec {
    /// Encodes a scope id and a user key into a composite key.
    pub fn encode(scope_hash: u32, key: &[u8]) -> (r: Vec<u8>)
        ensures
            r@ == composite_key(scope_hash, key@),
    {
        let mut output: Vec<u8> = Vec::new();
        push_be(&mut output, scope_hash as u64, 4);
        push_be(&mut output, key.len() as u64, 8);
        output.extend_from_slice(key);
        proof {
            assert(output@ =~= composite_key(scope_hash, key@));
        }
        output
    }

    /// Decodes a composite key into its scope id and user key.
    pub fn decode(bytes: &[u8]) -> (r: Result<(u32, &[u8]), ScopedDbError>)
        ensures
            decode_composite(bytes@) is None <==> r is Err,
            r is Err ==> r matches Err(ScopedDbError::Encoding(_)),
            r matches Ok(p) ==> decode_composite(bytes@) == Some((p.0, p.1@)),
    {
        if bytes.len() < 12 {
            return Err(ScopedDbError::Encoding("Not enough bytes to decode scoped key".to_string()));
        }
        let scope_hash = read_be(bytes, 0, 4);
        let key_len = read_be(bytes, 4, 8);
        proof {
            reveal_with_fuel(pow256, 5);
            lemma_be_value_bound(bytes@.subrange(0, 4));
        }
        if key_len > (bytes.len() - 12) as u64 {
            return Err(ScopedDbError::Encoding("Not enough bytes for key".to_string()));
        }
        let key = &bytes[12..12 + key_len as usize];
        Ok((scope_hash as u32, key))
    }
}

} // verus!
