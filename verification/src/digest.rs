//! Digest engine: Keccak-256 digests of byte strings, and the order-sensitive
//! combination of two sibling digests into their parent digest.

use vstd::prelude::*;

use crate::serializable::Serializable;

verus! {

/// A node digest: 32 bytes of Keccak-256 output.
pub type Digest = [u8; 32];

/// What Keccak-256 returns on a byte sequence. The digest is a pure function
/// of the input bytes alone; nothing is stated of its value.
pub uninterp spec fn keccak_of(bytes: Seq<u8>) -> Seq<u8>;

/// The parent digest of two sibling digests: Keccak-256 of the
/// order-sensitive concatenation `left ++ right`.
pub open spec fn combine_of(left: Seq<u8>, right: Seq<u8>) -> Seq<u8> {
    keccak_of(left + right)
}

/// The concatenation of the bytes of a sequence of digests.
pub open spec fn concat_hashes(hashes: Seq<Digest>) -> Seq<u8>
    decreases hashes.len(),
{
    if hashes.len() == 0 {
        Seq::empty()
    } else {
        concat_hashes(hashes.drop_last()) + hashes.last()@
    }
}

/// Relies on `sha3::Keccak256` (through the one-shot `Digest::digest`): the
/// 32-byte Keccak-256 digest of the input, a function of the input bytes
/// alone.
#[verifier::external_body]
fn keccak256(bytes: &[u8]) -> (r: Digest)
    ensures
        r@ == keccak_of(bytes@),
{
    let digest = <sha3::Keccak256 as sha3::Digest>::digest(bytes);
    digest.into()
}

/// The digest of one scalar value: Keccak-256 of its little-endian encoding.
pub open spec fn hash_of<T: Serializable>(v: T) -> Seq<u8> {
    keccak_of(v.le_bytes())
}

/// Returns the digest of a single scalar value, given by reference.
pub(crate) fn hash_ref<T: Serializable>(n: &T) -> (r: Digest)
    ensures
        r@ == hash_of(*n),
{
    let bytes = n.to_le_bytes();
    keccak256(bytes.as_slice())
}

/// Returns the digest of a single scalar value.
pub fn hash_one<T: Serializable>(n: T) -> (r: Digest)
    ensures
        r@ == hash_of(n),
{
    hash_ref(&n)
}

/// Appends the 32 bytes of one digest to a byte buffer.
fn push_hash_bytes(buf: &mut Vec<u8>, h: &Digest)
    ensures
        final(buf)@ == old(buf)@ + h@,
{
    let ghost start = buf@;
    let mut i: usize = 0;
    while i < 32
        invariant
            i <= 32,
            buf@ == start + h@.take(i as int),
        decreases 32 - i,
    {
        buf.push(h[i]);
        i += 1;
        proof {
            assert(start + h@.take(i - 1) + seq![h@[i - 1]] =~= start + h@.take(i as int));
        }
    }
    proof {
        assert(start + h@.take(32) =~= start + h@);
    }
}

/// The parent digest of an ordered sibling pair.
pub fn combine(left: &Digest, right: &Digest) -> (r: Digest)
    ensures
        r@ == combine_of(left@, right@),
{
    let mut buf: Vec<u8> = Vec::new();
    push_hash_bytes(&mut buf, left);
    push_hash_bytes(&mut buf, right);
    proof {
        assert(buf@ =~= left@ + right@);
    }
    keccak256(buf.as_slice())
}

/// Returns the digest of the concatenation of the given digests.
pub fn hash_multiple(hashes: &[Digest]) -> (r: Digest)
    ensures
        r@ == keccak_of(concat_hashes(hashes@)),
{
    let mut buf: Vec<u8> = Vec::new();
    let n = hashes.len();
    let mut i: usize = 0;
    while i < n
        invariant
            i <= n,
            n == hashes@.len(),
            buf@ == concat_hashes(hashes@.take(i as int)),
        decreases n - i,
    {
        push_hash_bytes(&mut buf, &hashes[i]);
        i += 1;
        proof {
            assert(hashes@.take(i as int).drop_last() =~= hashes@.take(i - 1));
            assert(hashes@.take(i as int).last() == hashes@[i - 1]);
        }
    }
    proof {
        assert(hashes@.take(n as int) =~= hashes@);
    }
    keccak256(buf.as_slice())
}

/// Byte-wise equality of two digests.
pub fn hash_eq(a: &Digest, b: &Digest) -> (r: bool)
    ensures
        r == (a@ == b@),
{
    let mut i: usize = 0;
    while i < 32
        invariant
            i <= 32,
            forall|j: int| 0 <= j < i ==> a@[j] == b@[j],
        decreases 32 - i,
    {
        if a[i] != b[i] {
            return false;
        }
        i += 1;
    }
    proof {
        assert(a@ =~= b@);
    }
    true
}

} // verus!
