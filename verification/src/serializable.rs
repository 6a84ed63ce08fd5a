//! Fixed-width integer values that the tree can hash: each one has a
//! canonical little-endian byte encoding.

use vstd::prelude::*;

verus! {

/// The `width` little-endian bytes of `x`, least significant byte first.
pub open spec fn le_bytes_of(x: nat, width: nat) -> Seq<u8>
    decreases width,
{
    if width == 0 {
        Seq::empty()
    } else {
        seq![(x % 256) as u8] + le_bytes_of(x / 256, (width - 1) as nat)
    }
}

/// Numeric types with a fixed-width little-endian byte encoding. Rust's
/// integer types all offer `to_le_bytes`, but under no common trait; this
/// trait names that encoding so values of every such type can be hashed.
pub trait Serializable {
    /// The canonical fixed-width little-endian encoding of the value.
    spec fn le_bytes(&self) -> Seq<u8>;

    /// Serializes the value to its canonical little-endian bytes.
    fn to_le_bytes(&self) -> (r: Vec<u8>)
        ensures
            r@ == self.le_bytes(),
    ;
}

/// Writes the `width` least significant little-endian bytes of `x`.
fn le_bytes_exec(x: u128, width: usize) -> (r: Vec<u8>)
    ensures
        r@ == le_bytes_of(x as nat, width as nat),
{
    let mut r: Vec<u8> = Vec::new();
    let mut cur: u128 = x;
    let mut i: usize = 0;
    while i < width
        invariant
            i <= width,
            r@.len() == i,
            le_bytes_of(x as nat, width as nat) == r@ + le_bytes_of(
                cur as nat,
                (width - i) as nat,
            ),
        decreases width - i,
    {
        let b: u8 = (cur % 256) as u8;
        proof {
            assert(le_bytes_of(cur as nat, (width - i) as nat) == seq![b] + le_bytes_of(
                cur as nat / 256,
                (width - i - 1) as nat,
            ));
        }
        r.push(b);
        cur = cur / 256;
        i = i + 1;
        proof {
            assert(le_bytes_of(x as nat, width as nat) =~= r@ + le_bytes_of(
                cur as nat,
                (width - i) as nat,
            ));
        }
    }
    proof {
        assert(le_bytes_of(x as nat, width as nat) =~= r@);
    }
    r
}

impl Serializable for u8 {
    open spec fn le_bytes(&self) -> Seq<u8> {
        le_bytes_of(*self as nat, 1)
    }

    fn to_le_bytes(&self) -> (r: Vec<u8>) {
        le_bytes_exec(*self as u128, 1)
    }
}

impl Serializable for u16 {
    open spec fn le_bytes(&self) -> Seq<u8> {
        le_bytes_of(*self as nat, 2)
    }

    fn to_le_bytes(&self) -> (r: Vec<u8>) {
        le_bytes_exec(*self as u128, 2)
    }
}

impl Serializable for u32 {
    open spec fn le_bytes(&self) -> Seq<u8> {
        le_bytes_of(*self as nat, 4)
    }

    fn to_le_bytes(&self) -> (r: Vec<u8>) {
        le_bytes_exec(*self as u128, 4)
    }
}

impl Serializable for u64 {
    open spec fn le_bytes(&self) -> Seq<u8> {
        le_bytes_of(*self as nat, 8)
    }

    fn to_le_bytes(&self) -> (r: Vec<u8>) {
        le_bytes_exec(*self as u128, 8)
    }
}

impl Serializable for u128 {
    open spec fn le_bytes(&self) -> Seq<u8> {
        le_bytes_of(*self as nat, 16)
    }

    fn to_le_bytes(&self) -> (r: Vec<u8>) {
        le_bytes_exec(*self, 16)
    }
}

impl Serializable for i8 {
    open spec fn le_bytes(&self) -> Seq<u8> {
        le_bytes_of((*self as u8) as nat, 1)
    }

    fn to_le_bytes(&self) -> (r: Vec<u8>) {
        let u: u8 = #[verifier::truncate] (*self as u8);
        le_bytes_exec(u as u128, 1)
    }
}

impl Serializable for i16 {
    open spec fn le_bytes(&self) -> Seq<u8> {
        le_bytes_of((*self as u16) as nat, 2)
    }

    fn to_le_bytes(&self) -> (r: Vec<u8>) {
        let u: u16 = #[verifier::truncate] (*self as u16);
        le_bytes_exec(u as u128, 2)
    }
}

impl Serializable for i32 {
    open spec fn le_bytes(&self) -> Seq<u8> {
        le_bytes_of((*self as u32) as nat, 4)
    }

    fn to_le_bytes(&self) -> (r: Vec<u8>) {
        let u: u32 = #[verifier::truncate] (*self as u32);
        le_bytes_exec(u as u128, 4)
    }
}

impl Serializable for i64 {
    open spec fn le_bytes(&self) -> Seq<u8> {
        le_bytes_of((*self as u64) as nat, 8)
    }

    fn to_le_bytes(&self) -> (r: Vec<u8>) {
        let u: u64 = #[verifier::truncate] (*self as u64);
        le_bytes_exec(u as u128, 8)
    }
}

impl Serializable for i128 {
    open spec fn le_bytes(&self) -> Seq<u8> {
        le_bytes_of((*self as u128) as nat, 16)
    }

    fn to_le_bytes(&self) -> (r: Vec<u8>) {
        let u: u128 = #[verifier::truncate] (*self as u128);
        le_bytes_exec(u, 16)
    }
}

} // verus!
