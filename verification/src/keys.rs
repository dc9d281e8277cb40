//! Admin public keys, modelled by their canonical compressed encoding.
//!
//! The state machine only ever compares keys, checks that they are
//! well-formed, and writes their fixed-width raw encoding into signature
//! messages. It therefore carries each key as its 96-byte compressed
//! serialization; the cryptographic checks live behind trusted wrappers
//! around the BLS library.

use vstd::prelude::*;

verus! {

/// The encodings of a list of keys, in order.
pub open spec fn keys_view(ks: Seq<AdminKey>) -> Seq<Seq<u8>> {
    Seq::new(ks.len(), |i: int| ks[i]@)
}

/// A BLS admin public key, held as its compressed canonical encoding.
///
/// Two keys are the same admin exactly when their encodings are equal.
#[derive(Debug)]
pub struct AdminKey {
    /// The compressed canonical encoding of the key (96 bytes for a
    /// well-formed key).
    pub bytes: Vec<u8>,
}

impl View for AdminKey {
    type V = Seq<u8>;

    open spec fn view(&self) -> Seq<u8> {
        self.bytes@
    }
}

impl Clone for AdminKey {
    fn clone(&self) -> (r: Self)
        ensures
            r@ == self@,
    {
        AdminKey { bytes: clone_bytes(&self.bytes) }
    }
}

impl AdminKey {
    /// Wraps an encoding as a key value.
    pub fn new(bytes: Vec<u8>) -> (r: Self)
        ensures
            r@ == bytes@,
    {
        AdminKey { bytes }
    }
}

/// An aggregated BLS multisignature, held as its 48-byte compressed
/// encoding, the same way [`AdminKey`] holds a key. The state machine only
/// carries it to the signature check; an encoding that does not decode to
/// a signature simply never verifies.
#[derive(Debug)]
pub struct AggregateSig {
    /// The compressed encoding of the aggregated signature (48 bytes for a
    /// well-formed one).
    pub bytes: Vec<u8>,
}

impl View for AggregateSig {
    type V = Seq<u8>;

    open spec fn view(&self) -> Seq<u8> {
        self.bytes@
    }
}

impl Clone for AggregateSig {
    fn clone(&self) -> (r: Self)
        ensures
            r@ == self@,
    {
        AggregateSig { bytes: clone_bytes(&self.bytes) }
    }
}

impl AggregateSig {
    /// Wraps an encoding as a signature value.
    pub fn new(bytes: Vec<u8>) -> (r: Self)
        ensures
            r@ == bytes@,
    {
        AggregateSig { bytes }
    }
}

/// Copies a byte vector.
pub fn clone_bytes(v: &Vec<u8>) -> (r: Vec<u8>)
    ensures
        r@ == v@,
{
    let mut r: Vec<u8> = Vec::new();
    let mut i: usize = 0;
    while i < v.len()
        invariant
            i <= v@.len(),
            r@ == v@.take(i as int),
        decreases v@.len() - i,
    {
        r.push(v[i]);
        i += 1;
        proof {
            assert(r@ =~= v@.take(i as int));
        }
    }
    proof {
        assert(v@.take(v@.len() as int) =~= v@);
    }
    r
}

/// Compares two byte vectors for equality.
pub fn bytes_eq(a: &Vec<u8>, b: &Vec<u8>) -> (r: bool)
    ensures
        r == (a@ == b@),
{
    if a.len() != b.len() {
        proof {
            assert(a@ != b@) by {
                assert(a@.len() != b@.len());
            }
        }
        return false;
    }
    let mut i: usize = 0;
    while i < a.len()
        invariant
            i <= a@.len(),
            a@.len() == b@.len(),
            forall|k: int| 0 <= k < i ==> a@[k] == b@[k],
        decreases a@.len() - i,
    {
        if a[i] != b[i] {
            return false;
        }
        i += 1;
    }
    proof {
        assert(a@ =~= b@);
    }
    true
}

/// Compares two admin keys; they are equal exactly when their encodings are.
pub fn key_eq(a: &AdminKey, b: &AdminKey) -> (r: bool)
    ensures
        r == (a@ == b@),
{
    bytes_eq(&a.bytes, &b.bytes)
}

/// Returns `true` if `keys` holds an entry equal to `key`.
pub fn keys_contain(keys: &Vec<AdminKey>, key: &AdminKey) -> (r: bool)
    ensures
        r == exists|i: int| 0 <= i < keys@.len() && keys@[i]@ == key@,
{
    let mut i: usize = 0;
    while i < keys.len()
        invariant
            i <= keys@.len(),
            forall|k: int| 0 <= k < i ==> keys@[k]@ != key@,
        decreases keys@.len() - i,
    {
        if key_eq(&keys[i], key) {
            return true;
        }
        i += 1;
    }
    false
}

/// Returns `true` if two entries of `keys` are the same key.
pub fn keys_have_duplicates(keys: &Vec<AdminKey>) -> (r: bool)
    ensures
        r == exists|i: int, j: int|
            0 <= i < j < keys@.len() && keys@[i]@ == keys@[j]@,
{
    let len = keys.len();
    let mut i: usize = 0;
    while i < len
        invariant
            i <= len,
            len == keys@.len(),
            forall|p: int, q: int| 0 <= p < q < len && p < i ==> keys@[p]@ != keys@[q]@,
        decreases len - i,
    {
        let mut j: usize = i + 1;
        while j < len
            invariant
                i < len,
                i < j,
                len == keys@.len(),
                forall|q: int| i < q < j ==> keys@[i as int]@ != keys@[q]@,
            decreases len - j,
        {
            if key_eq(&keys[i], &keys[j]) {
                return true;
            }
            j += 1;
        }
        i += 1;
    }
    false
}

/// Copies a list of admin keys, preserving encodings and order.
pub fn clone_keys(keys: &Vec<AdminKey>) -> (r: Vec<AdminKey>)
    ensures
        r@.len() == keys@.len(),
        forall|i: int| 0 <= i < keys@.len() ==> r@[i]@ == keys@[i]@,
{
    let mut r: Vec<AdminKey> = Vec::new();
    let mut i: usize = 0;
    while i < keys.len()
        invariant
            i <= keys@.len(),
            r@.len() == i,
            forall|k: int| 0 <= k < i ==> r@[k]@ == keys@[k]@,
        decreases keys@.len() - i,
    {
        r.push(keys[i].clone());
        i += 1;
    }
    r
}

} // verus!
