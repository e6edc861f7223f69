//! Secret bytes (the password), kept in `zeroize::Zeroizing`, which wipes
//! them, and the spare capacity of their vector, when they are dropped.

use vstd::prelude::*;
use zeroize::{Zeroize, Zeroizing};

verus! {

/// A password's bytes in a `Zeroizing<Vec<u8>>`. Verus does not take a
/// declaration of `Zeroizing` (its bound is an outside trait), so the
/// buffer is held here and read through the functions below.
#[verifier::external_body]
#[derive(Debug)]
pub struct Secret(pub Zeroizing<Vec<u8>>);

/// The bytes a secret holds.
pub uninterp spec fn secret_bytes(secret: Secret) -> Seq<u8>;

impl View for Secret {
    type V = Seq<u8>;

    open spec fn view(&self) -> Seq<u8> {
        secret_bytes(*self)
    }
}

/// `Zeroizing::new(Vec::new())`: no bytes.
#[verifier::external_body]
pub(crate) fn empty_secret() -> (secret: Secret)
    ensures
        secret_bytes(secret) == Seq::<u8>::empty(),
{
    Secret(Zeroizing::new(Vec::new()))
}

/// `Vec::len` of the buffer.
#[verifier::external_body]
pub(crate) fn secret_len(secret: &Secret) -> (n: usize)
    ensures
        n == secret_bytes(*secret).len(),
{
    secret.0.len()
}

/// `Vec::insert` on the buffer: `byte` goes in at `index`, the bytes from
/// there on move up by one.
#[verifier::external_body]
pub(crate) fn secret_insert(secret: &mut Secret, index: usize, byte: u8)
    requires
        index <= old(secret)@.len(),
    ensures
        secret_bytes(*final(secret)) == secret_bytes(*old(secret)).insert(index as int, byte),
{
    secret.0.insert(index, byte)
}

/// `Vec::remove` on the buffer: the byte at `index` leaves, the bytes after
/// it move down by one.
#[verifier::external_body]
pub(crate) fn secret_remove(secret: &mut Secret, index: usize)
    requires
        index < old(secret)@.len(),
    ensures
        secret_bytes(*final(secret)) == secret_bytes(*old(secret)).remove(index as int),
{
    secret.0.remove(index);
}

/// `Zeroize::zeroize` on the buffer: the bytes and the spare capacity are
/// overwritten with zeros and the vector is cleared.
#[verifier::external_body]
pub(crate) fn secret_wipe(secret: &mut Secret)
    ensures
        secret_bytes(*final(secret)) == Seq::<u8>::empty(),
{
    secret.0.zeroize()
}

/// `std::mem::replace` of the buffer by an empty one: the bytes move out,
/// still wrapped, and nothing is left behind.
#[verifier::external_body]
pub(crate) fn secret_take(secret: &mut Secret) -> (taken: Secret)
    ensures
        secret_bytes(taken) == secret_bytes(*old(secret)),
        secret_bytes(*final(secret)) == Seq::<u8>::empty(),
{
    Secret(std::mem::replace(&mut secret.0, Zeroizing::new(Vec::new())))
}

} // verus!
