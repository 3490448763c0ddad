//! Values that hold key material. None of them can be printed; what they hold is reached only
//! through `expose_secret`.
//!
//! Each of them wipes its memory when it is dropped. That cannot be said in a contract: whether
//! memory that nothing refers to any more was overwritten is beyond what a contract speaks of.

use vstd::prelude::*;
use zeroize::Zeroize;

verus! {

/// `zeroize` of a vector overwrites all of its memory with zeros and leaves it empty.
#[verifier::external_body]
fn wipe_bytes(bytes: &mut Vec<u8>)
    ensures
        final(bytes)@.len() == 0,
    opens_invariants none
    no_unwind
{
    bytes.zeroize();
}

/// `zeroize` of a string overwrites all of its memory with zeros and leaves it empty.
#[verifier::external_body]
fn wipe_text(text: &mut String)
    ensures
        final(text)@.len() == 0,
    opens_invariants none
    no_unwind
{
    text.zeroize();
}

/// `zeroize` of an array overwrites each of its elements with zero.
#[verifier::external_body]
fn wipe_key(bytes: &mut [u8; 32])
    ensures
        forall|i: int| 0 <= i < 32 ==> #[trigger] final(bytes)@[i] == 0,
    opens_invariants none
    no_unwind
{
    bytes.zeroize();
}

/// Secret bytes of any length.
pub struct SecretBytes {
    bytes: Vec<u8>,
}

impl View for SecretBytes {
    type V = Seq<u8>;

    closed spec fn view(&self) -> Seq<u8> {
        self.bytes@
    }
}

impl Drop for SecretBytes {
    fn drop(&mut self)
        opens_invariants none
        no_unwind
    {
        wipe_bytes(&mut self.bytes);
    }
}

impl SecretBytes {
    /// Wraps `bytes`.
    pub fn new(bytes: Vec<u8>) -> (secret: SecretBytes)
        ensures
            secret@ == bytes@,
    {
        SecretBytes { bytes }
    }

    /// The bytes held.
    pub fn expose_secret(&self) -> (bytes: &[u8])
        ensures
            bytes@ == self@,
    {
        self.bytes.as_slice()
    }
}

/// Secret text.
pub struct SecretString {
    text: String,
}

impl View for SecretString {
    type V = Seq<char>;

    closed spec fn view(&self) -> Seq<char> {
        self.text@
    }
}

impl Drop for SecretString {
    fn drop(&mut self)
        opens_invariants none
        no_unwind
    {
        wipe_text(&mut self.text);
    }
}

impl SecretString {
    /// Wraps `text`.
    pub fn new(text: String) -> (secret: SecretString)
        ensures
            secret@ == text@,
    {
        SecretString { text }
    }

    /// The text held.
    pub fn expose_secret(&self) -> (text: &str)
        ensures
            text@ == self@,
    {
        self.text.as_str()
    }
}

/// A secret key of 32 bytes.
pub struct FixedKey {
    bytes: [u8; 32],
}

impl View for FixedKey {
    type V = Seq<u8>;

    closed spec fn view(&self) -> Seq<u8> {
        self.bytes@
    }
}

impl Drop for FixedKey {
    fn drop(&mut self)
        opens_invariants none
        no_unwind
    {
        wipe_key(&mut self.bytes);
    }
}

impl FixedKey {
    /// Wraps `bytes`.
    pub fn new(bytes: [u8; 32]) -> (key: FixedKey)
        ensures
            key@ == bytes@,
    {
        FixedKey { bytes }
    }

    /// The bytes held.
    pub fn expose_secret(&self) -> (bytes: &[u8; 32])
        ensures
            bytes@ == self@,
    {
        &self.bytes
    }
}

} // verus!
