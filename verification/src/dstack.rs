//! A storage key from the dstack guest agent.
//!
//! Inside a confidential virtual machine the platform derives the key and binds it to the
//! identity of the application, so that it never exists as a value that an operator could read.

use crate::hexadecimal::{
    decoding_gives_what_is_spelled, decoding_inverts_encoding, hex_outcome, hex_text, spells,
};
use crate::key_provider::{
    key_bytes, InMemoryKeyProvider, InMemoryKeyProviderView, KeyProviderError,
    KeyProviderErrorView,
};
use crate::secret::{FixedKey, SecretBytes};
use crate::text::join;
use dstack_sdk_types::dstack::GetKeyResponse;
use vstd::hash_map::StringHashMap;
use vstd::prelude::*;
use vstd::utf8::encode_utf8;

verus! {

/// Where the guest agent listens. It is fixed here because a client that is left to look for the
/// agent first asks the environment, and whoever set that variable would choose the storage key.
pub const SOCKET_PATH: &'static str = "/var/run/dstack.sock";

/// What the key is derived for.
pub const KEY_PURPOSE: &'static str = "storage-encryption";

/// A question to the guest agent.
pub struct KeyRequest {
    /// The derivation path of the key.
    pub path: String,
    /// What the key is for.
    pub purpose: String,
}

/// The question to the guest agent for the storage key at `path`.
pub fn key_request(path: &str) -> (request: KeyRequest)
    ensures
        request.path@ == path@,
        request.purpose@ == KEY_PURPOSE@,
{
    KeyRequest { path: path.to_owned(), purpose: KEY_PURPOSE.to_owned() }
}

/// `GetKeyResponse::decode_key` hands the key of the response, as it is, to `hex::decode`; the
/// text of an error is what the error displays.
#[verifier::external_body]
fn decode_key(key: String) -> (result: Result<Vec<u8>, String>)
    ensures
        match result {
            Ok(bytes) => hex_outcome(key@) == Ok::<Seq<u8>, Seq<char>>(bytes@),
            Err(error) => hex_outcome(key@) == Err::<Seq<u8>, Seq<char>>(error@),
        },
{
    let response = GetKeyResponse { key, signature_chain: Vec::new() };
    response.decode_key().map_err(|error| error.to_string())
}

/// The secret that the answer of the guest agent holds, or the error.
pub open spec fn derived_secret(answer: Result<Seq<char>, Seq<char>>) -> Result<
    Seq<u8>,
    KeyProviderErrorView,
> {
    match answer {
        Err(error) => Err(KeyProviderErrorView::DstackUnavailable(error)),
        Ok(key) => match hex_outcome(key) {
            Err(error) => Err(
                KeyProviderErrorView::DstackUnavailable("malformed key hex: "@ + error),
            ),
            Ok(bytes) => Ok(bytes),
        },
    }
}

/// The secret that the guest agent derived. `answer` is the key in its response, in hexadecimal
/// form, or the text of the error with which asking it failed.
pub fn derive_key(answer: Result<String, String>) -> (result: Result<SecretBytes, KeyProviderError>)
    ensures
        derived_secret(
            match answer {
                Ok(key) => Ok(key@),
                Err(error) => Err(error@),
            },
        ) == match result {
            Ok(secret) => Ok::<Seq<u8>, KeyProviderErrorView>(secret@),
            Err(error) => Err::<Seq<u8>, KeyProviderErrorView>(error@),
        },
{
    match answer {
        Err(error) => Err(KeyProviderError::DstackUnavailable(error)),
        Ok(key) => match decode_key(key) {
            Err(error) => Err(
                KeyProviderError::DstackUnavailable(join("malformed key hex: ", error.as_str())),
            ),
            Ok(bytes) => Ok(SecretBytes::new(bytes)),
        },
    }
}

/// The id of the key at the derivation path `path`.
pub open spec fn dstack_key_id(path: Seq<char>) -> Seq<char> {
    "dstack:"@ + path
}

/// The provider that the secret derived at `path` gives, or the error.
pub open spec fn dstack_provider(
    path: Seq<char>,
    derived: Result<Seq<u8>, KeyProviderErrorView>,
) -> Result<InMemoryKeyProviderView, KeyProviderErrorView> {
    match derived {
        Err(error) => Err(error),
        Ok(secret) => if secret.len() != 32 {
            Err(KeyProviderErrorView::InvalidKeyLength)
        } else {
            Ok(
                InMemoryKeyProviderView {
                    active: dstack_key_id(path),
                    keys: Map::empty().insert(dstack_key_id(path), secret),
                },
            )
        },
    }
}

/// The first 32 of `bytes`.
fn first_32(bytes: &[u8]) -> (array: [u8; 32])
    requires
        bytes@.len() >= 32,
    ensures
        array@ == bytes@.take(32),
{
    let mut array: [u8; 32] = [0; 32];
    let mut i: usize = 0;
    while i < 32
        invariant
            i <= 32,
            bytes@.len() >= 32,
            array@.take(i as int) =~= bytes@.take(i as int),
        decreases 32 - i,
    {
        array[i] = bytes[i];
        i = i + 1;
    }
    assert(array@.take(32) =~= array@);
    array
}

/// The provider of the storage key that was derived at `path`. The derivation path doubles as the
/// id of the key, so that rotating means deriving at a new path.
pub fn load_dstack_provider(
    path: &str,
    derived: Result<SecretBytes, KeyProviderError>,
) -> (result: Result<InMemoryKeyProvider, KeyProviderError>)
    ensures
        dstack_provider(
            path@,
            match derived {
                Ok(secret) => Ok(secret@),
                Err(error) => Err(error@),
            },
        ) == match result {
            Ok(provider) => Ok::<InMemoryKeyProviderView, KeyProviderErrorView>(provider@),
            Err(error) => Err::<InMemoryKeyProviderView, KeyProviderErrorView>(error@),
        },
{
    match derived {
        Err(error) => Err(error),
        Ok(secret) => {
            let bytes = secret.expose_secret();
            if bytes.len() != 32 {
                return Err(KeyProviderError::InvalidKeyLength);
            }
            let key = FixedKey::new(first_32(bytes));
            let kid = join("dstack:", path);
            let mut keys = StringHashMap::new();
            keys.insert(kid.clone(), key);
            proof {
                assert(bytes@.take(32) =~= bytes@);
                assert(key_bytes(keys@) =~= Map::empty().insert(kid@, bytes@));
            }
            InMemoryKeyProvider::new(kid, keys)
        },
    }
}

/// The secret that an answer gives is the bytes that its text spells, in either case, and an answer
/// that spells none gives an error. The hexadecimal form of some bytes gives these bytes.
pub proof fn an_answer_gives_the_bytes_that_it_spells(text: Seq<char>, bytes: Seq<u8>)
    ensures
        derived_secret(Ok(text)) == Ok::<Seq<u8>, KeyProviderErrorView>(bytes) <==> spells(
            encode_utf8(text),
            bytes,
        ),
        hex_outcome(text) matches Err(error) ==> derived_secret(Ok(text)) == Err::<
            Seq<u8>,
            KeyProviderErrorView,
        >(KeyProviderErrorView::DstackUnavailable("malformed key hex: "@ + error)),
        derived_secret(Err(text)) == Err::<Seq<u8>, KeyProviderErrorView>(
            KeyProviderErrorView::DstackUnavailable(text),
        ),
        derived_secret(Ok(hex_text(bytes))) == Ok::<Seq<u8>, KeyProviderErrorView>(bytes),
{
    decoding_gives_what_is_spelled(text, bytes);
    decoding_inverts_encoding(bytes);
}

/// The key that is served for an answer, under the id that names its derivation path, is what the
/// answer spells; an answer that does not spell 32 bytes, or none at all, gives no provider.
pub proof fn the_derived_key_is_served(path: Seq<char>, text: Seq<char>, secret: Seq<u8>)
    requires
        spells(encode_utf8(text), secret),
    ensures
        secret.len() == 32 ==> (dstack_provider(path, derived_secret(Ok(text))) matches Ok(provider)
            && {
            &&& provider.active == "dstack:"@ + path
            &&& provider.keys.dom() == set!["dstack:"@ + path]
            &&& provider.keys["dstack:"@ + path] == secret
        }),
        secret.len() != 32 ==> dstack_provider(path, derived_secret(Ok(text))) == Err::<
            InMemoryKeyProviderView,
            KeyProviderErrorView,
        >(KeyProviderErrorView::InvalidKeyLength),
{
    an_answer_gives_the_bytes_that_it_spells(text, secret);
    if let Ok(provider) = dstack_provider(path, derived_secret(Ok(text))) {
        assert(provider.keys.dom() =~= set!["dstack:"@ + path]);
    }
}

/// Without a derived secret there is no provider, and the error is the one of the derivation.
pub proof fn a_failed_derivation_is_passed_on(path: Seq<char>, error: KeyProviderErrorView)
    ensures
        dstack_provider(path, Err(error)) == Err::<InMemoryKeyProviderView, KeyProviderErrorView>(
            error,
        ),
{
}

/// Keys at different derivation paths have different ids.
pub proof fn rotation_changes_the_key_id(a: Seq<char>, b: Seq<char>)
    requires
        a != b,
    ensures
        dstack_key_id(a) != dstack_key_id(b),
{
    let prefix = "dstack:"@;
    if dstack_key_id(a) == dstack_key_id(b) {
        assert(dstack_key_id(a).skip(prefix.len() as int) =~= a);
        assert(dstack_key_id(b).skip(prefix.len() as int) =~= b);
    }
}

/// A provider of a derived key knows that key, under the id that its path gives, and no other.
pub proof fn a_dstack_provider_knows_one_key(path: Seq<char>, secret: Seq<u8>, kid: Seq<char>)
    requires
        secret.len() == 32,
    ensures
        dstack_provider(path, Ok(secret)) matches Ok(provider) && {
            &&& provider.active == dstack_key_id(path)
            &&& provider.keys.contains_key(kid) <==> kid == dstack_key_id(path)
            &&& provider.keys[dstack_key_id(path)] == secret
        },
{
}

} // verus!
