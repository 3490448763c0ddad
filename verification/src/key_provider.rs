//! The keys under which stored state is encrypted.

use crate::secret::FixedKey;
use vstd::hash_map::StringHashMap;
use vstd::prelude::*;

verus! {

/// Why there is no storage key to be had.
#[derive(Debug)]
pub enum KeyProviderError {
    /// The dstack guest agent did not deliver a usable answer.
    DstackUnavailable(String),
    /// A key does not have 32 bytes.
    InvalidKeyLength,
    /// There is no key with this id.
    UnknownKey(String),
}

/// The view of a [`KeyProviderError`].
pub enum KeyProviderErrorView {
    DstackUnavailable(Seq<char>),
    InvalidKeyLength,
    UnknownKey(Seq<char>),
}

impl View for KeyProviderError {
    type V = KeyProviderErrorView;

    open spec fn view(&self) -> KeyProviderErrorView {
        match self {
            KeyProviderError::DstackUnavailable(message) =>
                KeyProviderErrorView::DstackUnavailable(message@),
            KeyProviderError::InvalidKeyLength => KeyProviderErrorView::InvalidKeyLength,
            KeyProviderError::UnknownKey(kid) => KeyProviderErrorView::UnknownKey(kid@),
        }
    }
}

/// Storage keys by their ids, one of which is the key that new envelopes are sealed with.
pub struct InMemoryKeyProvider {
    active: String,
    keys: StringHashMap<FixedKey>,
}

/// The view of an [`InMemoryKeyProvider`].
#[verifier::ext_equal]
pub struct InMemoryKeyProviderView {
    /// The id of the active key.
    pub active: Seq<char>,
    /// All keys by their ids.
    pub keys: Map<Seq<char>, Seq<u8>>,
}

impl View for InMemoryKeyProvider {
    type V = InMemoryKeyProviderView;

    closed spec fn view(&self) -> InMemoryKeyProviderView {
        InMemoryKeyProviderView { active: self.active@, keys: key_bytes(self.keys@) }
    }
}

/// The bytes of each of `keys`.
pub open spec fn key_bytes(keys: Map<Seq<char>, FixedKey>) -> Map<Seq<char>, Seq<u8>> {
    keys.map_values(|key: FixedKey| key@)
}

/// The bytes of keys are those of each of them, under the same ids.
pub proof fn key_bytes_are_those_of_the_keys(keys: Map<Seq<char>, FixedKey>, kid: Seq<char>)
    ensures
        key_bytes(keys).dom() == keys.dom(),
        keys.contains_key(kid) ==> key_bytes(keys)[kid] == keys[kid]@,
{
}

/// The view of an error holds the very text of the error.
pub proof fn the_view_of_an_error_holds_its_text(error: KeyProviderError)
    ensures
        match error {
            KeyProviderError::DstackUnavailable(text) => error@
                == KeyProviderErrorView::DstackUnavailable(text@),
            KeyProviderError::InvalidKeyLength => error@ == KeyProviderErrorView::InvalidKeyLength,
            KeyProviderError::UnknownKey(kid) => error@ == KeyProviderErrorView::UnknownKey(kid@),
        },
{
}

impl InMemoryKeyProvider {
    /// The active key is one of the keys.
    #[verifier::type_invariant]
    spec fn has_active_key(self) -> bool {
        self.keys@.contains_key(self.active@)
    }

    /// A provider of `keys`, of which the one with the id `active` has to be one.
    pub fn new(active: String, keys: StringHashMap<FixedKey>) -> (result: Result<
        InMemoryKeyProvider,
        KeyProviderError,
    >)
        ensures
            match result {
                Ok(provider) => keys@.contains_key(active@) && provider@
                    == (InMemoryKeyProviderView { active: active@, keys: key_bytes(keys@) }),
                Err(error) => !keys@.contains_key(active@) && error@
                    == KeyProviderErrorView::UnknownKey(active@),
            },
    {
        if keys.contains_key(active.as_str()) {
            Ok(InMemoryKeyProvider { active, keys })
        } else {
            Err(KeyProviderError::UnknownKey(active))
        }
    }

    /// The id of the active key, which is one of the keys.
    pub fn active_key_id(&self) -> (kid: &str)
        ensures
            kid@ == self@.active,
            self@.keys.contains_key(kid@),
    {
        proof {
            use_type_invariant(self);
        }
        self.active.as_str()
    }

    /// The key with the id `kid`.
    pub fn key(&self, kid: &str) -> (result: Result<&FixedKey, KeyProviderError>)
        ensures
            match result {
                Ok(key) => self@.keys.contains_key(kid@) && key@ == self@.keys[kid@],
                Err(error) => !self@.keys.contains_key(kid@) && error@
                    == KeyProviderErrorView::UnknownKey(kid@),
            },
    {
        match self.keys.get(kid) {
            Some(key) => Ok(key),
            None => Err(KeyProviderError::UnknownKey(kid.to_owned())),
        }
    }
}

} // verus!
