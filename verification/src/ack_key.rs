//! The two kinds of secret key with which the guardian signs acknowledgements.

use crate::error::{failed, failure, GuardianError};
use crate::hexadecimal::{
    decode, decoding_gives_what_is_spelled, decoding_inverts_encoding, hex_outcome, hex_text,
    hex_text_has_no_white_space, spells,
};
use crate::secret::{SecretBytes, SecretString};
use crate::text::{is_bare, is_blank, trimmed, trimming_removes_padding};
use miden_protocol::crypto::dsa::ecdsa_k256_keccak::SecretKey as EcdsaSecretKey;
use miden_protocol::crypto::dsa::falcon512_poseidon2::SecretKey as FalconSecretKey;
use miden_protocol::utils::serde::{Deserializable, Serializable};
use vstd::prelude::*;
use vstd::utf8::encode_utf8;

verus! {

/// A Falcon secret key, as `miden_protocol` represents it.
#[verifier::external_type_specification]
#[verifier::external_body]
pub struct ExFalconSecretKey(FalconSecretKey);

/// An ECDSA secret key, as `miden_protocol` represents it.
#[verifier::external_type_specification]
#[verifier::external_body]
pub struct ExEcdsaSecretKey(EcdsaSecretKey);

/// A secret key that can be read from bytes and generated.
pub trait AckSecret: Sized {
    /// What reading `bytes` gives: a key, or the text of the error.
    spec fn parsed(bytes: Seq<u8>) -> Result<Self, Seq<char>>;

    /// Reads a key from `bytes`.
    fn parse(bytes: &[u8]) -> (result: Result<Self, String>)
        ensures
            match result {
                Ok(key) => Self::parsed(bytes@) == Ok::<Self, Seq<char>>(key),
                Err(error) => Self::parsed(bytes@) == Err::<Self, Seq<char>>(error@),
            },
    ;

    /// The bytes of a freshly generated key.
    fn generate() -> (secret: SecretBytes)
        ensures
            Self::parsed(secret@) is Ok,
            2 * secret@.len() <= isize::MAX,
    ;
}

/// The length of a serialized Falcon key.
pub open spec fn falcon_key_length() -> nat {
    1281
}

/// The first byte of a serialized Falcon key: the format in its high half, and in its low half
/// the logarithm of the degree.
pub open spec fn falcon_key_header() -> u8 {
    0x59
}

/// Why `bytes` hold no Falcon key, if they do not.
pub open spec fn falcon_refusal(bytes: Seq<u8>) -> Option<Seq<char>> {
    if bytes.len() < falcon_key_length() {
        Some("unexpected end of file"@)
    } else if bytes[0] / 16 != falcon_key_header() / 16 {
        Some("invalid value: Invalid header format"@)
    } else if bytes[0] % 16 != falcon_key_header() % 16 {
        Some("invalid value: Unsupported Falcon DSA variant"@)
    } else {
        None
    }
}

/// The key that `read_from_bytes` of a Falcon `SecretKey` makes of a serialized one.
pub uninterp spec fn falcon_key(bytes: Seq<u8>) -> FalconSecretKey;

/// `read_from_bytes` of a Falcon `SecretKey` looks at the first 1281 bytes only. It refuses
/// fewer, then a wrong header; any other bytes give a key that depends on them alone.
#[verifier::external_body]
fn read_falcon(bytes: &[u8]) -> (result: Result<FalconSecretKey, String>)
    ensures
        match result {
            Ok(key) => falcon_refusal(bytes@) is None && key == falcon_key(
                bytes@.take(falcon_key_length() as int),
            ),
            Err(error) => falcon_refusal(bytes@) == Some(error@),
        },
{
    FalconSecretKey::read_from_bytes(bytes).map_err(|error| error.to_string())
}

/// `new` of a Falcon `SecretKey` draws a key from the randomness of the operating system, and
/// `to_bytes` writes it as 1281 bytes of which the first is the header.
#[verifier::external_body]
fn new_falcon() -> (bytes: Vec<u8>)
    ensures
        bytes@.len() == falcon_key_length(),
        bytes@[0] == falcon_key_header(),
{
    FalconSecretKey::new().to_bytes()
}

impl AckSecret for FalconSecretKey {
    open spec fn parsed(bytes: Seq<u8>) -> Result<FalconSecretKey, Seq<char>> {
        match falcon_refusal(bytes) {
            Some(error) => Err(error),
            None => Ok(falcon_key(bytes.take(falcon_key_length() as int))),
        }
    }

    fn parse(bytes: &[u8]) -> (result: Result<FalconSecretKey, String>) {
        read_falcon(bytes)
    }

    fn generate() -> (secret: SecretBytes)
        ensures
            secret@.len() == falcon_key_length(),
    {
        SecretBytes::new(new_falcon())
    }
}

/// The length of a serialized ECDSA key.
pub open spec fn ecdsa_key_length() -> nat {
    32
}

/// The order of the group that secp256k1 generates.
pub open spec fn secp256k1_order() -> nat {
    0xffff_ffff_ffff_ffff_ffff_ffff_ffff_fffe_baae_dce6_af48_a03b_bfd2_5e8c_d036_4141nat
}

/// The number that `bytes` are the big-endian form of.
pub open spec fn big_endian(bytes: Seq<u8>) -> nat
    decreases bytes.len(),
{
    if bytes.len() == 0 {
        0
    } else {
        big_endian(bytes.drop_last()) * 256 + bytes.last() as nat
    }
}

/// Why `bytes` hold no ECDSA key, if they do not.
pub open spec fn ecdsa_refusal(bytes: Seq<u8>) -> Option<Seq<char>> {
    let scalar = big_endian(bytes.take(ecdsa_key_length() as int));
    if bytes.len() < ecdsa_key_length() {
        Some("unexpected end of file"@)
    } else if scalar == 0 || scalar >= secp256k1_order() {
        Some("invalid value: Invalid secret key"@)
    } else {
        None
    }
}

/// The key that `read_from_bytes` of an ECDSA `SecretKey` makes of a serialized one.
pub uninterp spec fn ecdsa_key(bytes: Seq<u8>) -> EcdsaSecretKey;

/// `read_from_bytes` of an ECDSA `SecretKey` looks at the first 32 bytes only. It refuses fewer,
/// then a big-endian number that is zero or not below the group order; any other bytes give a key
/// that depends on them alone.
#[verifier::external_body]
fn read_ecdsa(bytes: &[u8]) -> (result: Result<EcdsaSecretKey, String>)
    ensures
        match result {
            Ok(key) => ecdsa_refusal(bytes@) is None && key == ecdsa_key(
                bytes@.take(ecdsa_key_length() as int),
            ),
            Err(error) => ecdsa_refusal(bytes@) == Some(error@),
        },
{
    EcdsaSecretKey::read_from_bytes(bytes).map_err(|error| error.to_string())
}

/// `new` of an ECDSA `SecretKey` draws a non-zero scalar from the randomness of the operating
/// system, and `to_bytes` writes it as a big-endian number of 32 bytes.
#[verifier::external_body]
fn new_ecdsa() -> (bytes: Vec<u8>)
    ensures
        bytes@.len() == ecdsa_key_length(),
        0 < big_endian(bytes@) < secp256k1_order(),
{
    EcdsaSecretKey::new().to_bytes()
}

impl AckSecret for EcdsaSecretKey {
    open spec fn parsed(bytes: Seq<u8>) -> Result<EcdsaSecretKey, Seq<char>> {
        match ecdsa_refusal(bytes) {
            Some(error) => Err(error),
            None => Ok(ecdsa_key(bytes.take(ecdsa_key_length() as int))),
        }
    }

    fn parse(bytes: &[u8]) -> (result: Result<EcdsaSecretKey, String>) {
        read_ecdsa(bytes)
    }

    fn generate() -> (secret: SecretBytes)
        ensures
            secret@.len() == ecdsa_key_length(),
    {
        let bytes = new_ecdsa();
        assert(bytes@.take(ecdsa_key_length() as int) =~= bytes@);
        SecretBytes::new(bytes)
    }
}

/// The key that a stored secret stands for, or the message of the error. `label` says in the
/// message where the secret came from.
pub open spec fn decoded_key<T: AckSecret>(label: Seq<char>, stored: Seq<char>) -> Result<
    T,
    Seq<char>,
> {
    match hex_outcome(trimmed(stored)) {
        Err(error) => Err(failure(label, " is not valid hex"@, error)),
        Ok(bytes) => match T::parsed(bytes) {
            Err(error) => Err(failure(label, " does not hold a valid key"@, error)),
            Ok(key) => Ok(key),
        },
    }
}

/// Reads the key that a stored secret stands for: hexadecimal text, with white space allowed
/// around it.
pub fn decode_secret_key<T: AckSecret>(label: &str, stored: &SecretString) -> (result: Result<
    T,
    GuardianError,
>)
    ensures
        match result {
            Ok(key) => decoded_key::<T>(label@, stored@) == Ok::<T, Seq<char>>(key),
            Err(error) => decoded_key::<T>(label@, stored@) == Err::<T, Seq<char>>(error@),
        },
{
    let decoded = decode(stored.expose_secret().trim());
    match decoded {
        Err(error) => Err(failed(label, " is not valid hex", error.as_str())),
        Ok(bytes) => {
            let secret = SecretBytes::new(bytes);
            match T::parse(secret.expose_secret()) {
                Err(error) => Err(failed(label, " does not hold a valid key", error.as_str())),
                Ok(key) => Ok(key),
            }
        },
    }
}

/// A stored text, with white space around it, gives a key exactly where it spells bytes that hold
/// this key. So a text with an odd number of digits, or with anything else in it, gives none.
pub proof fn a_stored_text_gives_the_key_it_spells<T: AckSecret>(
    label: Seq<char>,
    before: Seq<char>,
    text: Seq<char>,
    after: Seq<char>,
    key: T,
)
    requires
        is_blank(before),
        is_blank(after),
        is_bare(text),
    ensures
        decoded_key::<T>(label, before + text + after) == Ok::<T, Seq<char>>(key) <==> exists|
            bytes: Seq<u8>,
        | #[trigger]
            spells(encode_utf8(text), bytes) && T::parsed(bytes) == Ok::<T, Seq<char>>(key),
{
    trimming_removes_padding(before, text, after);
    if let Ok(bytes) = hex_outcome(text) {
        decoding_gives_what_is_spelled(text, bytes);
    }
    assert forall|bytes: Seq<u8>| #[trigger] spells(encode_utf8(text), bytes) implies hex_outcome(
        text,
    ) == Ok::<Seq<u8>, Seq<char>>(bytes) by {
        decoding_gives_what_is_spelled(text, bytes);
    }
}

/// A stored text that gives no key is refused, and the message says where it came from and why:
/// where it spells no bytes, that it is no hexadecimal text, and where it spells bytes that hold no
/// key, what reading these said.
pub proof fn a_stored_text_that_is_no_key_is_refused<T: AckSecret>(
    label: Seq<char>,
    before: Seq<char>,
    text: Seq<char>,
    after: Seq<char>,
    bytes: Seq<u8>,
)
    requires
        is_blank(before),
        is_blank(after),
        is_bare(text),
    ensures
        spells(encode_utf8(text), bytes) ==> (T::parsed(bytes) matches Err(error) ==> decoded_key::<
            T,
        >(label, before + text + after) == Err::<T, Seq<char>>(
            label + " does not hold a valid key: "@ + error,
        )),
        hex_outcome(text) matches Err(error) ==> decoded_key::<T>(label, before + text + after)
            == Err::<T, Seq<char>>(label + " is not valid hex: "@ + error),
{
    trimming_removes_padding(before, text, after);
    decoding_gives_what_is_spelled(text, bytes);
    reveal_strlit(" does not hold a valid key: ");
    reveal_strlit(" does not hold a valid key");
    reveal_strlit(" is not valid hex: ");
    reveal_strlit(" is not valid hex");
    reveal_strlit(": ");
    assert(" does not hold a valid key"@ + ": "@ =~= " does not hold a valid key: "@);
    assert(" is not valid hex"@ + ": "@ =~= " is not valid hex: "@);
    if let Err(error) = hex_outcome(text) {
        assert(decoded_key::<T>(label, before + text + after)->Err_0 =~= label
            + " is not valid hex: "@ + error);
    } else if let Err(error) = T::parsed(hex_outcome(text)->Ok_0) {
        assert(decoded_key::<T>(label, before + text + after)->Err_0 =~= label
            + " does not hold a valid key: "@ + error);
    }
}

/// Bytes hold a Falcon key exactly where there are at least 1281 of them and the first is the
/// header. Which key it is depends on the first 1281 bytes alone.
pub proof fn falcon_keys_are_read_from_their_first_bytes(a: Seq<u8>, b: Seq<u8>)
    ensures
        <FalconSecretKey as AckSecret>::parsed(a) is Ok <==> a.len() >= 1281 && a[0] == 0x59,
        a.len() < 1281 ==> <FalconSecretKey as AckSecret>::parsed(a) == Err::<
            FalconSecretKey,
            Seq<char>,
        >("unexpected end of file"@),
        a.len() >= 1281 && a[0] / 16 != 5 ==> <FalconSecretKey as AckSecret>::parsed(a) == Err::<
            FalconSecretKey,
            Seq<char>,
        >("invalid value: Invalid header format"@),
        a.len() >= 1281 && a[0] / 16 == 5 && a[0] % 16 != 9 ==> {
            let refused = <FalconSecretKey as AckSecret>::parsed(a);
            refused == Err::<FalconSecretKey, Seq<char>>(
                "invalid value: Unsupported Falcon DSA variant"@,
            )
        },
        <FalconSecretKey as AckSecret>::parsed(a) matches Ok(key) ==> key == falcon_key(
            a.take(1281),
        ),
        a.len() >= 1281 && b.len() >= 1281 && a.take(1281) == b.take(1281) ==> {
            let one = <FalconSecretKey as AckSecret>::parsed(a);
            one == <FalconSecretKey as AckSecret>::parsed(b)
        },
{
    if a.len() >= 1281 && b.len() >= 1281 && a.take(1281) == b.take(1281) {
        assert(a[0] == a.take(1281)[0] && b[0] == b.take(1281)[0]);
    }
}

/// Bytes hold an ECDSA key exactly where there are at least 32 of them and the first 32 are a
/// number other than zero below the order of the group. Which key it is depends on these alone.
pub proof fn ecdsa_keys_are_read_from_their_first_bytes(a: Seq<u8>, b: Seq<u8>)
    ensures
        <EcdsaSecretKey as AckSecret>::parsed(a) is Ok <==> a.len() >= 32 && 0 < big_endian(
            a.take(32),
        ) < secp256k1_order(),
        a.len() < 32 ==> <EcdsaSecretKey as AckSecret>::parsed(a) == Err::<
            EcdsaSecretKey,
            Seq<char>,
        >("unexpected end of file"@),
        a.len() >= 32 && !(0 < big_endian(a.take(32)) < secp256k1_order()) ==> {
            let refused = <EcdsaSecretKey as AckSecret>::parsed(a);
            refused == Err::<EcdsaSecretKey, Seq<char>>("invalid value: Invalid secret key"@)
        },
        <EcdsaSecretKey as AckSecret>::parsed(a) matches Ok(key) ==> key == ecdsa_key(a.take(32)),
        a.len() >= 32 && b.len() >= 32 && a.take(32) == b.take(32) ==> {
            let one = <EcdsaSecretKey as AckSecret>::parsed(a);
            one == <EcdsaSecretKey as AckSecret>::parsed(b)
        },
{
}

/// A secret that is stored as hexadecimal text, with any white space around it, is read back as
/// the key that its bytes stand for.
pub proof fn stored_secret_is_read_back<T: AckSecret>(
    label: Seq<char>,
    before: Seq<char>,
    secret: Seq<u8>,
    after: Seq<char>,
)
    requires
        is_blank(before),
        is_blank(after),
        T::parsed(secret) is Ok,
    ensures
        decoded_key::<T>(label, before + hex_text(secret) + after) == T::parsed(secret),
{
    hex_text_has_no_white_space(secret);
    trimming_removes_padding(before, hex_text(secret), after);
    decoding_inverts_encoding(secret);
}

} // verus!
