//! Secrets at rest.
//!
//! The settings live in a plain file, so a key stored there as it is can be
//! read by anyone who copies the file. Before it is written a secret is sealed
//! by a platform service that ties it to the current user, and stored as
//! `dpapi:` followed by the base64 text of the sealed bytes. A value without
//! that prefix is an older plain value: it is read as it stands, and sealed the
//! next time it is saved.
//!
//! Sealing and opening are services of the platform. They come in as functions;
//! where a platform offers none, [`encrypt`] and [`decrypt`] stand for it.

use vstd::prelude::*;
use vstd::utf8::{decode_utf8, encode_utf8, valid_utf8};

use crate::base64::{
    base64_decode, base64_encode, bytes_of, decoded, encoded, law_decode_undoes_encode,
};
use crate::text::{begins, same, starts_with};

verus! {

/// The keys whose values are sealed before they are stored.
pub open spec fn secret_key(key: Seq<char>) -> bool {
    ||| key == "api_key_claude"@
    ||| key == "api_key_open_ai"@
    ||| key == "api_key_gemini"@
    ||| key == "api_key_elevenlabs"@
}

/// Whether the value of a setting is a secret.
pub fn is_secret_key(key: &str) -> (r: bool)
    ensures
        r == secret_key(key@),
{
    same(key, "api_key_claude") || same(key, "api_key_open_ai") || same(key, "api_key_gemini")
        || same(key, "api_key_elevenlabs")
}

// ---------------------------------------------------------------------------
// Storing
// ---------------------------------------------------------------------------

/// What marks a stored value as sealed.
pub open spec fn prefix() -> Seq<char> {
    "dpapi:"@
}

/// Whether a value has still to be sealed: it is there, and not sealed yet.
pub open spec fn needs_sealing(value: Seq<char>) -> bool {
    value.len() > 0 && !begins(value, prefix())
}

/// How a value is stored, given what sealing it gave. A value that cannot be
/// sealed is stored as it is.
pub open spec fn stored_form(value: Seq<char>, sealed: Option<Seq<u8>>) -> Seq<char> {
    match sealed {
        Some(bytes) if needs_sealing(value) => prefix() + encoded(bytes),
        _ => value,
    }
}

/// Whether a value has still to be sealed.
pub fn wants_sealing(value: &str) -> (r: bool)
    ensures
        r == needs_sealing(value@),
{
    !value.is_empty() && !starts_with(value, "dpapi:")
}

/// The form in which a value is stored, given what sealing it gave.
pub fn to_stored(value: &str, sealed: Option<Vec<u8>>) -> (r: String)
    ensures
        r@ == stored_form(value@, bytes_of(sealed)),
{
    if !wants_sealing(value) {
        return value.to_owned();
    }
    match sealed {
        Some(bytes) => {
            let mut r = "dpapi:".to_owned();
            let text = base64_encode(bytes.as_slice());
            r.append(text.as_str());
            r
        },
        None => value.to_owned(),
    }
}

/// Seals a secret for storage. An empty value stays empty, since a key that is
/// not set is no secret, and a value that is already sealed is left alone.
/// `encrypt` is handed the UTF-8 bytes of any other value.
pub fn protect<F: Fn(&[u8]) -> Option<Vec<u8>>>(value: &str, encrypt: F) -> (r: String)
    requires
        forall|data: &[u8]| call_requires(encrypt, (data,)),
    ensures
        !needs_sealing(value@) ==> r@ == value@,
        needs_sealing(value@) ==> exists|data: &[u8], sealed: Option<Vec<u8>>|
            {
                &&& data@ == encode_utf8(value@)
                &&& #[trigger] call_ensures(encrypt, (data,), sealed)
                &&& r@ == stored_form(value@, bytes_of(sealed))
            },
{
    if !wants_sealing(value) {
        return value.to_owned();
    }
    let data = value.as_bytes();
    let sealed = encrypt(data);
    let ghost reply = sealed;
    let r = to_stored(value, sealed);
    assert(call_ensures(encrypt, (data,), reply));
    r
}

// ---------------------------------------------------------------------------
// Reading back
// ---------------------------------------------------------------------------

/// The sealed bytes of a stored value: `None` where the value is not sealed or
/// its base64 text cannot be read.
pub open spec fn sealed_bytes(value: Seq<char>) -> Option<Seq<u8>> {
    if begins(value, prefix()) {
        decoded(value.skip(prefix().len() as int))
    } else {
        None
    }
}

/// The text that stands for bytes that are not valid UTF-8.
pub uninterp spec fn lossy_text(bytes: Seq<u8>) -> Seq<char>;

/// The text of bytes: the characters they encode where they are valid UTF-8.
pub open spec fn text_of(bytes: Seq<u8>) -> Seq<char> {
    if valid_utf8(bytes) {
        decode_utf8(bytes)
    } else {
        lossy_text(bytes)
    }
}

/// What a stored value reveals, given what opening its sealed bytes gave. A
/// value that is not sealed is an older plain value; one that cannot be opened
/// reveals nothing.
pub open spec fn revealed_form(value: Seq<char>, opened: Option<Seq<u8>>) -> Seq<char> {
    if !begins(value, prefix()) {
        value
    } else {
        match opened {
            Some(plain) => text_of(plain),
            None => Seq::empty(),
        }
    }
}

/// `String::from_utf8_lossy` reads bytes as UTF-8. Bytes that are valid UTF-8
/// give exactly the characters they encode; of other bytes nothing is claimed
/// but that the text depends on the bytes alone.
#[verifier::external_body]
fn from_utf8_lossy(bytes: &[u8]) -> (r: String)
    ensures
        valid_utf8(bytes@) ==> r@ == decode_utf8(bytes@),
        !valid_utf8(bytes@) ==> r@ == lossy_text(bytes@),
{
    String::from_utf8_lossy(bytes).into_owned()
}

/// The sealed bytes of a stored value, if it has any.
pub fn to_sealed_bytes(value: &str) -> (r: Option<Vec<u8>>)
    ensures
        bytes_of(r) == sealed_bytes(value@),
{
    if !starts_with(value, "dpapi:") {
        return None;
    }
    proof {
        reveal_strlit("dpapi:");
    }
    let len: usize = value.unicode_len();
    let encoded_part = value.substring_char(6, len);
    assert(value@.subrange(6, len as int) == value@.skip(6));
    base64_decode(encoded_part)
}

/// What a stored value reveals, given what opening its sealed bytes gave.
pub fn to_revealed(value: &str, opened: Option<Vec<u8>>) -> (r: String)
    ensures
        r@ == revealed_form(value@, bytes_of(opened)),
{
    if !starts_with(value, "dpapi:") {
        return value.to_owned();
    }
    match opened {
        Some(plain) => from_utf8_lossy(plain.as_slice()),
        None => String::new(),
    }
}

/// Opens a stored secret. A value without the prefix is an older plain value
/// and is returned unchanged; one whose text cannot be read, or that `decrypt`
/// does not open, reveals an empty value.
pub fn reveal_secret<F: Fn(&[u8]) -> Option<Vec<u8>>>(value: &str, decrypt: F) -> (r: String)
    requires
        forall|data: &[u8]| call_requires(decrypt, (data,)),
    ensures
        !begins(value@, prefix()) ==> r@ == value@,
        begins(value@, prefix()) && sealed_bytes(value@) is None ==> r@.len() == 0,
        begins(value@, prefix()) && sealed_bytes(value@) is Some ==> exists|
            data: &[u8],
            opened: Option<Vec<u8>>,
        |
            {
                &&& data@ == sealed_bytes(value@)->0
                &&& #[trigger] call_ensures(decrypt, (data,), opened)
                &&& r@ == revealed_form(value@, bytes_of(opened))
            },
{
    match to_sealed_bytes(value) {
        Some(bytes) => {
            let data = bytes.as_slice();
            let opened = decrypt(data);
            let ghost reply = opened;
            let r = to_revealed(value, opened);
            assert(call_ensures(decrypt, (data,), reply));
            r
        },
        None => to_revealed(value, None),
    }
}

// ---------------------------------------------------------------------------
// Platforms without a sealing service
// ---------------------------------------------------------------------------

/// Sealing where the platform offers none: there is nothing to store but the
/// value itself.
pub fn encrypt(_data: &[u8]) -> (r: Option<Vec<u8>>)
    ensures
        r is None,
{
    None
}

/// Opening where the platform offers none.
pub fn decrypt(_data: &[u8]) -> (r: Option<Vec<u8>>)
    ensures
        r is None,
{
    None
}

// ---------------------------------------------------------------------------
// Laws
// ---------------------------------------------------------------------------

/// A sealed value keeps the sealed bytes, whatever they are: reading a stored
/// value hands the platform exactly what sealing gave.
pub proof fn law_stored_value_keeps_sealed_bytes(value: Seq<char>, sealed: Seq<u8>)
    requires
        needs_sealing(value),
    ensures
        begins(stored_form(value, Some(sealed)), prefix()),
        sealed_bytes(stored_form(value, Some(sealed))) == Some(sealed),
{
    let s = stored_form(value, Some(sealed));
    assert(s.take(prefix().len() as int) =~= prefix());
    assert(s.skip(prefix().len() as int) =~= encoded(sealed));
    law_decode_undoes_encode(sealed);
}

/// What is saved is what is read: a value that did not itself look sealed is
/// revealed again where opening gives back the bytes that were sealed, and also
/// where it could not be sealed at all.
pub proof fn law_reveal_undoes_protect(value: Seq<char>, sealed: Option<Seq<u8>>)
    requires
        !begins(value, prefix()),
    ensures
        revealed_form(stored_form(value, sealed), Some(encode_utf8(value))) == value,
{
    vstd::utf8::encode_utf8_valid_utf8(value);
    vstd::utf8::encode_utf8_decode_utf8(value);
    if sealed is Some && needs_sealing(value) {
        law_stored_value_keeps_sealed_bytes(value, sealed->0);
    }
}

/// Saving a sealed value again leaves it as it is.
pub proof fn law_sealed_value_is_left_alone(
    value: Seq<char>,
    sealed: Seq<u8>,
    again: Option<Seq<u8>>,
)
    ensures
        stored_form(stored_form(value, Some(sealed)), again) == stored_form(value, Some(sealed)),
{
    if needs_sealing(value) {
        law_stored_value_keeps_sealed_bytes(value, sealed);
    }
}

/// On a platform that cannot open it, a sealed value reveals nothing.
pub proof fn law_unopened_secret_is_blank(value: Seq<char>, sealed: Seq<u8>)
    requires
        needs_sealing(value),
    ensures
        revealed_form(stored_form(value, Some(sealed)), None).len() == 0,
{
    law_stored_value_keeps_sealed_bytes(value, sealed);
}

/// Which settings are secrets: the keys of the four services, and nothing else.
pub proof fn law_the_keys_of_services_are_secret(key: Seq<char>)
    ensures
        secret_key("api_key_claude"@) && secret_key("api_key_open_ai"@),
        secret_key("api_key_gemini"@) && secret_key("api_key_elevenlabs"@),
        secret_key(key) ==> begins(key, "api_key_"@),
        secret_key(key) ==> key == "api_key_claude"@ || key == "api_key_open_ai"@ || key
            == "api_key_gemini"@ || key == "api_key_elevenlabs"@,
{
    reveal_strlit("api_key_");
    reveal_strlit("api_key_claude");
    reveal_strlit("api_key_open_ai");
    reveal_strlit("api_key_gemini");
    reveal_strlit("api_key_elevenlabs");
    assert("api_key_claude"@.take(8) =~= "api_key_"@);
    assert("api_key_open_ai"@.take(8) =~= "api_key_"@);
    assert("api_key_gemini"@.take(8) =~= "api_key_"@);
    assert("api_key_elevenlabs"@.take(8) =~= "api_key_"@);
}

/// What is stored: a value that is there and not sealed yet becomes the mark and the base64
/// text of the sealed bytes, whatever it holds. An empty value, one that has the mark
/// already, and one that cannot be sealed are stored as they are.
pub proof fn law_values_are_stored_sealed(value: Seq<char>, sealed: Seq<u8>, rest: Seq<char>)
    ensures
        value.len() > 0 && !begins(value, "dpapi:"@) ==> stored_form(value, Some(sealed))
            == "dpapi:"@ + encoded(sealed),
        stored_form(value, None) == value,
        stored_form(Seq::empty(), Some(sealed)) == Seq::<char>::empty(),
        stored_form("dpapi:"@ + rest, Some(sealed)) == "dpapi:"@ + rest,
        stored_form("dpapi:"@ + rest, None) == "dpapi:"@ + rest,
{
    assert(("dpapi:"@ + rest).take("dpapi:"@.len() as int) =~= "dpapi:"@);
}

/// What is read: of a value with the mark the bytes behind it are opened, and it reveals
/// what they open to, or nothing. A value without the mark is read as it stands, whatever
/// opening would give.
pub proof fn law_stored_values_are_read(
    value: Seq<char>,
    rest: Seq<char>,
    opened: Option<Seq<u8>>,
    plain: Seq<char>,
)
    ensures
        !begins(value, "dpapi:"@) ==> revealed_form(value, opened) == value && sealed_bytes(value)
            is None,
        sealed_bytes("dpapi:"@ + rest) == decoded(rest),
        revealed_form("dpapi:"@ + rest, Some(encode_utf8(plain))) == plain,
        revealed_form("dpapi:"@ + rest, None) == Seq::<char>::empty(),
{
    let marked = "dpapi:"@ + rest;
    assert(marked.take("dpapi:"@.len() as int) =~= "dpapi:"@);
    assert(marked.skip("dpapi:"@.len() as int) =~= rest);
    vstd::utf8::encode_utf8_valid_utf8(plain);
    vstd::utf8::encode_utf8_decode_utf8(plain);
}

} // verus!
