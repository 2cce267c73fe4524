use platypus::base64::{base64_decode, base64_encode};
use platypus::secret::{
    decrypt, encrypt, is_secret_key, protect, reveal_secret, to_revealed, to_sealed_bytes,
    to_stored, wants_sealing,
};

fn seal(data: &[u8]) -> Option<Vec<u8>> {
    Some(data.iter().map(|b| b ^ 0x5a).collect())
}

#[test]
fn base64_known_values() {
    assert_eq!(base64_encode(b""), "");
    assert_eq!(base64_encode(b"f"), "Zg==");
    assert_eq!(base64_encode(b"fo"), "Zm8=");
    assert_eq!(base64_encode(b"foobar"), "Zm9vYmFy");
    assert_eq!(base64_encode(&[0xff, 0xfe, 0xfd]), "//79");
    assert_eq!(base64_decode("Zm9vYg=="), Some(b"foob".to_vec()));
}

#[test]
fn base64_reads_back_every_byte() {
    let all: Vec<u8> = (0..=255).collect();
    for n in 0..all.len() {
        let text = base64_encode(&all[..n]);
        assert_eq!(text.len(), (n + 2) / 3 * 4);
        assert_eq!(base64_decode(&text), Some(all[..n].to_vec()));
    }
}

#[test]
fn base64_refuses_what_is_no_symbol() {
    assert_eq!(base64_decode("Zm9v!"), None);
    assert_eq!(base64_decode("Zm9 v"), None);
    assert_eq!(base64_decode("ż"), None);
}

#[test]
fn base64_reads_text_without_padding_and_lone_symbols() {
    assert_eq!(base64_decode("Zm9vYg"), Some(b"foob".to_vec()));
    assert_eq!(base64_decode("=Z=m=8="), Some(b"fo".to_vec()));
    assert_eq!(base64_decode("Z"), Some(vec![0x64]));
    assert_eq!(base64_decode(""), Some(vec![]));
}

#[test]
fn four_settings_are_secret() {
    for key in ["api_key_claude", "api_key_open_ai", "api_key_gemini", "api_key_elevenlabs"] {
        assert!(is_secret_key(key));
    }
    assert!(!is_secret_key("api_choice"));
    assert!(!is_secret_key("API_KEY_CLAUDE"));
}

#[test]
fn a_secret_is_sealed_and_opened_again() {
    let stored = protect("zażółć", seal);
    assert!(stored.starts_with("dpapi:"));
    assert_ne!(stored, "dpapi:zażółć");
    assert_eq!(reveal_secret(&stored, seal), "zażółć");
    assert_eq!(protect(&stored, seal), stored);
}

#[test]
fn an_empty_secret_stays_empty() {
    assert_eq!(protect("", seal), "");
    assert_eq!(reveal_secret("", seal), "");
    assert!(!wants_sealing(""));
    assert!(!wants_sealing("dpapi:abc"));
    assert!(wants_sealing("abc"));
}

#[test]
fn an_older_plain_value_is_read_as_it_stands() {
    assert_eq!(reveal_secret("sk-plain", seal), "sk-plain");
    assert_eq!(to_sealed_bytes("sk-plain"), None);
}

#[test]
fn without_a_sealing_service_the_value_is_kept() {
    assert_eq!(encrypt(b"x"), None);
    assert_eq!(decrypt(b"x"), None);
    assert_eq!(protect("sk", encrypt), "sk");
    assert_eq!(reveal_secret("dpapi:Zm9v", decrypt), "");
}

#[test]
fn a_secret_that_cannot_be_read_is_blank() {
    assert_eq!(reveal_secret("dpapi:!!", seal), "");
    assert_eq!(to_sealed_bytes("dpapi:!!"), None);
    assert_eq!(to_sealed_bytes("dpapi:Zm9v"), Some(b"foo".to_vec()));
}

#[test]
fn the_sealing_reply_decides_the_stored_form() {
    assert_eq!(to_stored("abc", Some(b"foo".to_vec())), "dpapi:Zm9v");
    assert_eq!(to_stored("abc", None), "abc");
    assert_eq!(to_stored("dpapi:x", Some(b"foo".to_vec())), "dpapi:x");
    assert_eq!(to_revealed("dpapi:x", Some(b"abc".to_vec())), "abc");
    assert_eq!(to_revealed("dpapi:x", None), "");
    assert_eq!(to_revealed("plain", None), "plain");
}

#[test]
fn opened_bytes_that_are_no_text_are_patched() {
    assert_eq!(to_revealed("dpapi:x", Some(vec![b'a', 0xff, b'b'])), "a\u{fffd}b");
}
