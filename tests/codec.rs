use url_shortener::codec::{decode, encode, CodeError};
use url_shortener::SeqId;

const ALPHABET: &str = "0123456789ABCDEFGHIJKLMNOPQRSTUVWXYZabcdefghijklmnopqrstuvwxyz";

#[test]
fn encode_known_values() {
    assert_eq!(encode(SeqId(0)), "0");
    assert_eq!(encode(SeqId(1)), "1");
    assert_eq!(encode(SeqId(10)), "A");
    assert_eq!(encode(SeqId(61)), "z");
    assert_eq!(encode(SeqId(62)), "10");
    assert_eq!(encode(SeqId(1337)), "LZ");
    assert_eq!(encode(SeqId(i64::MAX)), "AzL8n0Y58m7");
}

#[test]
fn decode_known_values() {
    assert_eq!(decode("0"), Ok(SeqId(0)));
    assert_eq!(decode("LZ"), Ok(SeqId(1337)));
    assert_eq!(decode("0010"), Ok(SeqId(62)));
    assert_eq!(decode("AzL8n0Y58m7"), Ok(SeqId(i64::MAX)));
}

#[test]
fn decode_rejects_outside_characters() {
    assert_eq!(decode("ab-c"), Err(CodeError::Invalid));
    assert_eq!(decode("a b"), Err(CodeError::Invalid));
    assert_eq!(decode("é"), Err(CodeError::Invalid));
    assert_eq!(decode("favicon.ico"), Err(CodeError::Invalid));
}

#[test]
fn decode_rejects_empty() {
    assert_eq!(decode(""), Err(CodeError::Invalid));
}

#[test]
fn decode_rejects_out_of_range() {
    assert_eq!(decode("AzL8n0Y58m8"), Err(CodeError::Invalid));
    assert_eq!(decode("zzzzzzzzzzzzzzzzzzzzzzzz"), Err(CodeError::Invalid));
}

#[test]
fn round_trip() {
    for n in [0i64, 1, 61, 62, 63, 3843, 3844, 999_999, 1 << 40, i64::MAX - 1, i64::MAX] {
        let code = encode(SeqId(n));
        assert!(code.chars().all(|c| ALPHABET.contains(c)));
        assert!(code == "0" || !code.starts_with('0'));
        assert_eq!(decode(&code), Ok(SeqId(n)));
    }
}
