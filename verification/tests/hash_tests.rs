use polymc::error::Error;
use polymc::hash::{decode_hex, encode_hex, Sha1Sum, Sha256Sum};

const SHA1_ABC: &str = "a9993e364706816aba3e25717850c26c9cd0d89d";
const SHA256_ABC: &str = "ba7816bf8f01cfea414140de5dae2223b00361a396177a9cb410ff61f20015ad";

#[test]
fn hex_round_trip() {
    let bytes = decode_hex("00ff10ab").unwrap();
    assert_eq!(bytes, vec![0x00u8, 0xff, 0x10, 0xab]);
    assert_eq!(encode_hex(&bytes).as_str(), "00ff10ab");
    assert_eq!(decode_hex("").unwrap(), Vec::<u8>::new());
}

#[test]
fn hex_rejects_odd_length_and_bad_digits() {
    assert!(matches!(decode_hex("abc"), Err(Error::FromHex)));
    assert!(matches!(decode_hex("zz"), Err(Error::FromHex)));
    // Uppercase digits are not part of the accepted alphabet.
    assert!(matches!(decode_hex("AB"), Err(Error::FromHex)));
}

#[test]
fn sha1_parse_is_strict_about_width() {
    let h = Sha1Sum::from_str(SHA1_ABC).unwrap();
    assert_eq!(h.to_hex().as_str(), SHA1_ABC);
    assert_eq!(h.as_bytes().len(), 20);
    // 19 bytes of hex: well-formed hex, wrong width.
    assert!(matches!(
        Sha1Sum::from_str("a9993e364706816aba3e25717850c26c9cd0d8"),
        Err(Error::LibraryInvalidHash)
    ));
    // Malformed hex.
    assert!(matches!(
        Sha1Sum::from_str("xy993e364706816aba3e25717850c26c9cd0d89d"),
        Err(Error::FromHex)
    ));
}

#[test]
fn sha256_parse_is_strict_about_width() {
    let h = Sha256Sum::from_str(SHA256_ABC).unwrap();
    assert_eq!(h.to_hex().as_str(), SHA256_ABC);
    assert_eq!(h.as_bytes().len(), 32);
    assert!(matches!(Sha1Sum::from_str(SHA256_ABC), Err(Error::LibraryInvalidHash)));
    assert!(matches!(Sha256Sum::from_str(SHA1_ABC), Err(Error::LibraryInvalidHash)));
}

#[test]
fn sha1_of_data_matches_known_digest() {
    let h = Sha1Sum::of_data(b"abc");
    assert_eq!(h.to_hex().as_str(), SHA1_ABC);
    let expected = Sha1Sum::from_str(SHA1_ABC).unwrap();
    assert!(h.matches(&expected));
    assert!(expected.matches_data(b"abc"));
    assert!(!expected.matches_data(b"abd"));
}

#[test]
fn sha256_of_data_matches_known_digest() {
    let h = Sha256Sum::of_data(b"abc");
    assert_eq!(h.to_hex().as_str(), SHA256_ABC);
    let expected = Sha256Sum::from_str(SHA256_ABC).unwrap();
    assert!(h.matches(&expected));
    assert!(expected.matches_data(b"abc"));
    assert!(!expected.matches_data(b""));
}
