//! Fixed-width digests and their lowercase-hex wire form, together with the
//! digest computations the crate relies on.

use vstd::prelude::*;

use crate::error::Error;

verus! {

/// True for the lowercase hexadecimal digits `[0-9a-f]`.
pub open spec fn is_hex_char(c: char) -> bool {
    (48 <= c as int <= 57) || (97 <= c as int <= 102)
}

/// The value of a lowercase hexadecimal digit.
pub open spec fn hex_char_val(c: char) -> nat {
    if 48 <= c as int <= 57 {
        (c as int - 48) as nat
    } else {
        (c as int - 87) as nat
    }
}

/// The lowercase hexadecimal digit for a value below 16.
pub open spec fn hex_digit(d: nat) -> char {
    if d == 0 {
        '0'
    } else if d == 1 {
        '1'
    } else if d == 2 {
        '2'
    } else if d == 3 {
        '3'
    } else if d == 4 {
        '4'
    } else if d == 5 {
        '5'
    } else if d == 6 {
        '6'
    } else if d == 7 {
        '7'
    } else if d == 8 {
        '8'
    } else if d == 9 {
        '9'
    } else if d == 10 {
        'a'
    } else if d == 11 {
        'b'
    } else if d == 12 {
        'c'
    } else if d == 13 {
        'd'
    } else if d == 14 {
        'e'
    } else {
        'f'
    }
}

/// The lowercase-hex rendering of a byte sequence: two digits per byte,
/// most significant nibble first.
pub open spec fn hex_of(bytes: Seq<u8>) -> Seq<char>
    decreases bytes.len(),
{
    if bytes.len() == 0 {
        Seq::empty()
    } else {
        hex_of(bytes.drop_last()) + seq![
            hex_digit((bytes.last() / 16) as nat),
            hex_digit((bytes.last() % 16) as nat),
        ]
    }
}

/// The hex rendering uses the lowercase alphabet alone: every character
/// of `hex_of` is one of `[0-9a-f]`.
pub proof fn lemma_hex_of_lowercase(bytes: Seq<u8>)
    ensures
        forall|j: int| 0 <= j < hex_of(bytes).len() ==> is_hex_char(#[trigger] hex_of(bytes)[j]),
    decreases bytes.len(),
{
    if bytes.len() > 0 {
        lemma_hex_of_lowercase(bytes.drop_last());
        let prefix = hex_of(bytes.drop_last());
        assert(hex_of(bytes) == prefix + seq![
            hex_digit((bytes.last() / 16) as nat),
            hex_digit((bytes.last() % 16) as nat),
        ]);
        assert(is_hex_char(hex_digit((bytes.last() / 16) as nat)));
        assert(is_hex_char(hex_digit((bytes.last() % 16) as nat)));
        assert(forall|j: int|
            0 <= j < prefix.len() ==> hex_of(bytes)[j] == #[trigger] prefix[j]);
    }
}

/// The lowercase hexadecimal digit for `d` as a one-character string slice.
fn hex_digit_str(d: u8) -> (r: &'static str)
    requires
        d < 16,
    ensures
        r@ == seq![hex_digit(d as nat)],
{
    let r = if d == 0 {
        "0"
    } else if d == 1 {
        "1"
    } else if d == 2 {
        "2"
    } else if d == 3 {
        "3"
    } else if d == 4 {
        "4"
    } else if d == 5 {
        "5"
    } else if d == 6 {
        "6"
    } else if d == 7 {
        "7"
    } else if d == 8 {
        "8"
    } else if d == 9 {
        "9"
    } else if d == 10 {
        "a"
    } else if d == 11 {
        "b"
    } else if d == 12 {
        "c"
    } else if d == 13 {
        "d"
    } else if d == 14 {
        "e"
    } else {
        "f"
    };
    proof {
        reveal_strlit("0");
        reveal_strlit("1");
        reveal_strlit("2");
        reveal_strlit("3");
        reveal_strlit("4");
        reveal_strlit("5");
        reveal_strlit("6");
        reveal_strlit("7");
        reveal_strlit("8");
        reveal_strlit("9");
        reveal_strlit("a");
        reveal_strlit("b");
        reveal_strlit("c");
        reveal_strlit("d");
        reveal_strlit("e");
        reveal_strlit("f");
        assert(r@ =~= seq![hex_digit(d as nat)]);
    }
    r
}

/// The bytes rendered as lowercase hex.
pub fn encode_hex(bytes: &[u8]) -> (r: String)
    ensures
        r@ == hex_of(bytes@),
        r@.len() == 2 * bytes@.len(),
{
    let mut r = String::new();
    let mut i: usize = 0;
    proof {
        assert(hex_of(bytes@.subrange(0, 0)) =~= Seq::<char>::empty());
    }
    while i < bytes.len()
        invariant
            i <= bytes@.len(),
            r@ == hex_of(bytes@.subrange(0, i as int)),
            r@.len() == 2 * i,
        decreases bytes@.len() - i,
    {
        let b = bytes[i];
        r.append(hex_digit_str(b / 16));
        r.append(hex_digit_str(b % 16));
        i += 1;
        proof {
            let sub = bytes@.subrange(0, i as int);
            assert(sub.drop_last() =~= bytes@.subrange(0, i - 1));
            assert(sub.last() == bytes@[i - 1]);
        }
    }
    proof {
        assert(bytes@.subrange(0, bytes@.len() as int) =~= bytes@);
    }
    r
}

/// The bytes whose lowercase-hex rendering is `s`.  Succeeds exactly when
/// `s` has even length and holds only `[0-9a-f]`; otherwise the digest is
/// malformed.
pub fn decode_hex(s: &str) -> (r: Result<Vec<u8>, Error>)
    ensures
        r is Ok <==> (s@.len() % 2 == 0 && forall|j: int|
            0 <= j < s@.len() ==> is_hex_char(#[trigger] s@[j])),
        r matches Ok(b) ==> 2 * b@.len() == s@.len() && hex_of(b@) == s@,
        r is Err ==> r == Err::<Vec<u8>, Error>(Error::FromHex),
{
    let len = s.unicode_len();
    if len % 2 != 0 {
        return Err(Error::FromHex);
    }
    let mut out: Vec<u8> = Vec::new();
    let mut i: usize = 0;
    proof {
        assert(hex_of(out@) =~= Seq::<char>::empty());
        assert(s@.subrange(0, 0) =~= Seq::<char>::empty());
    }
    while i < len
        invariant
            i <= len,
            i % 2 == 0,
            len % 2 == 0,
            len == s@.len(),
            2 * out@.len() == i,
            hex_of(out@) == s@.subrange(0, i as int),
            forall|j: int| 0 <= j < i ==> is_hex_char(#[trigger] s@[j]),
        decreases len - i,
    {
        let hi = s.get_char(i);
        let lo = s.get_char(i + 1);
        let hi32 = hi as u32;
        let lo32 = lo as u32;
        let hv: u32 = if 48 <= hi32 && hi32 <= 57 {
            hi32 - 48
        } else if 97 <= hi32 && hi32 <= 102 {
            hi32 - 87
        } else {
            return Err(Error::FromHex);
        };
        let lv: u32 = if 48 <= lo32 && lo32 <= 57 {
            lo32 - 48
        } else if 97 <= lo32 && lo32 <= 102 {
            lo32 - 87
        } else {
            return Err(Error::FromHex);
        };
        let ghost prev = out@;
        let b: u8 = (hv * 16 + lv) as u8;
        out.push(b);
        i += 2;
        proof {
            assert(out@.drop_last() =~= prev);
            assert(out@.last() == b);
            assert(b / 16 == hex_char_val(s@[i - 2]) && b % 16 == hex_char_val(s@[i - 1]));
            assert(hex_digit(hex_char_val(s@[i - 2])) == s@[i - 2]);
            assert(hex_digit(hex_char_val(s@[i - 1])) == s@[i - 1]);
            assert(hex_of(out@) =~= s@.subrange(0, i as int));
        }
    }
    proof {
        assert(s@.subrange(0, len as int) =~= s@);
    }
    Ok(out)
}

/// What SHA-1 computes of a byte sequence.
pub uninterp spec fn sha1_of(data: Seq<u8>) -> Seq<u8>;

/// What SHA-256 computes of a byte sequence.
pub uninterp spec fn sha256_of(data: Seq<u8>) -> Seq<u8>;

/// Relies on `ring::digest::digest` with `SHA1_FOR_LEGACY_USE_ONLY`: the
/// digest is a function of the input bytes alone and is 20 bytes long.
#[verifier::external_body]
fn ring_sha1(data: &[u8]) -> (r: Vec<u8>)
    ensures
        r@ == sha1_of(data@),
        r@.len() == 20,
{
    ring::digest::digest(&ring::digest::SHA1_FOR_LEGACY_USE_ONLY, data).as_ref().to_vec()
}

/// Relies on `ring::digest::digest` with `SHA256`: the digest is a function
/// of the input bytes alone and is 32 bytes long.
#[verifier::external_body]
fn ring_sha256(data: &[u8]) -> (r: Vec<u8>)
    ensures
        r@ == sha256_of(data@),
        r@.len() == 32,
{
    ring::digest::digest(&ring::digest::SHA256, data).as_ref().to_vec()
}

/// A SHA-1 digest: exactly 20 bytes, written as 40 lowercase-hex characters.
#[derive(Debug)]
pub struct Sha1Sum {
    bytes: Vec<u8>,
}

impl View for Sha1Sum {
    type V = Seq<u8>;

    closed spec fn view(&self) -> Seq<u8> {
        self.bytes@
    }
}

impl Clone for Sha1Sum {
    fn clone(&self) -> (r: Sha1Sum)
        ensures
            r@ == self@,
    {
        proof {
            use_type_invariant(&*self);
        }
        Sha1Sum { bytes: self.bytes.clone() }
    }
}

impl Sha1Sum {
    /// Every digest value holds exactly 20 bytes.
    #[verifier::type_invariant]
    pub open spec fn inv(self) -> bool {
        self@.len() == 20
    }

    /// A well-formed value holds exactly 20 bytes.
    pub open spec fn wf(&self) -> bool {
        self@.len() == 20
    }

    /// The digest whose 20 bytes are given directly.
    pub fn from_bytes(bytes: Vec<u8>) -> (r: Result<Sha1Sum, Error>)
        ensures
            r is Ok <==> bytes@.len() == 20,
            r matches Ok(h) ==> h@ == bytes@ && h.wf(),
            r is Err ==> r == Err::<Sha1Sum, Error>(Error::LibraryInvalidHash),
    {
        if bytes.len() != 20 {
            return Err(Error::LibraryInvalidHash);
        }
        Ok(Sha1Sum { bytes })
    }

    /// The digest written in `s` as lowercase hex.  Succeeds exactly when
    /// `s` is 40 lowercase-hex characters; a malformed character or odd
    /// length is `FromHex`, a well-formed string of the wrong width is
    /// `LibraryInvalidHash`.
    pub fn from_str(s: &str) -> (r: Result<Sha1Sum, Error>)
        ensures
            r is Ok <==> (s@.len() == 40 && forall|j: int|
                0 <= j < s@.len() ==> is_hex_char(#[trigger] s@[j])),
            r matches Ok(h) ==> h.wf() && hex_of(h@) == s@,
            r == Err::<Sha1Sum, Error>(Error::FromHex) <==> !(s@.len() % 2 == 0 && forall|j: int|
                0 <= j < s@.len() ==> is_hex_char(#[trigger] s@[j])),
            r == Err::<Sha1Sum, Error>(Error::LibraryInvalidHash) <==> ((s@.len() % 2 == 0
                && forall|j: int| 0 <= j < s@.len() ==> is_hex_char(#[trigger] s@[j]))
                && s@.len() != 40),
    {
        let bytes = match crate::hash::decode_hex(s) {
            Ok(b) => b,
            Err(e) => {
                return Err(e);
            },
        };
        Sha1Sum::from_bytes(bytes)
    }

    /// The digest of the given bytes.
    pub fn of_data(data: &[u8]) -> (r: Sha1Sum)
        ensures
            r.wf(),
            r@ == sha1_of(data@),
    {
        Sha1Sum { bytes: ring_sha1(data) }
    }

    /// The 40-character lowercase-hex rendering.
    pub fn to_hex(&self) -> (r: String)
        ensures
            r@ == hex_of(self@),
    {
        encode_hex(self.bytes.as_slice())
    }

    /// The raw digest bytes.
    pub fn as_bytes(&self) -> (r: &Vec<u8>)
        ensures
            r@ == self@,
    {
        &self.bytes
    }

    /// True exactly when the two digests hold the same bytes.
    pub fn matches(&self, other: &Sha1Sum) -> (r: bool)
        ensures
            r == (self@ == other@),
    {
        bytes_eq(&self.bytes, &other.bytes)
    }

    /// True exactly when this digest is the SHA-1 of `data`.
    pub fn matches_data(&self, data: &[u8]) -> (r: bool)
        ensures
            r == (self@ == sha1_of(data@)),
    {
        let d = ring_sha1(data);
        bytes_eq(&self.bytes, &d)
    }
}

/// A SHA-256 digest: exactly 32 bytes, written as 64 lowercase-hex
/// characters.
#[derive(Debug)]
pub struct Sha256Sum {
    bytes: Vec<u8>,
}

impl View for Sha256Sum {
    type V = Seq<u8>;

    closed spec fn view(&self) -> Seq<u8> {
        self.bytes@
    }
}

impl Clone for Sha256Sum {
    fn clone(&self) -> (r: Sha256Sum)
        ensures
            r@ == self@,
    {
        proof {
            use_type_invariant(&*self);
        }
        Sha256Sum { bytes: self.bytes.clone() }
    }
}

impl Sha256Sum {
    /// Every digest value holds exactly 32 bytes.
    #[verifier::type_invariant]
    pub open spec fn inv(self) -> bool {
        self@.len() == 32
    }

    /// A well-formed value holds exactly 32 bytes.
    pub open spec fn wf(&self) -> bool {
        self@.len() == 32
    }

    /// The digest whose 32 bytes are given directly.
    pub fn from_bytes(bytes: Vec<u8>) -> (r: Result<Sha256Sum, Error>)
        ensures
            r is Ok <==> bytes@.len() == 32,
            r matches Ok(h) ==> h@ == bytes@ && h.wf(),
            r is Err ==> r == Err::<Sha256Sum, Error>(Error::LibraryInvalidHash),
    {
        if bytes.len() != 32 {
            return Err(Error::LibraryInvalidHash);
        }
        Ok(Sha256Sum { bytes })
    }

    /// The digest written in `s` as lowercase hex.  Succeeds exactly when
    /// `s` is 64 lowercase-hex characters; a malformed character or odd
    /// length is `FromHex`, a well-formed string of the wrong width is
    /// `LibraryInvalidHash`.
    pub fn from_str(s: &str) -> (r: Result<Sha256Sum, Error>)
        ensures
            r is Ok <==> (s@.len() == 64 && forall|j: int|
                0 <= j < s@.len() ==> is_hex_char(#[trigger] s@[j])),
            r matches Ok(h) ==> h.wf() && hex_of(h@) == s@,
            r == Err::<Sha256Sum, Error>(Error::FromHex) <==> !(s@.len() % 2 == 0 && forall|
                j: int,
            |
                0 <= j < s@.len() ==> is_hex_char(#[trigger] s@[j])),
            r == Err::<Sha256Sum, Error>(Error::LibraryInvalidHash) <==> ((s@.len() % 2 == 0
                && forall|j: int| 0 <= j < s@.len() ==> is_hex_char(#[trigger] s@[j]))
                && s@.len() != 64),
    {
        let bytes = match crate::hash::decode_hex(s) {
            Ok(b) => b,
            Err(e) => {
                return Err(e);
            },
        };
        Sha256Sum::from_bytes(bytes)
    }

    /// The digest of the given bytes.
    pub fn of_data(data: &[u8]) -> (r: Sha256Sum)
        ensures
            r.wf(),
            r@ == sha256_of(data@),
    {
        Sha256Sum { bytes: ring_sha256(data) }
    }

    /// The 64-character lowercase-hex rendering.
    pub fn to_hex(&self) -> (r: String)
        ensures
            r@ == hex_of(self@),
    {
        encode_hex(self.bytes.as_slice())
    }

    /// The raw digest bytes.
    pub fn as_bytes(&self) -> (r: &Vec<u8>)
        ensures
            r@ == self@,
    {
        &self.bytes
    }

    /// True exactly when the two digests hold the same bytes.
    pub fn matches(&self, other: &Sha256Sum) -> (r: bool)
        ensures
            r == (self@ == other@),
    {
        bytes_eq(&self.bytes, &other.bytes)
    }

    /// True exactly when this digest is the SHA-256 of `data`.
    pub fn matches_data(&self, data: &[u8]) -> (r: bool)
        ensures
            r == (self@ == sha256_of(data@)),
    {
        let d = ring_sha256(data);
        bytes_eq(&self.bytes, &d)
    }
}

/// True exactly when the two byte vectors hold the same bytes.
pub fn bytes_eq(a: &Vec<u8>, b: &Vec<u8>) -> (r: bool)
    ensures
        r == (a@ == b@),
{
    if a.len() != b.len() {
        return false;
    }
    let mut i: usize = 0;
    while i < a.len()
        invariant
            i <= a@.len(),
            a@.len() == b@.len(),
            forall|j: int| 0 <= j < i ==> a@[j] == b@[j],
        decreases a@.len() - i,
    {
        if a[i] != b[i] {
            return false;
        }
        i += 1;
    }
    proof {
        assert(a@ =~= b@);
    }
    true
}

} // verus!
