//! Verified string helpers: equality, splitting, joining and decimal
//! formatting, all specified over `Seq<char>` views.

use vstd::prelude::*;

verus! {

/// How often `c` occurs in `s`.
pub open spec fn count_char(s: Seq<char>, c: char) -> nat
    decreases s.len(),
{
    if s.len() == 0 {
        0
    } else {
        count_char(s.drop_last(), c) + if s.last() == c {
            1nat
        } else {
            0nat
        }
    }
}

/// The parts interleaved with `sep`: empty for no parts, otherwise
/// `parts[0] + sep + parts[1] + sep + ... + parts[last]`.
pub open spec fn concat_with(parts: Seq<Seq<char>>, sep: Seq<char>) -> Seq<char>
    decreases parts.len(),
{
    if parts.len() == 0 {
        Seq::empty()
    } else if parts.len() == 1 {
        parts[0]
    } else {
        concat_with(parts.drop_last(), sep) + sep + parts.last()
    }
}

/// Counting distributes over extension by one character.
pub proof fn lemma_count_char_push(s: Seq<char>, x: char, c: char)
    ensures
        count_char(s.push(x), c) == count_char(s, c) + if x == c {
            1nat
        } else {
            0nat
        },
{
    assert(s.push(x).drop_last() =~= s);
    assert(s.push(x).last() == x);
}

/// Appending one more part appends a separator and the part.
pub proof fn lemma_concat_with_push(parts: Seq<Seq<char>>, x: Seq<char>, sep: Seq<char>)
    ensures
        parts.len() == 0 ==> concat_with(parts.push(x), sep) == x,
        parts.len() > 0 ==> concat_with(parts.push(x), sep) == concat_with(parts, sep) + sep + x,
{
    assert(parts.push(x).drop_last() =~= parts);
    assert(parts.push(x).last() == x);
    if parts.len() == 0 {
        assert(concat_with(parts.push(x), sep) == x);
    }
}

/// True exactly when the two string slices read the same.
pub fn str_eq(a: &str, b: &str) -> (r: bool)
    ensures
        r == (a@ == b@),
{
    let alen = a.unicode_len();
    let blen = b.unicode_len();
    if alen != blen {
        return false;
    }
    let mut i: usize = 0;
    while i < alen
        invariant
            i <= alen,
            alen == a@.len(),
            blen == b@.len(),
            alen == blen,
            forall|j: int| 0 <= j < i ==> a@[j] == b@[j],
        decreases alen - i,
    {
        if a.get_char(i) != b.get_char(i) {
            return false;
        }
        i += 1;
    }
    proof {
        assert(a@ =~= b@);
    }
    true
}

/// True exactly when `prefix` is a prefix of `s`.
pub fn starts_with(s: &str, prefix: &str) -> (r: bool)
    ensures
        r == (prefix@.len() <= s@.len() && s@.subrange(0, prefix@.len() as int) == prefix@),
{
    let plen = prefix.unicode_len();
    let slen = s.unicode_len();
    if plen > slen {
        return false;
    }
    let mut i: usize = 0;
    while i < plen
        invariant
            i <= plen,
            plen == prefix@.len(),
            slen == s@.len(),
            plen <= slen,
            forall|j: int| 0 <= j < i ==> s@[j] == prefix@[j],
        decreases plen - i,
    {
        if s.get_char(i) != prefix.get_char(i) {
            proof {
                assert(s@.subrange(0, prefix@.len() as int)[i as int] != prefix@[i as int]);
            }
            return false;
        }
        i += 1;
    }
    proof {
        assert(s@.subrange(0, prefix@.len() as int) =~= prefix@);
    }
    true
}

/// The parts of `s` between occurrences of `sep`, in order.  There is always
/// one more part than there are separators; no part holds a separator; the
/// parts joined with `sep` read back as `s`.
pub fn split_str(s: &str, sep: char) -> (parts: Vec<String>)
    ensures
        parts@.len() == count_char(s@, sep) + 1,
        forall|j: int| 0 <= j < parts@.len() ==> count_char(#[trigger] parts@[j]@, sep) == 0,
        concat_with(parts@.map_values(|p: String| p@), seq![sep]) == s@,
{
    let len = s.unicode_len();
    let mut parts: Vec<String> = Vec::new();
    let mut start: usize = 0;
    let mut i: usize = 0;
    while i < len
        invariant
            start <= i <= len,
            len == s@.len(),
            parts@.len() == count_char(s@.subrange(0, i as int), sep),
            forall|j: int| 0 <= j < parts@.len() ==> count_char(#[trigger] parts@[j]@, sep) == 0,
            count_char(s@.subrange(start as int, i as int), sep) == 0,
            concat_with(
                parts@.map_values(|p: String| p@).push(s@.subrange(start as int, i as int)),
                seq![sep],
            ) == s@.subrange(0, i as int),
        decreases len - i,
    {
        let ghost prev_parts = parts@;
        let ghost prev_piece = s@.subrange(start as int, i as int);
        let c = s.get_char(i);
        if c == sep {
            let piece = s.substring_char(start, i).to_owned();
            parts.push(piece);
            start = i + 1;
        }
        i += 1;
        proof {
            let sub_i = s@.subrange(0, i - 1);
            let sub_i1 = s@.subrange(0, i as int);
            assert(sub_i1.drop_last() =~= sub_i);
            assert(sub_i1.last() == s@[i - 1]);
            if c == sep {
                // A separator closes the current piece and opens an empty one.
                assert(s@.subrange(start as int, i as int) =~= Seq::<char>::empty());
                assert(parts@.map_values(|p: String| p@) =~= prev_parts.map_values(
                    |p: String| p@,
                ).push(prev_piece));
                lemma_concat_with_push(prev_parts.map_values(|p: String| p@), prev_piece, seq![sep]);
                lemma_concat_with_push(
                    parts@.map_values(|p: String| p@),
                    Seq::<char>::empty(),
                    seq![sep],
                );
                assert(sub_i1 =~= sub_i + seq![sep]);
                assert(concat_with(
                    parts@.map_values(|p: String| p@).push(s@.subrange(start as int, i as int)),
                    seq![sep],
                ) =~= sub_i1);
            } else {
                assert(s@.subrange(start as int, i as int) =~= prev_piece.push(s@[i - 1]));
                lemma_count_char_push(prev_piece, s@[i - 1], sep);
                lemma_concat_with_push(
                    parts@.map_values(|p: String| p@),
                    s@.subrange(start as int, i as int),
                    seq![sep],
                );
                lemma_concat_with_push(parts@.map_values(|p: String| p@), prev_piece, seq![sep]);
                assert(concat_with(
                    parts@.map_values(|p: String| p@).push(s@.subrange(start as int, i as int)),
                    seq![sep],
                ) =~= sub_i1);
            }
        }
    }
    let ghost prev_views = parts@.map_values(|p: String| p@);
    let last = s.substring_char(start, len).to_owned();
    parts.push(last);
    proof {
        assert(parts@.map_values(|p: String| p@) =~= prev_views.push(
            s@.subrange(start as int, len as int),
        ));
        assert(s@.subrange(0, len as int) =~= s@);
    }
    parts
}

/// The parts interleaved with `sep`.
pub fn join(parts: &Vec<String>, sep: &str) -> (r: String)
    ensures
        r@ == concat_with(parts@.map_values(|p: String| p@), sep@),
{
    let mut r = String::new();
    let mut i: usize = 0;
    while i < parts.len()
        invariant
            i <= parts@.len(),
            r@ == concat_with(parts@.subrange(0, i as int).map_values(|p: String| p@), sep@),
        decreases parts@.len() - i,
    {
        let ghost prev = parts@.subrange(0, i as int).map_values(|p: String| p@);
        if i > 0 {
            r.append(sep);
        }
        r.append(parts[i].as_str());
        i += 1;
        proof {
            assert(parts@.subrange(0, i as int).map_values(|p: String| p@) =~= prev.push(
                parts@[i - 1]@,
            ));
            lemma_concat_with_push(prev, parts@[i - 1]@, sep@);
        }
    }
    proof {
        assert(parts@.subrange(0, parts@.len() as int) =~= parts@);
    }
    r
}

/// The decimal digit `d` as a character.
pub open spec fn dec_digit(d: nat) -> char {
    if d == 0 {
        '0'
    } else if d == 1 {
        '1'
    } else if d == 2 {
        '2'
    } else if d == 3 {
        '3'
    } else if d == 4 {
        '4'
    } else if d == 5 {
        '5'
    } else if d == 6 {
        '6'
    } else if d == 7 {
        '7'
    } else if d == 8 {
        '8'
    } else {
        '9'
    }
}

/// The usual decimal rendering of `n`, most significant digit first, with no
/// leading zero except for zero itself.
pub open spec fn dec_str(n: nat) -> Seq<char>
    decreases n,
{
    if n < 10 {
        seq![dec_digit(n)]
    } else {
        dec_str(n / 10).push(dec_digit(n % 10))
    }
}

/// The decimal digit `d` as a one-character string slice.
fn dec_digit_str(d: u32) -> (r: &'static str)
    requires
        d < 10,
    ensures
        r@ == seq![dec_digit(d as nat)],
{
    let r = if d == 0 {
        "0"
    } else if d == 1 {
        "1"
    } else if d == 2 {
        "2"
    } else if d == 3 {
        "3"
    } else if d == 4 {
        "4"
    } else if d == 5 {
        "5"
    } else if d == 6 {
        "6"
    } else if d == 7 {
        "7"
    } else if d == 8 {
        "8"
    } else {
        "9"
    };
    proof {
        reveal_strlit("0");
        reveal_strlit("1");
        reveal_strlit("2");
        reveal_strlit("3");
        reveal_strlit("4");
        reveal_strlit("5");
        reveal_strlit("6");
        reveal_strlit("7");
        reveal_strlit("8");
        reveal_strlit("9");
        assert(r@ =~= seq![dec_digit(d as nat)]);
    }
    r
}

/// `n` rendered in decimal.
pub fn u32_string(n: u32) -> (r: String)
    ensures
        r@ == dec_str(n as nat),
{
    let mut r: String = dec_digit_str(n % 10).to_owned();
    let mut m: u32 = n / 10;
    proof {
        if n >= 10 {
            assert(dec_str(n as nat) == dec_str((n as nat) / 10).push(dec_digit((n as nat) % 10)));
            assert(dec_str((n as nat) / 10).push(dec_digit((n as nat) % 10)) =~= dec_str(
                (n as nat) / 10,
            ) + seq![dec_digit((n as nat) % 10)]);
        }
    }
    while m > 0
        invariant
            m > 0 ==> dec_str(n as nat) == dec_str(m as nat) + r@,
            m == 0 ==> r@ == dec_str(n as nat),
        decreases m,
    {
        let ghost old_r = r@;
        let ghost old_m = m as nat;
        let d = m % 10;
        r = dec_digit_str(d).to_owned().concat(r.as_str());
        m = m / 10;
        proof {
            assert(r@ == seq![dec_digit(old_m % 10)] + old_r);
            if old_m < 10 {
                assert(dec_str(old_m) =~= seq![dec_digit(old_m % 10)]);
                assert(r@ =~= dec_str(old_m) + old_r);
            } else {
                assert(dec_str(old_m) == dec_str(old_m / 10).push(dec_digit(old_m % 10)));
                assert(dec_str(old_m / 10).push(dec_digit(old_m % 10)) + old_r =~= dec_str(
                    old_m / 10,
                ) + (seq![dec_digit(old_m % 10)] + old_r));
                assert(dec_str(n as nat) =~= dec_str(old_m / 10) + r@);
            }
        }
    }
    r
}

} // verus!
