//! Lowercase hex encoding and decoding of byte strings, used by the pattern
//! vault's `iv/ciphertext/tag` blob format. Decoding accepts both cases,
//! encoding emits lowercase digits.

use vstd::prelude::*;

verus! {

/// The hex character of one value below 16: `0..9a..f`.
pub open spec fn hex_digit_char(d: int) -> char {
    if d < 10 {
        ((d + 48) as u8) as char
    } else {
        ((d + 87) as u8) as char
    }
}

/// Whether `c` is a hex digit, either case.
pub open spec fn is_hex_char(c: char) -> bool {
    (48 <= c as int <= 57) || (97 <= c as int <= 102) || (65 <= c as int <= 70)
}

/// The value of a hex digit character.
pub open spec fn hex_char_val(c: char) -> int {
    if c as int <= 57 {
        c as int - 48
    } else if c as int >= 97 {
        c as int - 87
    } else {
        c as int - 55
    }
}

/// The lowercase hex encoding of a byte string: two digits per byte.
pub open spec fn hex_of(bs: Seq<u8>) -> Seq<char>
    decreases bs.len(),
{
    if bs.len() == 0 {
        Seq::empty()
    } else {
        hex_of(bs.drop_last()) + seq![
            hex_digit_char(bs.last() as int / 16),
            hex_digit_char(bs.last() as int % 16),
        ]
    }
}

/// Whether a character sequence is a well-formed hex string: even length,
/// hex digits only.
pub open spec fn is_hex_seq(s: Seq<char>) -> bool {
    s.len() % 2 == 0 && (forall|i: int| 0 <= i < s.len() ==> is_hex_char(#[trigger] s[i]))
}

/// The bytes denoted by a well-formed hex string.
pub open spec fn unhex(s: Seq<char>) -> Seq<u8>
    decreases s.len(),
{
    if s.len() < 2 {
        Seq::empty()
    } else {
        unhex(s.take(s.len() - 2)) + seq![
            ((hex_char_val(s[s.len() - 2]) * 16 + hex_char_val(s[s.len() - 1])) as u8),
        ]
    }
}

/// A hex encoding has two characters per byte.
pub proof fn lemma_hex_of_len(bs: Seq<u8>)
    ensures
        hex_of(bs).len() == 2 * bs.len(),
    decreases bs.len(),
{
    if bs.len() > 0 {
        lemma_hex_of_len(bs.drop_last());
    }
}

/// A hex encoding consists of hex digit characters only.
pub proof fn lemma_hex_of_is_hex(bs: Seq<u8>)
    ensures
        is_hex_seq(hex_of(bs)),
    decreases bs.len(),
{
    lemma_hex_of_len(bs);
    if bs.len() > 0 {
        lemma_hex_of_is_hex(bs.drop_last());
        lemma_hex_of_len(bs.drop_last());
    }
}

/// Decoding inverts encoding: `unhex(hex_of(bs)) == bs`.
pub proof fn lemma_unhex_hex_of(bs: Seq<u8>)
    ensures
        unhex(hex_of(bs)) == bs,
    decreases bs.len(),
{
    lemma_hex_of_len(bs);
    if bs.len() == 0 {
        assert(unhex(hex_of(bs)) =~= bs);
    } else {
        lemma_unhex_hex_of(bs.drop_last());
        lemma_hex_of_len(bs.drop_last());
        let s = hex_of(bs);
        assert(s.take(s.len() - 2) =~= hex_of(bs.drop_last()));
        assert(unhex(s) =~= bs.drop_last() + seq![bs.last()]);
        assert(bs.drop_last() + seq![bs.last()] =~= bs);
    }
}

fn hex_digit(d: u8) -> (c: char)
    requires
        d < 16,
    ensures
        c == hex_digit_char(d as int),
{
    if d < 10 {
        (48 + d) as char
    } else {
        (87 + d) as char
    }
}

/// Encodes bytes as lowercase hex, two digits per byte.
pub fn hex_encode(bs: &Vec<u8>) -> (r: Vec<char>)
    ensures
        r@ == hex_of(bs@),
{
    let mut r: Vec<char> = Vec::new();
    let mut i: usize = 0;
    while i < bs.len()
        invariant
            i <= bs.len(),
            r@ == hex_of(bs@.take(i as int)),
        decreases bs.len() - i,
    {
        let b = bs[i];
        r.push(hex_digit(b / 16));
        r.push(hex_digit(b % 16));
        proof {
            let t = bs@.take(i + 1);
            assert(t.drop_last() =~= bs@.take(i as int));
            assert(r@ =~= hex_of(t));
        }
        i = i + 1;
    }
    proof {
        assert(bs@.take(bs@.len() as int) =~= bs@);
    }
    r
}

fn hex_val(c: char) -> (r: Option<u8>)
    ensures
        r is Some <==> is_hex_char(c),
        r matches Some(v) ==> v as int == hex_char_val(c) && v < 16,
{
    let u = c as u32;
    if 48 <= u && u <= 57 {
        Some((u - 48) as u8)
    } else if 97 <= u && u <= 102 {
        Some((u - 87) as u8)
    } else if 65 <= u && u <= 70 {
        Some((u - 55) as u8)
    } else {
        None
    }
}

/// Decodes a hex string (either case). Fails exactly when the length is odd
/// or a character is not a hex digit.
pub fn hex_decode(s: &Vec<char>) -> (r: Option<Vec<u8>>)
    ensures
        r is Some <==> is_hex_seq(s@),
        r matches Some(bs) ==> bs@ == unhex(s@),
{
    if s.len() % 2 != 0 {
        return None;
    }
    let mut r: Vec<u8> = Vec::new();
    let mut i: usize = 0;
    while i < s.len()
        invariant
            i <= s.len(),
            i % 2 == 0,
            s.len() % 2 == 0,
            forall|j: int| 0 <= j < i ==> is_hex_char(#[trigger] s@[j]),
            r@ == unhex(s@.take(i as int)),
        decreases s.len() - i,
    {
        let hi = match hex_val(s[i]) {
            Some(v) => v,
            None => {
                return None;
            },
        };
        let lo = match hex_val(s[i + 1]) {
            Some(v) => v,
            None => {
                return None;
            },
        };
        r.push(hi * 16 + lo);
        proof {
            let t = s@.take(i + 2);
            assert(t.take(t.len() - 2) =~= s@.take(i as int));
            assert(r@ =~= unhex(t));
        }
        i = i + 2;
    }
    proof {
        assert(s@.take(s@.len() as int) =~= s@);
    }
    Some(r)
}

} // verus!
