//! Random UUIDs (version 4) in their canonical text form.

use vstd::prelude::*;

verus! {

/// The hexadecimal digit `k` of a word, counted from the most significant.
pub open spec fn nibble(word: u64, k: int) -> u64 {
    (word >> ((60 - 4 * k) as u64)) & 0xf
}

/// The lower-case character that writes a hexadecimal digit.
pub open spec fn hex_char(n: u64) -> char {
    if n < 10 {
        (48 + n) as u8 as char
    } else {
        (87 + n) as u8 as char
    }
}

/// The character at place `i` of the UUID made of the 128 bits `hi`, `lo`:
/// 32 hexadecimal digits in groups of 8, 4, 4, 4 and 12 with hyphens
/// between them. The first digit of the third group is the version, 4; the
/// two highest bits of the fourth group are the variant, 1 and 0. In their
/// places six bits of the words are left out.
pub open spec fn uuid_char(hi: u64, lo: u64, i: int) -> char {
    if i == 8 || i == 13 || i == 18 || i == 23 {
        '-'
    } else if i < 8 {
        hex_char(nibble(hi, i))
    } else if i < 13 {
        hex_char(nibble(hi, i - 1))
    } else if i == 14 {
        '4'
    } else if i < 18 {
        hex_char(nibble(hi, i - 2))
    } else if i == 19 {
        hex_char((nibble(lo, 0) & 3) | 8)
    } else if i < 23 {
        hex_char(nibble(lo, i - 19))
    } else {
        hex_char(nibble(lo, i - 20))
    }
}

/// The text of the UUID made of `hi` and `lo`.
pub open spec fn uuid_text(hi: u64, lo: u64) -> Seq<char> {
    Seq::new(36, |i: int| uuid_char(hi, lo, i))
}

/// The lower-case hexadecimal digits.
pub open spec fn is_hex(c: char) -> bool {
    ('0' <= c <= '9') || ('a' <= c <= 'f')
}

/// Whether a text has the canonical layout of a version 4 UUID.
pub open spec fn is_canonical_uuid(s: Seq<char>) -> bool {
    &&& s.len() == 36
    &&& forall|i: int|
        0 <= i < 36 ==> if i == 8 || i == 13 || i == 18 || i == 23 {
            #[trigger] s[i] == '-'
        } else {
            is_hex(s[i])
        }
    &&& s[14] == '4'
    &&& (s[19] == '8' || s[19] == '9' || s[19] == 'a' || s[19] == 'b')
}

proof fn lemma_nibble(word: u64, shift: u64)
    requires
        shift < 64,
    ensures
        (word >> shift) & 0xf < 16,
        8 <= ((((word >> shift) & 0xf) & 3) | 8) < 12,
{
    assert((word >> shift) & 0xf < 16) by (bit_vector);
    assert(8 <= ((((word >> shift) & 0xf) & 3) | 8) < 12) by (bit_vector);
}

/// Every UUID text has the canonical layout.
pub proof fn lemma_uuid_canonical(hi: u64, lo: u64)
    ensures
        is_canonical_uuid(uuid_text(hi, lo)),
{
    let s = uuid_text(hi, lo);
    assert forall|i: int| 0 <= i < 36 implies if i == 8 || i == 13 || i == 18 || i == 23 {
        #[trigger] s[i] == '-'
    } else {
        is_hex(s[i])
    } by {
        if i == 8 || i == 13 || i == 18 || i == 23 {
        } else if i < 8 {
            lemma_nibble(hi, (60 - 4 * i) as u64);
        } else if i < 13 {
            lemma_nibble(hi, (60 - 4 * (i - 1)) as u64);
        } else if i < 18 {
            lemma_nibble(hi, (60 - 4 * (i - 2)) as u64);
        } else if i == 19 {
            lemma_nibble(lo, 60);
        } else if i < 23 {
            lemma_nibble(lo, (60 - 4 * (i - 19)) as u64);
        } else {
            lemma_nibble(lo, (60 - 4 * (i - 20)) as u64);
        }
    }
    lemma_nibble(lo, 60);
}

fn hex_digit(n: u64) -> (c: char)
    requires
        n < 16,
    ensures
        c == hex_char(n),
{
    if n < 10 {
        ((48 + n) as u8) as char
    } else {
        ((87 + n) as u8) as char
    }
}

fn digit_of(word: u64, k: u64) -> (n: u64)
    requires
        k < 16,
    ensures
        n == nibble(word, k as int),
        n < 16,
{
    let shift: u64 = 60 - 4 * k;
    proof {
        lemma_nibble(word, shift);
    }
    (word >> shift) & 0xf
}

fn uuid_char_at(hi: u64, lo: u64, i: u64) -> (c: char)
    requires
        i < 36,
    ensures
        c == uuid_char(hi, lo, i as int),
{
    if i == 8 || i == 13 || i == 18 || i == 23 {
        '-'
    } else if i < 8 {
        hex_digit(digit_of(hi, i))
    } else if i < 13 {
        hex_digit(digit_of(hi, i - 1))
    } else if i == 14 {
        '4'
    } else if i < 18 {
        hex_digit(digit_of(hi, i - 2))
    } else if i == 19 {
        let n = digit_of(lo, 0);
        proof {
            lemma_nibble(lo, 60);
        }
        hex_digit((n & 3) | 8)
    } else if i < 23 {
        hex_digit(digit_of(lo, i - 19))
    } else {
        hex_digit(digit_of(lo, i - 20))
    }
}

/// The UUID made of two random words, as text.
pub fn uuid_from_words(hi: u64, lo: u64) -> (text: String)
    ensures
        text@ == uuid_text(hi, lo),
        is_canonical_uuid(text@),
{
    let mut text = String::new();
    let mut i: u64 = 0;
    while i < 36
        invariant
            i <= 36,
            text@ == uuid_text(hi, lo).take(i as int),
        decreases 36 - i,
    {
        text.push(uuid_char_at(hi, lo, i));
        assert(uuid_text(hi, lo).take(i + 1) =~= uuid_text(hi, lo).take(i as int).push(
            uuid_char(hi, lo, i as int),
        ));
        i += 1;
    }
    assert(uuid_text(hi, lo).take(36) =~= uuid_text(hi, lo));
    proof {
        lemma_uuid_canonical(hi, lo);
    }
    text
}

} // verus!
