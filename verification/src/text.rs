//! Converting lengths of text between UTF-16 code units and UTF-8 bytes.

use vstd::prelude::*;
use vstd::std_specs::iter::IteratorSpec;
use crate::sfnt::{utf16_decode, utf8_decoded};

verus! {

broadcast use vstd::string::group_string_axioms;

/// The number of bytes that `c` takes up in UTF-8.
pub open spec fn utf8_width(c: char) -> nat {
    if (c as int) < 0x80 {
        1
    } else if (c as int) < 0x800 {
        2
    } else if (c as int) < 0x10000 {
        3
    } else {
        4
    }
}

/// The number of 16-bit code units that `c` takes up in UTF-16.
pub open spec fn utf16_width(c: char) -> nat {
    if (c as int) < 0x10000 {
        1
    } else {
        2
    }
}

/// The number of UTF-8 bytes of the characters of `s`.
pub open spec fn utf8_len(s: Seq<char>) -> nat
    decreases s.len(),
{
    if s.len() == 0 {
        0
    } else {
        utf8_width(s[0]) + utf8_len(s.drop_first())
    }
}

/// The number of UTF-8 bytes of the shortest run of leading characters of `s` that covers
/// `units` UTF-16 code units (all of `s` when it has fewer).
pub open spec fn utf8_len_covering_utf16(s: Seq<char>, units: int) -> nat
    decreases s.len(),
{
    if units <= 0 || s.len() == 0 {
        0
    } else {
        utf8_width(s[0]) + utf8_len_covering_utf16(s.drop_first(), units - utf16_width(s[0]))
    }
}

proof fn lemma_covering_le_total(s: Seq<char>, units: int)
    ensures
        utf8_len_covering_utf16(s, units) <= utf8_len(s),
    decreases s.len(),
{
    if s.len() > 0 && units > 0 {
        lemma_covering_le_total(s.drop_first(), units - utf16_width(s[0]));
    }
}

/// A character takes one UTF-8 byte below U+0080, two below U+0800, three below U+10000 (the
/// rest of the Basic Multilingual Plane, Devanagari and CJK among it) and four above.
pub proof fn lemma_utf8_width_ranges(c: char)
    ensures
        (c as int) < 0x80 ==> utf8_width(c) == 1,
        0x80 <= (c as int) < 0x800 ==> utf8_width(c) == 2,
        0x800 <= (c as int) < 0x10000 ==> utf8_width(c) == 3,
        0x10000 <= (c as int) ==> utf8_width(c) == 4,
{
}

/// Counting UTF-8 bytes character by character gives back the length of the bytes that the
/// characters were decoded from: for every valid UTF-8 byte sequence `b`, the UTF-8 length of
/// its text is `b.len()`.
pub proof fn lemma_utf8_len_of_decoded(b: Seq<u8>)
    ensures
        utf8_decoded(b) matches Some(t) ==> utf8_len(t) == b.len(),
    decreases b.len(),
{
    if b.len() == 0 {
    } else {
        let k: int = if b[0] < 0x80 {
            1
        } else if 0xC2 <= b[0] <= 0xDF {
            2
        } else if 0xE0 <= b[0] <= 0xEF {
            3
        } else {
            4
        };
        if k <= b.len() {
            let rest = b.subrange(k, b.len() as int);
            lemma_utf8_len_of_decoded(rest);
            if let Some(t) = utf8_decoded(b) {
                let r = utf8_decoded(rest)->0;
                assert(t.drop_first() =~= r);
                assert(utf8_width(t[0]) == k);
            }
        }
    }
}

/// The number of UTF-16 code units of the characters of `s`.
pub open spec fn utf16_len(s: Seq<char>) -> nat
    decreases s.len(),
{
    if s.len() == 0 {
        0
    } else {
        utf16_width(s[0]) + utf16_len(s.drop_first())
    }
}

/// A character takes one UTF-16 code unit up to U+FFFF and a surrogate pair, two units, above.
pub proof fn lemma_utf16_width_ranges(c: char)
    ensures
        (c as int) < 0x10000 ==> utf16_width(c) == 1,
        0x10000 <= (c as int) ==> utf16_width(c) == 2,
{
}

/// Counting UTF-16 code units character by character gives back the number of code units that
/// the characters were decoded from: for every valid UTF-16 sequence `u`, the UTF-16 length of
/// its text is `u.len()`.
pub proof fn lemma_utf16_len_of_decoded(u: Seq<u16>)
    ensures
        utf16_decode(u) matches Some(t) ==> utf16_len(t) == u.len(),
    decreases u.len(),
{
    if u.len() > 0 {
        let k: int = if u[0] < 0xD800 || u[0] > 0xDFFF {
            1
        } else {
            2
        };
        if k <= u.len() {
            let rest = u.subrange(k, u.len() as int);
            assert(k == 1 ==> rest =~= u.drop_first());
            lemma_utf16_len_of_decoded(rest);
            if let Some(t) = utf16_decode(u) {
                let r = utf16_decode(rest)->0;
                assert(t.drop_first() =~= r);
                assert(utf16_width(t[0]) == k);
            }
        }
    }
}

/// When the first `k` characters of a text take up exactly `units` UTF-16 code units, the UTF-8
/// length covering those units is the UTF-8 length of those `k` characters: the byte index of
/// character `k`.
pub proof fn lemma_covering_prefix(s: Seq<char>, k: int)
    requires
        0 <= k <= s.len(),
    ensures
        utf8_len_covering_utf16(s, utf16_len(s.take(k)) as int) == utf8_len(s.take(k)),
    decreases k,
{
    if k > 0 {
        assert(s.take(k).drop_first() =~= s.drop_first().take(k - 1));
        lemma_covering_prefix(s.drop_first(), k - 1);
    }
}

/// The number of bytes that `c` takes up in UTF-8.
fn char_len_utf8(c: char) -> (r: usize)
    ensures
        r == utf8_width(c),
{
    let v = c as u32;
    if v < 0x80 {
        1
    } else if v < 0x800 {
        2
    } else if v < 0x10000 {
        3
    } else {
        4
    }
}

/// The number of 16-bit code units that `c` takes up in UTF-16.
fn char_len_utf16(c: char) -> (r: usize)
    ensures
        r == utf16_width(c),
{
    if (c as u32) < 0x10000 {
        1
    } else {
        2
    }
}

/// Converts a length of `text` counted in UTF-16 code units into one counted in UTF-8 bytes:
/// the UTF-8 length of the leading characters that cover `len_utf16` code units, or of the whole
/// text when it is shorter.
pub fn convert_len_utf16_to_utf8(text: &str, len_utf16: usize) -> (r: usize)
    requires
        utf8_len(text@) <= usize::MAX,
    ensures
        r == utf8_len_covering_utf16(text@, len_utf16 as int),
{
    proof {
        lemma_covering_le_total(text@, len_utf16 as int);
    }
    let ghost s = text@;
    let mut l_utf8: usize = 0;
    let mut l_utf16: usize = 0;
    let mut chars = text.chars();
    let ghost mut consumed: int = 0;
    while l_utf16 < len_utf16
        invariant
            0 <= consumed <= s.len(),
            chars.remaining() == s.skip(consumed),
            l_utf8 + utf8_len(s.skip(consumed)) == utf8_len(s),
            l_utf8 + utf8_len_covering_utf16(s.skip(consumed), len_utf16 - l_utf16) == utf8_len_covering_utf16(
                s,
                len_utf16 as int,
            ),
            l_utf16 <= l_utf8,
            utf8_len(s) <= usize::MAX,
        ensures
            l_utf8 == utf8_len_covering_utf16(s, len_utf16 as int),
        decreases s.len() - consumed,
    {
        let ghost rest = chars.remaining();
        match chars.next() {
            Some(c) => {
                proof {
                    assert(rest.len() > 0);
                    assert(c == rest[0]);
                    assert(rest.drop_first() =~= s.skip(consumed + 1));
                    consumed = consumed + 1;
                }
                let n8 = char_len_utf8(c);
                let n16 = char_len_utf16(c);
                l_utf8 = l_utf8 + n8;
                l_utf16 = l_utf16 + n16;
            },
            None => {
                proof {
                    assert(s.skip(consumed).len() == 0);
                }
                break ;
            },
        }
    }
    l_utf8
}

} // verus!
