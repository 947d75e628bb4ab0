//! The 20-byte content identifier that names every stored object.
//!
//! The canonical textual form is 40 lowercase hexadecimal characters.  The
//! identifier is stored as five 32-bit words; `w0` holds the value of the
//! first eight hex characters, `w4` the last eight.  The all-zero identifier
//! is a sentinel that stands for an empty directory with no stored object.

use vstd::prelude::*;

verus! {

broadcast use vstd::utf8::is_ascii_chars_encode_utf8;

/// 20-byte content identifier, as five 32-bit words in textual order.
#[derive(Copy, Clone, PartialEq, Eq, Structural, Hash, Debug)]
pub struct Sha1 {
    pub w0: u32,
    pub w1: u32,
    pub w2: u32,
    pub w3: u32,
    pub w4: u32,
}

/// True of the characters `0`-`9`, `a`-`f` and `A`-`F`.
pub open spec fn is_hex_char(c: char) -> bool {
    ||| (48 <= (c as u32) && (c as u32) <= 57)
    ||| (97 <= (c as u32) && (c as u32) <= 102)
    ||| (65 <= (c as u32) && (c as u32) <= 70)
}

/// The numeric value of a hex digit character.
pub open spec fn hex_char_val(c: char) -> int {
    if 48 <= (c as u32) && (c as u32) <= 57 {
        (c as int) - 48
    } else if 97 <= (c as u32) && (c as u32) <= 102 {
        (c as int) - 87
    } else {
        (c as int) - 55
    }
}

/// A valid textual hash: exactly 40 hex digit characters.
pub open spec fn is_hex40(s: Seq<char>) -> bool {
    &&& s.len() == 40
    &&& forall|i: int| 0 <= i < 40 ==> is_hex_char(#[trigger] s[i])
}

/// The value of a big-endian sequence of hex digit characters.
pub open spec fn word_of(s: Seq<char>) -> int
    decreases s.len(),
{
    if s.len() == 0 {
        0
    } else {
        16 * word_of(s.drop_last()) + hex_char_val(s.last())
    }
}

/// The word taken from characters `8k..8k+8` of a 40-character hash string.
pub open spec fn word_at(s: Seq<char>, k: int) -> int {
    word_of(s.subrange(8 * k, 8 * k + 8))
}

/// The hash a string denotes, if it is exactly 40 hex digit characters.
pub open spec fn spec_parse_sha1(s: Seq<char>) -> Option<Sha1> {
    if is_hex40(s) {
        Some(sha1_of_chars(s))
    } else {
        None
    }
}

/// The hash denoted by a 40-character hex string.
pub open spec fn sha1_of_chars(s: Seq<char>) -> Sha1
    recommends
        is_hex40(s),
{
    Sha1 {
        w0: word_at(s, 0) as u32,
        w1: word_at(s, 1) as u32,
        w2: word_at(s, 2) as u32,
        w3: word_at(s, 3) as u32,
        w4: word_at(s, 4) as u32,
    }
}

/// True of the bytes that encode hex digit characters in ASCII.
pub open spec fn is_hex_byte(b: u8) -> bool {
    ||| (48 <= b && b <= 57)
    ||| (97 <= b && b <= 102)
    ||| (65 <= b && b <= 70)
}

/// The numeric value of a hex digit byte.
pub open spec fn hex_byte_val(b: u8) -> int {
    if 48 <= b && b <= 57 {
        (b as int) - 48
    } else if 97 <= b && b <= 102 {
        (b as int) - 87
    } else {
        (b as int) - 55
    }
}

/// The value of a big-endian sequence of hex digit bytes.
pub open spec fn word_of_bytes(s: Seq<u8>) -> int
    decreases s.len(),
{
    if s.len() == 0 {
        0
    } else {
        16 * word_of_bytes(s.drop_last()) + hex_byte_val(s.last())
    }
}

/// `16^k`.
pub open spec fn pow16(k: nat) -> int
    decreases k,
{
    if k == 0 {
        1
    } else {
        16 * pow16((k - 1) as nat)
    }
}

proof fn lemma_word_of_bytes_bound(s: Seq<u8>)
    requires
        forall|i: int| 0 <= i < s.len() ==> is_hex_byte(#[trigger] s[i]),
    ensures
        0 <= word_of_bytes(s) < pow16(s.len()),
    decreases s.len(),
{
    if s.len() > 0 {
        assert(forall|i: int| 0 <= i < s.len() - 1 ==> s.drop_last()[i] == #[trigger] s[i]);
        lemma_word_of_bytes_bound(s.drop_last());
        assert(is_hex_byte(s.last()));
    }
}

/// Characters compare in code-point order.
proof fn lemma_char_le(c: char, d: char)
    requires
        (c as u32) <= (d as u32),
    ensures
        c <= d,
{
}

/// A character sequence whose UTF-8 encoding is all ASCII is itself ASCII.
proof fn lemma_ascii_encoding_to_chars(s: Seq<char>)
    requires
        forall|i: int|
            0 <= i < vstd::utf8::encode_utf8(s).len() ==> #[trigger] vstd::utf8::encode_utf8(s)[i]
                < 0x80,
    ensures
        vstd::utf8::is_ascii_chars(s),
        forall|i: int| 0 <= i < s.len() ==> ((#[trigger] s[i]) as u32) < 0x80,
    decreases s.len(),
{
    if s.len() > 0 {
        let c0 = s[0] as u32;
        vstd::utf8::char_is_scalar(s[0]);
        let enc = vstd::utf8::encode_scalar(c0);
        assert(vstd::utf8::encode_utf8(s) == enc + vstd::utf8::encode_utf8(s.drop_first()));
        let b0: u8 = enc[0];
        assert(vstd::utf8::encode_utf8(s)[0] == b0);
        if !vstd::utf8::has_width_1_encoding(c0) {
            if vstd::utf8::has_width_2_encoding(c0) {
                assert(b0 == 0xC0 | ((c0 >> 6) & 0x1F) as u8);
                assert(forall|y: u8| #[trigger] (0xC0u8 | y) >= 0x80) by (bit_vector);
            } else if vstd::utf8::has_width_3_encoding(c0) {
                assert(b0 == 0xE0 | ((c0 >> 12) & 0x0F) as u8);
                assert(forall|y: u8| #[trigger] (0xE0u8 | y) >= 0x80) by (bit_vector);
            } else {
                assert(b0 == 0xF0 | ((c0 >> 18) & 0x7) as u8);
                assert(forall|y: u8| #[trigger] (0xF0u8 | y) >= 0x80) by (bit_vector);
            }
            assert(false);
        }
        assert forall|i: int|
            0 <= i < vstd::utf8::encode_utf8(s.drop_first()).len() implies #[trigger] vstd::utf8::encode_utf8(
            s.drop_first(),
        )[i] < 0x80 by {
            assert(vstd::utf8::encode_utf8(s.drop_first())[i] == vstd::utf8::encode_utf8(s)[i + 1]);
        }
        lemma_ascii_encoding_to_chars(s.drop_first());
        assert forall|i: int| 0 <= i < s.len() implies ((#[trigger] s[i]) as u32) < 0x80 by {
            if i > 0 {
                assert(s[i] == s.drop_first()[i - 1]);
            }
        }
        assert forall|i: int| 0 <= i < s.len() implies '\0' <= #[trigger] s[i] <= '\u{7f}' by {
            lemma_char_le('\0', s[i]);
            lemma_char_le(s[i], '\u{7f}');
        }
    }
}

/// Forty hex digit characters are ASCII.
proof fn lemma_hex40_is_ascii(s: Seq<char>)
    requires
        is_hex40(s),
    ensures
        vstd::utf8::is_ascii_chars(s),
{
    assert forall|i: int| 0 <= i < s.len() implies '\0' <= #[trigger] s[i] <= '\u{7f}' by {
        assert(is_hex_char(s[i]));
        lemma_char_le('\0', s[i]);
        lemma_char_le(s[i], '\u{7f}');
    }
}


/// A hex digit character and its ASCII byte denote the same value.
proof fn lemma_hex_char_byte(c: char, b: u8)
    requires
        b == (c as u8),
        (c as u32) < 0x80,
        is_hex_char(c),
    ensures
        is_hex_byte(b),
        hex_byte_val(b) == hex_char_val(c),
{
}

/// Hex digit characters and their ASCII bytes denote the same values.
proof fn lemma_hex_word_chars_bytes(s: Seq<char>, bs: Seq<u8>)
    requires
        bs.len() == s.len(),
        forall|i: int| 0 <= i < s.len() ==> bs[i] == ((#[trigger] s[i]) as u8),
        forall|i: int| 0 <= i < s.len() ==> ((#[trigger] s[i]) as u32) < 0x80,
        forall|i: int| 0 <= i < s.len() ==> is_hex_char(#[trigger] s[i]),
    ensures
        word_of_bytes(bs) == word_of(s),
        forall|i: int| 0 <= i < bs.len() ==> is_hex_byte(#[trigger] bs[i]),
    decreases s.len(),
{
    if s.len() > 0 {
        assert forall|i: int|
            0 <= i < s.len() - 1 implies bs.drop_last()[i] == (((#[trigger] s.drop_last()[i])) as u8)
                && ((s.drop_last()[i]) as u32) < 0x80 && is_hex_char(s.drop_last()[i]) by {
            assert(s.drop_last()[i] == s[i]);
            assert(bs.drop_last()[i] == bs[i]);
            assert(bs[i] == ((s[i]) as u8));
            assert(((s[i]) as u32) < 0x80);
            assert(is_hex_char(s[i]));
        }
        lemma_hex_word_chars_bytes(s.drop_last(), bs.drop_last());
        let li = s.len() - 1;
        assert(bs[li] == ((s[li]) as u8));
        assert(((s[li]) as u32) < 0x80);
        assert(is_hex_char(s[li]));
        lemma_hex_char_byte(s[li], bs[li]);
        assert(hex_byte_val(bs.last()) == hex_char_val(s.last()));
    }
    assert forall|i: int| 0 <= i < bs.len() implies is_hex_byte(#[trigger] bs[i]) by {
        assert(bs[i] == ((s[i]) as u8));
        assert(((s[i]) as u32) < 0x80);
        assert(is_hex_char(s[i]));
        lemma_hex_char_byte(s[i], bs[i]);
    }
}

fn hex_byte_value(b: u8) -> (r: Option<u32>)
    ensures
        is_hex_byte(b) ==> r == Some(hex_byte_val(b) as u32),
        !is_hex_byte(b) ==> r is None,
{
    if 48 <= b && b <= 57 {
        Some((b - 48) as u32)
    } else if 97 <= b && b <= 102 {
        Some((b - 87) as u32)
    } else if 65 <= b && b <= 70 {
        Some((b - 55) as u32)
    } else {
        None
    }
}

/// Parse eight hex digit bytes starting at `start` as one 32-bit word.
fn parse_word(bytes: &[u8], start: usize) -> (r: Option<u32>)
    requires
        start + 8 <= bytes@.len(),
    ensures
        (forall|i: int| start <= i < start + 8 ==> is_hex_byte(#[trigger] bytes@[i])) ==> r
            == Some(word_of_bytes(bytes@.subrange(start as int, start as int + 8)) as u32),
        !(forall|i: int| start <= i < start + 8 ==> is_hex_byte(#[trigger] bytes@[i])) ==> r is None,
{
    let n: usize = bytes.len();
    let mut acc: u32 = 0;
    let mut j: usize = 0;
    while j < 8
        invariant
            0 <= j <= 8,
            start + 8 <= bytes@.len(),
            bytes@.len() <= usize::MAX,
            forall|i: int| start <= i < start + j ==> is_hex_byte(#[trigger] bytes@[i]),
            acc == word_of_bytes(bytes@.subrange(start as int, start as int + j)),
            0 <= acc < pow16(j as nat),
        decreases 8 - j,
    {
        let b = bytes[start + j];
        match hex_byte_value(b) {
            None => {
                return None;
            },
            Some(v) => {
                proof {
                    lemma_word_of_bytes_bound(bytes@.subrange(start as int, start as int + j));
                    assert(pow16(8) == 0x1_0000_0000) by {
                        reveal_with_fuel(pow16, 9);
                    }
                    assert(pow16(j as nat) * 16 <= pow16(8)) by {
                        lemma_pow16_mono((j + 1) as nat, 8);
                    }
                    assert(bytes@.subrange(start as int, start as int + j + 1).drop_last()
                        =~= bytes@.subrange(start as int, start as int + j));
                }
                acc = acc * 16 + v;
            },
        }
        j = j + 1;
    }
    Some(acc)
}

proof fn lemma_pow16_mono(a: nat, b: nat)
    requires
        a <= b,
    ensures
        pow16(a) <= pow16(b),
        pow16(a) >= 1,
    decreases b,
{
    if a < b {
        lemma_pow16_mono(a, (b - 1) as nat);
    } else if a == b && a > 0 {
        lemma_pow16_mono((a - 1) as nat, (b - 1) as nat);
    }
}

impl Sha1 {
    /// True of the all-zero sentinel hash.
    pub open spec fn spec_is_zero(self) -> bool {
        self.w0 == 0 && self.w1 == 0 && self.w2 == 0 && self.w3 == 0 && self.w4 == 0
    }

    /// The all-zero sentinel hash, which denotes an empty directory.
    pub fn zero() -> (r: Sha1)
        ensures
            r.spec_is_zero(),
    {
        Sha1 { w0: 0, w1: 0, w2: 0, w3: 0, w4: 0 }
    }

    /// True of the all-zero sentinel hash.
    pub fn is_zero(&self) -> (r: bool)
        ensures
            r == self.spec_is_zero(),
    {
        self.w0 == 0 && self.w1 == 0 && self.w2 == 0 && self.w3 == 0 && self.w4 == 0
    }

    /// Parse a 40-character hex string; any other input yields `None`.
    pub fn parse(hex: &str) -> (r: Option<Sha1>)
        ensures
            r == spec_parse_sha1(hex@),
            is_hex40(hex@) ==> r == Some(sha1_of_chars(hex@)),
            !is_hex40(hex@) ==> r is None,
    {
        let bytes: &[u8] = hex.as_bytes();
        proof {
            if is_hex40(hex@) {
                lemma_hex40_is_ascii(hex@);
                assert forall|i: int| 0 <= i < 40 implies is_hex_byte(#[trigger] bytes@[i]) by {
                    assert(bytes@[i] == (hex@[i] as u8));
                    assert(is_hex_char(hex@[i]));
                }
            }
        }
        if bytes.len() != 40 {
            return None;
        }
        proof {
            if !is_hex40(hex@) {
                // An all-hex byte form would force the character form to be
                // all-hex too, so below at least one parse_word call fails.
                if forall|i: int| 0 <= i < 40 ==> is_hex_byte(#[trigger] bytes@[i]) {
                    lemma_ascii_encoding_to_chars(hex@);
                    assert(hex@.len() == 40);
                    assert forall|i: int| 0 <= i < 40 implies is_hex_char(#[trigger] hex@[i]) by {
                        assert(is_hex_byte(bytes@[i]));
                        assert(bytes@[i] == (hex@[i] as u8));
                        assert((hex@[i] as u32) < 0x80);
                    }
                    assert(false);
                }
            }
        }
        let w0 = match parse_word(bytes, 0) {
            Some(w) => w,
            None => {
                return None;
            },
        };
        let w1 = match parse_word(bytes, 8) {
            Some(w) => w,
            None => {
                return None;
            },
        };
        let w2 = match parse_word(bytes, 16) {
            Some(w) => w,
            None => {
                return None;
            },
        };
        let w3 = match parse_word(bytes, 24) {
            Some(w) => w,
            None => {
                return None;
            },
        };
        let w4 = match parse_word(bytes, 32) {
            Some(w) => w,
            None => {
                return None;
            },
        };
        proof {
            if is_hex40(hex@) {
                assert forall|k: int| 0 <= k < 5 implies word_of_bytes(
                    bytes@.subrange(8 * k, 8 * k + 8),
                ) == word_at(hex@, k) by {
                    let sub = hex@.subrange(8 * k, 8 * k + 8);
                    let bsub = bytes@.subrange(8 * k, 8 * k + 8);
                    assert forall|i: int| 0 <= i < sub.len() implies bsub[i] == ((
                    #[trigger] sub[i]) as u8) && ((sub[i]) as u32) < 0x80 && is_hex_char(sub[i]) by {
                        assert(sub[i] == hex@[8 * k + i]);
                        assert(bsub[i] == bytes@[8 * k + i]);
                        assert(is_hex_char(hex@[8 * k + i]));
                    }
                    lemma_hex_word_chars_bytes(sub, bsub);
                }
            }
        }
        Some(Sha1 { w0, w1, w2, w3, w4 })
    }
}


/// Lowercasing of an ASCII byte: `A`-`F` move to `a`-`f`.
pub open spec fn lower_byte(b: u8) -> u8 {
    if 65 <= b && b <= 70 {
        (b + 32) as u8
    } else {
        b
    }
}

/// Lowercasing of a hex digit character.
pub open spec fn lower_char(c: char) -> char {
    if 65 <= (c as u32) && (c as u32) <= 70 {
        (((c as u32) + 32) as u32) as char
    } else {
        c
    }
}

/// A character sequence with its hex letters lowercased.
pub open spec fn lower_chars(s: Seq<char>) -> Seq<char> {
    s.map_values(|c: char| lower_char(c))
}

/// The ASCII byte of a hex digit value: `0`-`9` then `a`-`f`.
pub open spec fn render_nibble(v: int) -> u8 {
    if v < 10 {
        (48 + v) as u8
    } else {
        (87 + v) as u8
    }
}

/// The `k` lowercase hex digit bytes of the value `v`, most significant first.
pub open spec fn render_word_bytes(v: int, k: nat) -> Seq<u8>
    decreases k,
{
    if k == 0 {
        Seq::empty()
    } else {
        render_word_bytes(v / 16, (k - 1) as nat).push(render_nibble(v % 16))
    }
}

/// The 40 lowercase hex digit bytes of a hash.
pub open spec fn sha1_render_bytes(h: Sha1) -> Seq<u8> {
    render_word_bytes(h.w0 as int, 8) + render_word_bytes(h.w1 as int, 8) + render_word_bytes(
        h.w2 as int,
        8,
    ) + render_word_bytes(h.w3 as int, 8) + render_word_bytes(h.w4 as int, 8)
}

/// ASCII bytes read as characters.
pub open spec fn chars_of_ascii(bs: Seq<u8>) -> Seq<char> {
    bs.map_values(|b: u8| b as char)
}

/// The canonical textual form of a hash: 40 lowercase hex characters.
pub open spec fn sha1_render(h: Sha1) -> Seq<char> {
    chars_of_ascii(sha1_render_bytes(h))
}

proof fn lemma_render_word_len(v: int, k: nat)
    ensures
        render_word_bytes(v, k).len() == k,
    decreases k,
{
    if k > 0 {
        lemma_render_word_len(v / 16, (k - 1) as nat);
    }
}

proof fn lemma_render_word_ascii(v: int, k: nat)
    requires
        v >= 0,
    ensures
        forall|i: int|
            0 <= i < render_word_bytes(v, k).len() ==> is_hex_byte(
                #[trigger] render_word_bytes(v, k)[i],
            ) && render_word_bytes(v, k)[i] < 0x80,
    decreases k,
{
    if k > 0 {
        lemma_render_word_ascii(v / 16, (k - 1) as nat);
        lemma_render_word_len(v / 16, (k - 1) as nat);
        assert(0 <= v % 16 < 16);
        assert(is_hex_byte(render_nibble(v % 16)));
    }
}

/// Rendering the parsed value of hex digit bytes lowercases them.
proof fn lemma_render_parse_bytes(bs: Seq<u8>)
    requires
        forall|i: int| 0 <= i < bs.len() ==> is_hex_byte(#[trigger] bs[i]),
    ensures
        render_word_bytes(word_of_bytes(bs), bs.len()) == bs.map_values(|b: u8| lower_byte(b)),
    decreases bs.len(),
{
    let w = word_of_bytes(bs);
    let lows = bs.map_values(|b: u8| lower_byte(b));
    if bs.len() == 0 {
        assert(render_word_bytes(w, 0) =~= lows);
    } else {
        let front = bs.drop_last();
        assert(forall|i: int| 0 <= i < front.len() ==> front[i] == #[trigger] bs[i]);
        lemma_word_of_bytes_bound(front);
        let b = bs.last();
        assert(is_hex_byte(b));
        assert(0 <= hex_byte_val(b) < 16);
        assert(w == 16 * word_of_bytes(front) + hex_byte_val(b));
        assert(w % 16 == hex_byte_val(b)) by {
            vstd::arithmetic::div_mod::lemma_mod_multiples_vanish(
                word_of_bytes(front),
                hex_byte_val(b),
                16,
            );
        }
        assert(w / 16 == word_of_bytes(front)) by {
            vstd::arithmetic::div_mod::lemma_div_multiples_vanish_fancy(
                word_of_bytes(front),
                hex_byte_val(b),
                16,
            );
        }
        lemma_render_parse_bytes(front);
        assert(render_nibble(hex_byte_val(b)) == lower_byte(b));
        assert(render_word_bytes(w, bs.len()) == render_word_bytes(word_of_bytes(front), (bs.len()
            - 1) as nat).push(lower_byte(b)));
        assert(front.map_values(|x: u8| lower_byte(x)) =~= lows.drop_last());
        assert(render_word_bytes(w, bs.len()) =~= lows) by {
            lemma_render_word_len(word_of_bytes(front), (bs.len() - 1) as nat);
        }
    }
}


/// A lowercased ASCII hex byte reads as the lowercased character.
proof fn lemma_lower_char_byte(c: char)
    requires
        (c as u32) < 0x80,
    ensures
        ((lower_byte((c as u8))) as char) == lower_char(c),
{
    vstd::utf8::char_u32_cast(c, c as u32);
}

/// Relies on `String::from_utf8`: bytes below 0x80 decode to exactly those
/// characters, one per byte.
#[verifier::external_body]
pub(crate) fn ascii_to_string(bytes: &Vec<u8>) -> (r: String)
    requires
        forall|i: int| 0 <= i < bytes@.len() ==> bytes@[i] < 0x80,
    ensures
        r@ == chars_of_ascii(bytes@),
{
    String::from_utf8(bytes.clone()).unwrap_or_default()
}

/// Append the eight hex digit bytes of `w`, most significant first.
fn push_word_hex(out: &mut Vec<u8>, w: u32)
    ensures
        final(out)@ == old(out)@ + render_word_bytes(w as int, 8),
{
    let mut tmp: Vec<u8> = Vec::new();
    let mut acc: u32 = w;
    let mut j: usize = 0;
    while j < 8
        invariant
            0 <= j <= 8,
            tmp@.len() == j,
            render_word_bytes(w as int, 8) =~= render_word_bytes(acc as int, (8 - j) as nat)
                + tmp@.reverse(),
        decreases 8 - j,
    {
        let d = acc % 16;
        let nib: u8 = if d < 10 {
            (48 + d) as u8
        } else {
            (87 + d) as u8
        };
        proof {
            assert(nib == render_nibble((acc as int) % 16));
            let ghost old_tmp = tmp@;
            assert((tmp@.push(nib)).reverse() =~= seq![nib] + tmp@.reverse());
        }
        let ghost acc_old = acc as int;
        tmp.push(nib);
        acc = acc / 16;
        proof {
            lemma_render_word_len(acc as int, (8 - j - 1) as nat);
            assert(render_word_bytes(acc_old, (8 - j) as nat) == render_word_bytes(
                acc as int,
                (8 - j - 1) as nat,
            ).push(nib));
            assert(render_word_bytes(acc_old, (8 - j) as nat) =~= render_word_bytes(
                acc as int,
                (8 - j - 1) as nat,
            ) + seq![nib]);
            assert(render_word_bytes(w as int, 8) =~= render_word_bytes(
                acc as int,
                (8 - j - 1) as nat,
            ) + tmp@.reverse());
        }
        j = j + 1;
    }
    proof {
        assert(render_word_bytes(w as int, 8) =~= tmp@.reverse());
        assert(tmp@.reverse().len() == 8);
    }
    let mut j2: usize = 0;
    while j2 < 8
        invariant
            0 <= j2 <= 8,
            tmp@.len() == 8,
            out@ =~= old(out)@ + tmp@.reverse().subrange(0, j2 as int),
            render_word_bytes(w as int, 8) =~= tmp@.reverse(),
        decreases 8 - j2,
    {
        let b = tmp[7 - j2];
        proof {
            assert(tmp@.reverse()[j2 as int] == tmp@[7 - j2 as int]);
            assert(tmp@.reverse().subrange(0, j2 as int + 1) =~= tmp@.reverse().subrange(
                0,
                j2 as int,
            ).push(tmp@[7 - j2 as int]));
        }
        out.push(b);
        j2 = j2 + 1;
    }
    proof {
        assert(tmp@.reverse().subrange(0, 8) =~= tmp@.reverse());
    }
}

impl Sha1 {
    /// The 40 lowercase hex digit bytes of the textual form.
    pub fn hex_bytes(&self) -> (r: Vec<u8>)
        ensures
            r@ == sha1_render_bytes(*self),
            r@.len() == 40,
            forall|i: int| 0 <= i < r@.len() ==> #[trigger] r@[i] < 0x80,
    {
        let mut out: Vec<u8> = Vec::new();
        push_word_hex(&mut out, self.w0);
        push_word_hex(&mut out, self.w1);
        push_word_hex(&mut out, self.w2);
        push_word_hex(&mut out, self.w3);
        push_word_hex(&mut out, self.w4);
        proof {
            assert(out@ =~= sha1_render_bytes(*self));
            lemma_render_word_ascii(self.w0 as int, 8);
            lemma_render_word_ascii(self.w1 as int, 8);
            lemma_render_word_ascii(self.w2 as int, 8);
            lemma_render_word_ascii(self.w3 as int, 8);
            lemma_render_word_ascii(self.w4 as int, 8);
            lemma_render_word_len(self.w0 as int, 8);
            lemma_render_word_len(self.w1 as int, 8);
            lemma_render_word_len(self.w2 as int, 8);
            lemma_render_word_len(self.w3 as int, 8);
            lemma_render_word_len(self.w4 as int, 8);
        }
        out
    }

    /// The canonical textual form: 40 lowercase hex characters.
    pub fn to_string(&self) -> (r: String)
        ensures
            r@ == sha1_render(*self),
    {
        let out = self.hex_bytes();
        ascii_to_string(&out)
    }
}

/// Law: parsing a 40-character hex string and rendering the parsed hash
/// yields the same string with its letters lowercased.
pub proof fn lemma_parse_render_round_trip(s: Seq<char>)
    requires
        is_hex40(s),
    ensures
        sha1_render(sha1_of_chars(s)) == lower_chars(s),
{
    let h = sha1_of_chars(s);
    let bs = s.map_values(|c: char| c as u8);
    lemma_hex40_is_ascii(s);
    assert forall|k: int| 0 <= k < 5 implies render_word_bytes(
        word_at(s, k) as u32 as int,
        8,
    ) =~= bs.subrange(8 * k, 8 * k + 8).map_values(|b: u8| lower_byte(b)) by {
        let sub = s.subrange(8 * k, 8 * k + 8);
        let bsub = bs.subrange(8 * k, 8 * k + 8);
        assert forall|i: int|
            0 <= i < sub.len() implies bsub[i] == (((#[trigger] sub[i])) as u8) && ((sub[i]) as u32)
                < 0x80 && is_hex_char(sub[i]) by {
            assert(sub[i] == s[8 * k + i]);
            assert(bsub[i] == bs[8 * k + i]);
            assert(is_hex_char(s[8 * k + i]));
        }
        lemma_hex_word_chars_bytes(sub, bsub);
        lemma_word_of_bytes_bound(bsub);
        lemma_pow16_mono(8, 8);
        assert(pow16(8) == 0x1_0000_0000) by {
            reveal_with_fuel(pow16, 9);
        }
        assert(word_at(s, k) == word_of_bytes(bsub));
        assert(word_at(s, k) as u32 as int == word_of_bytes(bsub));
        lemma_render_parse_bytes(bsub);
        assert(bsub.len() == 8);
    }
    let rb = sha1_render_bytes(h);
    assert(h.w0 as int == word_at(s, 0) as u32 as int);
    assert(rb =~= bs.map_values(|b: u8| lower_byte(b))) by {
        lemma_render_word_len(h.w0 as int, 8);
        lemma_render_word_len(h.w1 as int, 8);
        lemma_render_word_len(h.w2 as int, 8);
        lemma_render_word_len(h.w3 as int, 8);
        lemma_render_word_len(h.w4 as int, 8);
        assert forall|i: int| 0 <= i < 40 implies bs.map_values(|b: u8| lower_byte(b))[i] == rb[i]
            by {
            let k = i / 8;
            let o = i % 8;
            assert(0 <= k < 5 && 0 <= o < 8 && i == 8 * k + o);
            assert(bs.subrange(8 * k, 8 * k + 8).map_values(|b: u8| lower_byte(b))[o] == bs.map_values(
                |b: u8| lower_byte(b),
            )[i]);
        }
    }
    assert forall|i: int| 0 <= i < 40 implies sha1_render(h)[i] == lower_chars(s)[i] by {
        assert(rb[i] == lower_byte(bs[i]));
        assert(bs[i] == (s[i] as u8));
        assert((s[i] as u32) < 0x80);
        lemma_lower_char_byte(s[i]);
    }
    assert(sha1_render(h) =~= lower_chars(s));
}

} // verus!
