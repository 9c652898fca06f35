//! Conversions at the Win32 boundary: NUL-terminated UTF-16 text and the
//! coordinates packed into a message parameter.

use vstd::prelude::*;

use crate::text::{chars_of, push_char};

verus! {

/// A UTF-16 surrogate code unit (either half of a pair).
pub open spec fn is_surrogate(u: u16) -> bool {
    0xD800 <= u <= 0xDFFF
}

/// The leading half of a surrogate pair.
pub open spec fn is_high_surrogate(u: u16) -> bool {
    0xD800 <= u <= 0xDBFF
}

/// The trailing half of a surrogate pair.
pub open spec fn is_low_surrogate(u: u16) -> bool {
    0xDC00 <= u <= 0xDFFF
}

/// The code units of one character in UTF-16.
pub open spec fn utf16_char(c: char) -> Seq<u16> {
    let u = c as u32;
    if u < 0x10000 {
        seq![u as u16]
    } else {
        let v = u - 0x10000;
        seq![(0xD800 + v / 0x400) as u16, (0xDC00 + v % 0x400) as u16]
    }
}

/// The code units of a text in UTF-16.
pub open spec fn utf16(s: Seq<char>) -> Seq<u16>
    decreases s.len(),
{
    if s.len() == 0 {
        Seq::empty()
    } else {
        utf16_char(s[0]) + utf16(s.drop_first())
    }
}

/// The character a surrogate pair stands for.
pub open spec fn pair_value(hi: u16, lo: u16) -> u32 {
    (0x10000 + (hi - 0xD800) * 0x400 + (lo - 0xDC00)) as u32
}

/// Lossy UTF-16 decoding: a surrogate pair is one character, any other
/// surrogate is U+FFFD, any other unit is the character it names.
pub open spec fn decode_utf16_lossy(s: Seq<u16>) -> Seq<char>
    decreases s.len(),
{
    if s.len() == 0 {
        Seq::empty()
    } else if s.len() >= 2 && is_high_surrogate(s[0]) && is_low_surrogate(s[1]) {
        seq![pair_value(s[0], s[1]) as char] + decode_utf16_lossy(s.subrange(2, s.len() as int))
    } else if is_surrogate(s[0]) {
        seq!['\u{FFFD}'] + decode_utf16_lossy(s.drop_first())
    } else {
        seq![s[0] as char] + decode_utf16_lossy(s.drop_first())
    }
}

/// The units before the first NUL (all of them when there is none).
pub open spec fn before_nul(s: Seq<u16>) -> Seq<u16>
    decreases s.len(),
{
    if s.len() == 0 {
        s
    } else if s[0] == 0 {
        Seq::empty()
    } else {
        seq![s[0]] + before_nul(s.drop_first())
    }
}

/// The character with this scalar value (`char::from_u32`), if there is one.
#[verifier::external_body]
fn char_from_u32(u: u32) -> (r: Option<char>)
    ensures
        r is Some <==> (u <= 0x10FFFF && !(0xD800 <= u <= 0xDFFF)),
        r matches Some(c) ==> c == u as char,
{
    char::from_u32(u)
}

proof fn lemma_utf16_push(s: Seq<char>, c: char)
    ensures
        utf16(s.push(c)) == utf16(s) + utf16_char(c),
    decreases s.len(),
{
    if s.len() > 0 {
        lemma_utf16_push(s.drop_first(), c);
        assert(s.push(c).drop_first() =~= s.drop_first().push(c));
        assert(utf16(s.push(c)) =~= utf16_char(s[0]) + utf16(s.drop_first().push(c)));
        assert(utf16(s) + utf16_char(c) =~= utf16_char(s[0]) + (utf16(s.drop_first()) + utf16_char(c)));
    } else {
        assert(s.push(c).drop_first() =~= Seq::<char>::empty());
        assert(utf16(Seq::<char>::empty()) == Seq::<u16>::empty());
        assert(s.push(c)[0] == c);
        assert(utf16(s.push(c)) =~= utf16_char(c) + utf16(Seq::<char>::empty()));
        assert(utf16(s) == Seq::<u16>::empty());
        assert(utf16(s.push(c)) =~= utf16(s) + utf16_char(c));
    }
}

/// Convert a string to a NUL-terminated UTF-16 buffer.
pub fn wide(s: &str) -> (w: Vec<u16>)
    ensures
        w@ == utf16(s@).push(0),
{
    let cs = chars_of(s);
    let mut w: Vec<u16> = Vec::new();
    let mut i: usize = 0;
    while i < cs.len()
        invariant
            i <= cs@.len(),
            cs@ == s@,
            w@ == utf16(cs@.subrange(0, i as int)),
        decreases cs@.len() - i,
    {
        let u = cs[i] as u32;
        if u < 0x10000 {
            w.push(u as u16);
        } else {
            let v = u - 0x10000;
            w.push((0xD800 + v / 0x400) as u16);
            w.push((0xDC00 + v % 0x400) as u16);
        }
        proof {
            lemma_utf16_push(cs@.subrange(0, i as int), cs@[i as int]);
            assert(cs@.subrange(0, i + 1) =~= cs@.subrange(0, i as int).push(cs@[i as int]));
            assert(w@ =~= utf16(cs@.subrange(0, i + 1)));
        }
        i = i + 1;
    }
    assert(cs@.subrange(0, cs@.len() as int) =~= cs@);
    w.push(0);
    w
}

proof fn lemma_before_nul_prefix(s: Seq<u16>, i: int)
    requires
        0 <= i <= s.len(),
        forall|k: int| 0 <= k < i ==> s[k] != 0,
        i == s.len() || s[i] == 0,
    ensures
        before_nul(s) == s.subrange(0, i),
    decreases i,
{
    if i > 0 {
        lemma_before_nul_prefix(s.drop_first(), i - 1);
        assert(s.subrange(0, i) =~= seq![s[0]] + s.drop_first().subrange(0, i - 1));
    } else if s.len() > 0 {
        assert(s.subrange(0, 0) =~= Seq::<u16>::empty());
    } else {
        assert(s.subrange(0, 0) =~= s);
    }
}

/// Decode a NUL-terminated UTF-16 buffer back to a string, replacing unpaired
/// surrogates.
pub fn from_wide(buf: &[u16]) -> (s: String)
    ensures
        s@ == decode_utf16_lossy(before_nul(buf@)),
{
    let mut end: usize = 0;
    while end < buf.len() && buf[end] != 0
        invariant
            end <= buf@.len(),
            forall|k: int| 0 <= k < end ==> buf@[k] != 0,
        decreases buf@.len() - end,
    {
        end = end + 1;
    }
    proof {
        lemma_before_nul_prefix(buf@, end as int);
    }
    let ghost units = buf@.subrange(0, end as int);
    let mut s = String::new();
    let mut i: usize = 0;
    assert(units.subrange(0, end as int) =~= units);
    assert(s@ + decode_utf16_lossy(units) =~= decode_utf16_lossy(units));
    while i < end
        invariant
            i <= end,
            end <= buf@.len(),
            units == buf@.subrange(0, end as int),
            s@ + decode_utf16_lossy(units.subrange(i as int, end as int)) == decode_utf16_lossy(units),
        decreases end - i,
    {
        let ghost rest = units.subrange(i as int, end as int);
        let u = buf[i];
        if i + 1 < end && 0xD800 <= u && u <= 0xDBFF && 0xDC00 <= buf[i + 1] && buf[i + 1] <= 0xDFFF {
            let lo = buf[i + 1];
            let value = 0x10000u32 + ((u - 0xD800) as u32) * 0x400 + ((lo - 0xDC00) as u32);
            let c = char_from_u32(value);
            match c {
                Some(c) => push_char(&mut s, c),
                None => push_char(&mut s, '\u{FFFD}'),
            }
            proof {
                assert(rest.subrange(2, rest.len() as int) =~= units.subrange(i + 2, end as int));
                assert(value == pair_value(rest[0], rest[1]));
                assert(value <= 0x10FFFF);
                assert(c == Some(value as char));
            }
            i = i + 2;
        } else {
            if 0xD800 <= u && u <= 0xDFFF {
                push_char(&mut s, '\u{FFFD}');
            } else {
                let c = char_from_u32(u as u32);
                match c {
                    Some(c) => push_char(&mut s, c),
                    None => push_char(&mut s, '\u{FFFD}'),
                }
                proof {
                    assert(c == Some((u as u32) as char));
                    assert((u as u32) as char == u as char);
                }
            }
            proof {
                assert(rest.drop_first() =~= units.subrange(i + 1, end as int));
            }
            i = i + 1;
        }
    }
    proof {
        assert(units.subrange(end as int, end as int) =~= Seq::<u16>::empty());
        assert(s@ + Seq::<char>::empty() =~= s@);
    }
    s
}

proof fn lemma_utf16_char_decodes(c: char, rest: Seq<u16>)
    ensures
        decode_utf16_lossy(utf16_char(c) + rest) == seq![c] + decode_utf16_lossy(rest),
        forall|k: int| 0 <= k < utf16_char(c).len() ==> (#[trigger] utf16_char(c)[k] == 0 ==> c == '\0'),
{
    let u = c as u32;
    let w = utf16_char(c) + rest;
    if u < 0x10000 {
        assert(!(0xD800 <= u <= 0xDFFF));
        assert(w[0] == u as u16);
        assert(w.drop_first() =~= rest);
        assert((u as u16) as char == c);
    } else {
        let v = u - 0x10000;
        assert(v <= 0xFFFFF);
        vstd::arithmetic::div_mod::lemma_fundamental_div_mod(v as int, 0x400);
        vstd::arithmetic::div_mod::lemma_mod_bound(v as int, 0x400);
        assert(v / 0x400 < 0x400) by (nonlinear_arith)
            requires v <= 0xFFFFF;
        let hi = (0xD800 + v / 0x400) as u16;
        let lo = (0xDC00 + v % 0x400) as u16;
        assert(w[0] == hi && w[1] == lo);
        assert(pair_value(hi, lo) == u);
        assert(w.subrange(2, w.len() as int) =~= rest);
        assert((u as char) == c);
    }
}

proof fn lemma_utf16_decodes(s: Seq<char>)
    ensures
        decode_utf16_lossy(utf16(s)) == s,
    decreases s.len(),
{
    if s.len() > 0 {
        lemma_utf16_decodes(s.drop_first());
        lemma_utf16_char_decodes(s[0], utf16(s.drop_first()));
        assert(s =~= seq![s[0]] + s.drop_first());
    } else {
        assert(utf16(s) == Seq::<u16>::empty());
    }
}

proof fn lemma_utf16_no_nul(s: Seq<char>)
    requires
        forall|i: int| 0 <= i < s.len() ==> s[i] != '\0',
    ensures
        forall|k: int| 0 <= k < utf16(s).len() ==> utf16(s)[k] != 0,
    decreases s.len(),
{
    if s.len() > 0 {
        lemma_utf16_no_nul(s.drop_first());
        lemma_utf16_char_decodes(s[0], utf16(s.drop_first()));
        let a = utf16_char(s[0]);
        let b = utf16(s.drop_first());
        assert forall|k: int| 0 <= k < utf16(s).len() implies utf16(s)[k] != 0 by {
            if k < a.len() {
                assert(utf16(s)[k] == a[k]);
            } else {
                assert(utf16(s)[k] == b[k - a.len()]);
            }
        }
    }
}

/// Text converted to a NUL-terminated UTF-16 buffer and decoded back is
/// unchanged, provided it holds no NUL character.
pub proof fn law_wide_roundtrip(s: Seq<char>)
    requires
        forall|i: int| 0 <= i < s.len() ==> s[i] != '\0',
    ensures
        decode_utf16_lossy(before_nul(utf16(s).push(0))) == s,
{
    lemma_utf16_no_nul(s);
    let w = utf16(s).push(0);
    lemma_before_nul_prefix(w, utf16(s).len() as int);
    assert(w.subrange(0, utf16(s).len() as int) =~= utf16(s));
    lemma_utf16_decodes(s);
}

/// The signed 16-bit value held in the low 16 bits of `v`.
pub open spec fn low_word_signed(v: int) -> int {
    let lo = v % 0x10000;
    if lo >= 0x8000 {
        lo - 0x10000
    } else {
        lo
    }
}

/// Extract the signed X coordinate packed into a message parameter
/// (e.g. `WM_CONTEXTMENU`).
pub fn get_x_lparam(lp: isize) -> (x: i32)
    ensures
        x == low_word_signed(lp as int),
{
    let lo: isize = lp & 0xFFFF;
    assert(lo == lp & 0xFFFF);
    assert(0 <= lp & 0xFFFF <= 0xFFFF) by (bit_vector);
    assert(lp & 0xFFFF == (lp as int) % 0x10000) by (bit_vector);
    if lo >= 0x8000 {
        (lo - 0x10000) as i32
    } else {
        lo as i32
    }
}

/// Extract the signed Y coordinate packed into a message parameter.
pub fn get_y_lparam(lp: isize) -> (y: i32)
    ensures
        y == low_word_signed((lp as int) / 0x10000),
{
    let hi: isize = (lp >> 16) & 0xFFFF;
    assert(0 <= (lp >> 16) & 0xFFFF <= 0xFFFF) by (bit_vector);
    assert((lp >> 16) & 0xFFFF == ((lp as int) / 0x10000) % 0x10000) by (bit_vector);
    if hi >= 0x8000 {
        (hi - 0x10000) as i32
    } else {
        hi as i32
    }
}

} // verus!
