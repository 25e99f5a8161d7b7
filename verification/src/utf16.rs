//! UTF-16, as the operating system takes and gives text.

use vstd::prelude::*;

verus! {

/// Turns a code point into a character: `char::from_u32` gives the character exactly for the
/// Unicode scalar values, that is every value up to U+10FFFF that is no surrogate.
pub assume_specification[ char::from_u32 ](i: u32) -> (c: Option<char>)
    ensures
        (i <= 0xd7ff || 0xe000 <= i <= 0x10ffff) ==> c == Some(i as char),
        !(i <= 0xd7ff || 0xe000 <= i <= 0x10ffff) ==> c is None,
;

/// The code units of one character.
pub open spec fn units_of(c: char) -> Seq<u16> {
    let code = c as u32;
    if code < 0x10000 {
        seq![code as u16]
    } else {
        seq![
            (0xd800 + (code - 0x10000) / 0x400) as u16,
            (0xdc00 + (code - 0x10000) % 0x400) as u16,
        ]
    }
}

/// `s` in UTF-16.
pub open spec fn encoded(s: Seq<char>) -> Seq<u16>
    decreases s.len(),
{
    if s.len() == 0 {
        Seq::empty()
    } else {
        units_of(s[0]) + encoded(s.skip(1))
    }
}

/// Whether `u` opens a surrogate pair.
pub open spec fn is_high(u: u16) -> bool {
    0xd800 <= u <= 0xdbff
}

/// Whether `u` closes a surrogate pair.
pub open spec fn is_low(u: u16) -> bool {
    0xdc00 <= u <= 0xdfff
}

/// The text that `u` stands for, with U+FFFD in place of each unpaired surrogate.
pub open spec fn decoded(u: Seq<u16>) -> Seq<char>
    decreases u.len(),
{
    if u.len() == 0 {
        Seq::empty()
    } else if is_high(u[0]) && u.len() > 1 && is_low(u[1]) {
        seq![(0x10000 + (u[0] - 0xd800) * 0x400 + (u[1] - 0xdc00)) as char] + decoded(u.skip(2))
    } else if is_high(u[0]) || is_low(u[0]) {
        seq!['\u{fffd}'] + decoded(u.skip(1))
    } else {
        seq![u[0] as char] + decoded(u.skip(1))
    }
}

/// `s` in UTF-16.
pub fn encode(s: &str) -> (out: Vec<u16>)
    ensures
        out@ == encoded(s@),
{
    let chars = crate::text::chars_of(s);
    let mut out: Vec<u16> = Vec::new();
    let mut i: usize = 0;
    assert(s@.skip(0) == s@);
    while i < chars.len()
        invariant
            i <= chars@.len(),
            chars@ == s@,
            out@ + encoded(s@.skip(i as int)) == encoded(s@),
        decreases chars@.len() - i,
    {
        let c = chars[i];
        let code: u32 = c as u32;
        let ghost before = out@;
        proof {
            vstd::utf8::char_is_scalar(c);
        }
        if code < 0x10000 {
            out.push(code as u16);
        } else {
            out.push((0xd800 + (code - 0x10000) / 0x400) as u16);
            out.push((0xdc00 + (code - 0x10000) % 0x400) as u16);
        }
        assert(out@ == before + units_of(c));
        assert(s@.skip(i as int).skip(1) == s@.skip(i + 1));
        assert(before + (units_of(c) + encoded(s@.skip(i + 1))) == out@ + encoded(s@.skip(i + 1)));
        i += 1;
    }
    assert(s@.skip(s@.len() as int) == Seq::<char>::empty());
    assert(out@ + Seq::<u16>::empty() == out@);
    out
}

/// The text that `u` stands for, with U+FFFD in place of each unpaired surrogate.
pub fn decode(u: &[u16]) -> (out: String)
    ensures
        out@ == decoded(u@),
{
    let mut out = String::new();
    let mut i: usize = 0;
    assert(u@.skip(0) == u@);
    while i < u.len()
        invariant
            i <= u@.len(),
            out@ + decoded(u@.skip(i as int)) == decoded(u@),
        decreases u@.len() - i,
    {
        let ghost before = out@;
        let unit: u16 = u[i];
        let high: bool = 0xd800 <= unit && unit <= 0xdbff;
        assert(u@.skip(i as int).skip(1) == u@.skip(i + 1));
        if high && u.len() - i > 1 && 0xdc00 <= u[i + 1] && u[i + 1] <= 0xdfff {
            let code: u32 = 0x10000 + (unit as u32 - 0xd800) * 0x400 + (u[i + 1] as u32 - 0xdc00);
            match char::from_u32(code) {
                Some(c) => out.push(c),
                None => {},
            }
            assert(u@.skip(i as int).skip(2) == u@.skip(i + 2));
            assert(out@ == before + seq![code as char]);
            assert(before + (seq![code as char] + decoded(u@.skip(i + 2))) == out@ + decoded(
                u@.skip(i + 2),
            ));
            i += 2;
        } else {
            match char::from_u32(unit as u32) {
                Some(c) => out.push(c),
                None => out.push('\u{fffd}'),
            }
            let ghost c = out@.last();
            assert(out@ == before + seq![c]);
            assert(before + (seq![c] + decoded(u@.skip(i + 1))) == out@ + decoded(u@.skip(i + 1)));
            i += 1;
        }
    }
    assert(u@.skip(u@.len() as int) == Seq::<u16>::empty());
    assert(out@ + Seq::<char>::empty() == out@);
    out
}

/// One character survives the way through UTF-16.
proof fn one_character_round_trip(c: char, rest: Seq<u16>)
    ensures
        decoded(units_of(c) + rest) == seq![c] + decoded(rest),
{
    let u = units_of(c) + rest;
    let code = c as u32;
    if code < 0x10000 {
        assert(u.skip(1) == rest);
        assert(u[0] as char == c);
    } else {
        assert(u.skip(2) == rest);
        assert(is_high(u[0]) && is_low(u[1]));
        assert(0x10000 + (u[0] - 0xd800) * 0x400 + (u[1] - 0xdc00) == code);
    }
}

/// Text survives the way through UTF-16 and back.
pub proof fn decoding_undoes_encoding(s: Seq<char>)
    ensures
        decoded(encoded(s)) == s,
    decreases s.len(),
{
    if s.len() > 0 {
        decoding_undoes_encoding(s.skip(1));
        one_character_round_trip(s[0], encoded(s.skip(1)));
        assert(s == seq![s[0]] + s.skip(1));
    }
}

/// A character of the basic plane is one unit, its own number; any other is a pair, whose halves carry
/// its upper and lower ten bits.
pub proof fn units_carry_the_bits(c: char)
    ensures
        ({
            let u = encoded(seq![c]);
            let code = c as u32;
            &&& code < 0x10000 ==> u == seq![code as u16]
            &&& code >= 0x10000 ==> u.len() == 2 && 0xd800 <= u[0] < 0xdc00 && 0xdc00 <= u[1]
                < 0xe000 && (u[0] - 0xd800) * 1024 + (u[1] - 0xdc00) == code - 0x10000
        }),
{
    vstd::utf8::char_is_scalar(c);
    let s = seq![c];
    assert(s.skip(1) =~= Seq::empty());
    assert(encoded(s.skip(1)) =~= Seq::empty());
    assert(encoded(s) =~= units_of(c));
}

/// Texts that are joined are joined in UTF-16 too.
pub proof fn encoding_goes_piece_by_piece(a: Seq<char>, b: Seq<char>)
    ensures
        encoded(a + b) == encoded(a) + encoded(b),
    decreases a.len(),
{
    if a.len() == 0 {
        assert(a + b =~= b);
        assert(encoded(a) + encoded(b) =~= encoded(b));
    } else {
        encoding_goes_piece_by_piece(a.skip(1), b);
        assert((a + b).skip(1) =~= a.skip(1) + b);
        assert(units_of(a[0]) + (encoded(a.skip(1)) + encoded(b)) =~= (units_of(a[0]) + encoded(
            a.skip(1),
        )) + encoded(b));
    }
}

/// What is cut anywhere but inside a pair decodes to the same text, piece by piece.
pub proof fn decoding_goes_piece_by_piece(u: Seq<u16>, cut: int)
    requires
        0 <= cut <= u.len(),
        !(0 < cut < u.len() && is_high(u[cut - 1]) && is_low(u[cut])),
    ensures
        decoded(u.take(cut)) + decoded(u.skip(cut)) == decoded(u),
    decreases u.len(),
{
    let a = u.take(cut);
    let b = u.skip(cut);
    if cut == 0 {
        assert(b =~= u);
        assert(decoded(a) + decoded(b) =~= decoded(u));
    } else if is_high(u[0]) && u.len() > 1 && is_low(u[1]) {
        assert(cut >= 2);
        let c = seq![(0x10000 + (u[0] - 0xd800) * 0x400 + (u[1] - 0xdc00)) as char];
        decoding_goes_piece_by_piece(u.skip(2), cut - 2);
        assert(u.skip(2).take(cut - 2) =~= a.skip(2));
        assert(u.skip(2).skip(cut - 2) =~= b);
        assert(decoded(a) == c + decoded(a.skip(2)));
        assert(c + decoded(a.skip(2)) + decoded(b) =~= c + (decoded(a.skip(2)) + decoded(b)));
    } else {
        decoding_goes_piece_by_piece(u.skip(1), cut - 1);
        assert(u.skip(1).take(cut - 1) =~= a.skip(1));
        assert(u.skip(1).skip(cut - 1) =~= b);
        let c = if is_high(u[0]) || is_low(u[0]) {
            seq!['\u{fffd}']
        } else {
            seq![u[0] as char]
        };
        assert(decoded(a) == c + decoded(a.skip(1)));
        assert(c + decoded(a.skip(1)) + decoded(b) =~= c + (decoded(a.skip(1)) + decoded(b)));
    }
}

} // verus!
