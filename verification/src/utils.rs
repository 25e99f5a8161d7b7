//! Text for the system, and lengths at a DPI.

use crate::config::saturated;
use crate::utf16::{decode, decoded, decoding_undoes_encoding, encode, encoded, units_of};
use vstd::prelude::*;

verus! {

/// `s` in UTF-16, closed by a 0.
pub fn wstr(s: &str) -> (units: Vec<u16>)
    ensures
        units@ == encoded(s@).push(0),
{
    let mut units = encode(s);
    units.push(0);
    units
}

/// `s` in UTF-16, as it stands in a field of `len` units: cut off to leave a 0 at the end, and filled
/// up with 0.
pub open spec fn field_text(s: Seq<char>, len: nat) -> Seq<u16> {
    Seq::new(
        len,
        |i: int|
            if i < encoded(s).len() && i < len - 1 {
                encoded(s)[i]
            } else {
                0
            },
    )
}

/// A text that fits a field, with a 0 behind it, reads back from it; one that does not is cut off, and the
/// field still ends in a 0.
pub proof fn a_field_reads_back(s: Seq<char>, len: nat, i: int)
    requires
        len > 0,
    ensures
        field_text(s, len).len() == len,
        field_text(s, len)[len - 1] == 0,
        !s.contains('\0') && encoded(s).len() < len ==> decoded(before_nul(field_text(s, len)))
            == s,
        0 <= i < len - 1 && i < encoded(s).len() ==> field_text(s, len)[i] == encoded(s)[i],
{
    if !s.contains('\0') && encoded(s).len() < len {
        let n = encoded(s).len() as int;
        let rest = field_text(s, len).skip(n);
        assert(field_text(s, len) =~= encoded(s) + rest);
        assert(rest[0] == 0);
        lemma_before_nul(s, rest);
        decoding_undoes_encoding(s);
    }
}

/// See [`field_text`].
pub fn fixed_text(s: &str, len: usize) -> (units: Vec<u16>)
    requires
        len > 0,
    ensures
        units@ == field_text(s@, len as nat),
        units@.len() == len,
        units@[len - 1] == 0,
{
    let text = encode(s);
    let mut units: Vec<u16> = Vec::new();
    for i in 0..len
        invariant
            len > 0,
            text@ == encoded(s@),
            units@ == field_text(s@, len as nat).take(i as int),
    {
        if i < text.len() && i < len - 1 {
            units.push(text[i]);
        } else {
            units.push(0);
        }
        assert(units@ =~= field_text(s@, len as nat).take(i + 1));
    }
    assert(units@ =~= field_text(s@, len as nat));
    units
}

/// The text that a field closed by a 0 holds, in UTF-16: what stands before the first 0.
pub open spec fn before_nul(units: Seq<u16>) -> Seq<u16>
    decreases units.len(),
{
    if units.len() == 0 || units[0] == 0 {
        Seq::empty()
    } else {
        seq![units[0]] + before_nul(units.skip(1))
    }
}

/// The text of a field that is closed by a 0.
pub fn text_of_field(units: &[u16]) -> (text: String)
    ensures
        text@ == decoded(before_nul(units@)),
{
    let mut text: Vec<u16> = Vec::new();
    let mut i: usize = 0;
    assert(units@.skip(0) =~= units@);
    while i < units.len() && units[i] != 0
        invariant
            i <= units@.len(),
            text@ + before_nul(units@.skip(i as int)) == before_nul(units@),
        decreases units@.len() - i,
    {
        let ghost rest = units@.skip(i as int);
        let ghost before = text@;
        text.push(units[i]);
        proof {
            assert(rest.skip(1) =~= units@.skip(i + 1));
            assert(before_nul(rest) == seq![rest[0]] + before_nul(rest.skip(1)));
            assert(text@ + before_nul(rest.skip(1)) =~= before + before_nul(rest));
        }
        i += 1;
    }
    assert(before_nul(units@.skip(i as int)) =~= Seq::empty());
    assert(text@ =~= before_nul(units@));
    decode(text.as_slice())
}

proof fn lemma_unit_before_nul(c: char, rest: Seq<u16>)
    requires
        c != '\0',
    ensures
        before_nul(units_of(c) + rest) == units_of(c) + before_nul(rest),
{
    let all = units_of(c) + rest;
    let code = c as u32;
    if code < 0x10000 {
        assert(all.skip(1) =~= rest);
    } else {
        assert((code - 0x10000) / 0x400 < 0x400);
        assert(all.skip(1).skip(1) =~= rest);
        assert(before_nul(all.skip(1)) == seq![all[1]] + before_nul(rest));
        assert(before_nul(all) =~= units_of(c) + before_nul(rest));
    }
}

/// A text without a 0 in it reads back from the units that [`wstr`] makes of it.
pub proof fn a_wide_text_reads_back(s: Seq<char>)
    requires
        !s.contains('\0'),
    ensures
        decoded(before_nul(encoded(s).push(0))) == s,
{
    assert(encoded(s).push(0) =~= encoded(s) + seq![0u16]);
    lemma_before_nul(s, seq![0u16]);
    decoding_undoes_encoding(s);
}

/// What stands before the first 0 of a text without one, closed by a 0, is the text.
pub proof fn lemma_before_nul(s: Seq<char>, rest: Seq<u16>)
    requires
        !s.contains('\0'),
        rest.len() > 0,
        rest[0] == 0,
    ensures
        before_nul(encoded(s) + rest) == encoded(s),
    decreases s.len(),
{
    if s.len() == 0 {
        assert(encoded(s) + rest =~= rest);
    } else {
        let tail = s.skip(1);
        assert(s.contains(s[0]));
        assert forall|c: char| tail.contains(c) implies s.contains(c) by {
            let k = choose|k: int| 0 <= k < tail.len() && tail[k] == c;
            assert(s[k + 1] == c);
        }
        lemma_before_nul(tail, rest);
        lemma_unit_before_nul(s[0], encoded(tail) + rest);
        assert(encoded(s) + rest =~= units_of(s[0]) + (encoded(tail) + rest));
    }
}

/// `len` logical pixels at `dpi`, cut off to whole pixels.
pub open spec fn at_dpi(len: int, dpi: int) -> int {
    saturated(len * dpi / 96)
}

/// A length of `len` logical pixels has as many whole pixels as `dpi` to 96 gives it, its own number at
/// 96, and never fewer at a higher DPI.
pub proof fn pixels_are_in_proportion(len: int, dpi: int, more: int)
    requires
        0 <= len,
        0 <= dpi <= more,
        at_dpi(len, more) < i32::MAX,
    ensures
        96 * at_dpi(len, dpi) <= len * dpi < 96 * (at_dpi(len, dpi) + 1),
        dpi == 96 ==> at_dpi(len, dpi) == len,
        at_dpi(len, dpi) <= at_dpi(len, more),
{
    assert(0 <= len * dpi <= len * more) by (nonlinear_arith)
        requires
            0 <= len,
            0 <= dpi <= more,
    ;
}

/// See [`at_dpi`].
pub fn pixels(len: u32, dpi: u32) -> (n: i32)
    requires
        len <= 0x1_0000,
    ensures
        n == at_dpi(len as int, dpi as int),
        n >= 0,
{
    assert(len as int * dpi as int <= 0x1_0000 * 0xffff_ffff) by (nonlinear_arith)
        requires
            0 <= len <= 0x1_0000,
            0 <= dpi <= 0xffff_ffff,
    ;
    let product: u64 = len as u64 * dpi as u64;
    let n: u64 = product / 96;
    if n > i32::MAX as u64 {
        i32::MAX
    } else {
        n as i32
    }
}

} // verus!
