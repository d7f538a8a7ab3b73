//! UTF-16, the form Windows wants its strings in.

use vstd::prelude::*;

use crate::text;

verus! {

/// `char::from_u32` gives the character with that number, and `None` for a
/// number that no character has.
pub assume_specification[ char::from_u32 ](i: u32) -> (r: Option<char>)
    ensures
        r is Some <==> vstd::utf8::is_scalar(i),
        r matches Some(c) ==> c as u32 == i,
;

pub open spec fn is_high(u: u16) -> bool {
    0xD800 <= u <= 0xDBFF
}

pub open spec fn is_low(u: u16) -> bool {
    0xDC00 <= u <= 0xDFFF
}

/// One unit for a character below 0x10000, a surrogate pair for the others.
pub open spec fn units_of(c: char) -> Seq<u16> {
    let n = c as u32;
    if n < 0x1_0000 {
        seq![n as u16]
    } else {
        seq![
            (0xD800 + (n - 0x1_0000) / 0x400) as u16,
            (0xDC00 + (n - 0x1_0000) % 0x400) as u16,
        ]
    }
}

pub open spec fn encoded(s: Seq<char>) -> Seq<u16>
    decreases s.len(),
{
    if s.len() == 0 {
        Seq::empty()
    } else {
        units_of(s[0]) + encoded(s.drop_first())
    }
}

/// The character a surrogate pair stands for.
pub open spec fn paired(high: u16, low: u16) -> char {
    (0x1_0000 + (high - 0xD800) * 0x400 + (low - 0xDC00)) as u32 as char
}

/// The text that units spell; a surrogate that is not half of a pair becomes the
/// replacement character.
pub open spec fn decoded(u: Seq<u16>) -> Seq<char>
    decreases u.len(),
{
    if u.len() == 0 {
        Seq::empty()
    } else if !is_high(u[0]) && !is_low(u[0]) {
        seq![u[0] as u32 as char] + decoded(u.drop_first())
    } else if is_high(u[0]) && u.len() > 1 && is_low(u[1]) {
        seq![paired(u[0], u[1])] + decoded(u.skip(2))
    } else {
        seq!['\u{FFFD}'] + decoded(u.drop_first())
    }
}

fn push_units(out: &mut Vec<u16>, c: char)
    ensures
        final(out)@ == old(out)@ + units_of(c),
{
    let n: u32 = c as u32;
    if n < 0x1_0000 {
        out.push(n as u16);
    } else {
        out.push((0xD800 + (n - 0x1_0000) / 0x400) as u16);
        out.push((0xDC00 + (n - 0x1_0000) % 0x400) as u16);
    }
    assert(out@ =~= old(out)@ + units_of(c));
}

pub fn encode(s: &str) -> (out: Vec<u16>)
    ensures
        out@ == encoded(s@),
{
    let chars = text::chars_of(s);
    let mut out: Vec<u16> = Vec::new();
    let mut i: usize = 0;
    assert(chars@.skip(0) =~= s@);
    while i < chars.len()
        invariant
            i <= chars@.len(),
            out@ + encoded(chars@.skip(i as int)) =~= encoded(s@),
        decreases chars@.len() - i,
    {
        let ghost rest = chars@.skip(i as int);
        assert(rest.drop_first() =~= chars@.skip(i as int + 1));
        push_units(&mut out, chars[i]);
        i += 1;
    }
    assert(out@ =~= encoded(s@));
    out
}

pub fn decode(units: &Vec<u16>) -> (s: String)
    ensures
        s@ == decoded(units@),
{
    let mut s = String::new();
    let mut i: usize = 0;
    assert(units@.skip(0) =~= units@);
    while i < units.len()
        invariant
            i <= units@.len(),
            s@ + decoded(units@.skip(i as int)) =~= decoded(units@),
        decreases units@.len() - i,
    {
        let ghost rest = units@.skip(i as int);
        assert(rest.drop_first() =~= units@.skip(i as int + 1));
        let u: u16 = units[i];
        if u < 0xD800 || u > 0xDFFF {
            if let Some(c) = char::from_u32(u as u32) {
                proof {
                    vstd::utf8::char_u32_cast(c, u as u32);
                }
                s.push(c);
            }
            i += 1;
        } else if u <= 0xDBFF && i + 1 < units.len() && units[i + 1] >= 0xDC00 && units[i + 1]
            <= 0xDFFF {
            let low: u16 = units[i + 1];
            let n: u32 = 0x1_0000 + (u as u32 - 0xD800) * 0x400 + (low as u32 - 0xDC00);
            assert(rest.skip(2) =~= units@.skip(i as int + 2));
            if let Some(c) = char::from_u32(n) {
                proof {
                    vstd::utf8::char_u32_cast(c, n);
                }
                s.push(c);
            }
            i += 2;
        } else {
            s.push('\u{FFFD}');
            i += 1;
        }
    }
    assert(s@ =~= decoded(units@));
    s
}

/// NUL-terminated UTF-16, the only string form the wide Windows calls accept.
pub fn wide(s: &str) -> (out: Vec<u16>)
    ensures
        out@ == encoded(s@).push(0),
{
    let mut out = encode(s);
    out.push(0);
    out
}

proof fn lemma_units(c: char)
    ensures
        1 <= units_of(c).len() <= 2,
        units_of(c).len() == 1 ==> !is_high(units_of(c)[0]) && !is_low(units_of(c)[0])
            && units_of(c)[0] as u32 as char == c,
        units_of(c).len() == 2 ==> is_high(units_of(c)[0]) && is_low(units_of(c)[1]) && paired(
            units_of(c)[0],
            units_of(c)[1],
        ) == c,
        c != '\0' ==> units_of(c)[0] != 0,
        c != '\0' && units_of(c).len() == 2 ==> units_of(c)[1] != 0,
{
    let n = c as u32;
    vstd::utf8::char_is_scalar(c);
    vstd::utf8::char_u32_cast(c, n);
    if n >= 0x1_0000 {
        let v = n - 0x1_0000;
        assert(v == v / 0x400 * 0x400 + v % 0x400);
        assert(v / 0x400 < 0x400);
    }
}

/// What is written in UTF-16 is read back.
pub proof fn law_utf16_round_trip(s: Seq<char>)
    ensures
        decoded(encoded(s)) == s,
    decreases s.len(),
{
    if s.len() > 0 {
        let units = units_of(s[0]);
        let rest = encoded(s.drop_first());
        let all = units + rest;
        lemma_units(s[0]);
        law_utf16_round_trip(s.drop_first());
        assert(encoded(s) == all);
        if units.len() == 1 {
            assert(all[0] == units[0]);
            assert(all.drop_first() =~= rest);
        } else {
            assert(all[0] == units[0] && all[1] == units[1]);
            assert(all.skip(2) =~= rest);
        }
        assert(decoded(all) =~= s);
    } else {
        assert(decoded(encoded(s)) =~= s);
    }
}

/// A text without NUL has no NUL among its units.
pub proof fn lemma_no_nul(s: Seq<char>)
    requires
        !s.contains('\0'),
    ensures
        forall|i: int| 0 <= i < encoded(s).len() ==> encoded(s)[i] != 0,
        s.len() > 0 ==> encoded(s).len() > 0,
    decreases s.len(),
{
    if s.len() > 0 {
        let rest = s.drop_first();
        lemma_units(s[0]);
        assert(s[0] != '\0') by {
            assert(s.contains(s[0]));
        }
        assert(!rest.contains('\0')) by {
            if rest.contains('\0') {
                let i = choose|i: int| 0 <= i < rest.len() && rest[i] == '\0';
                assert(s[i + 1] == '\0');
                assert(s.contains('\0'));
            }
        }
        lemma_no_nul(rest);
        let first = units_of(s[0]);
        assert forall|i: int| 0 <= i < encoded(s).len() implies encoded(s)[i] != 0 by {
            if i < first.len() {
                assert(encoded(s)[i] == first[i]);
            } else {
                assert(encoded(s)[i] == encoded(rest)[i - first.len()]);
            }
        }
    }
}

/// A character of the first plane is one unit with its own code; any other is two,
/// which hold the ten high and the ten low bits of what its code is above 0x10000.
pub proof fn law_unit_codes(c: char)
    ensures
        (c as u32) < 0x1_0000 ==> units_of(c) == seq![c as u32 as u16],
        c as u32 >= 0x1_0000 ==> units_of(c).len() == 2 && 0xD800 <= units_of(c)[0] <= 0xDBFF
            && 0xDC00 <= units_of(c)[1] <= 0xDFFF && 0x1_0000 + (units_of(c)[0] - 0xD800) * 0x400
            + (units_of(c)[1] - 0xDC00) == c as u32,
{
    lemma_units(c);
    let n = c as u32;
    vstd::utf8::char_is_scalar(c);
    vstd::utf8::char_u32_cast(c, n);
    if n >= 0x1_0000 {
        let v = n - 0x1_0000;
        assert(v == v / 0x400 * 0x400 + v % 0x400);
        assert(v / 0x400 < 0x400);
    } else {
        assert(units_of(c) =~= seq![c as u32 as u16]);
    }
}

/// A text is its characters' units one after the other, and half of a pair reads as
/// the replacement character.
pub proof fn law_units_in_order(a: Seq<char>, b: Seq<char>, c: char, half: u16)
    requires
        0xD800 <= half <= 0xDFFF,
    ensures
        encoded(a + b) == encoded(a) + encoded(b),
        encoded(seq![c]) == units_of(c),
        decoded(seq![half]) == seq!['\u{FFFD}'],
    decreases a.len(),
{
    if a.len() > 0 {
        law_units_in_order(a.drop_first(), b, c, half);
        assert((a + b).drop_first() =~= a.drop_first() + b);
        assert(encoded(a + b) =~= encoded(a) + encoded(b));
    } else {
        assert(a + b =~= b);
        assert(encoded(a + b) =~= encoded(a) + encoded(b));
    }
    assert(seq![c].drop_first() =~= Seq::empty());
    assert(encoded(Seq::empty()) =~= Seq::<u16>::empty());
    assert(encoded(seq![c]) =~= units_of(c));
    assert(seq![half].drop_first() =~= Seq::empty());
    assert(decoded(Seq::empty()) =~= Seq::<char>::empty());
    assert(decoded(seq![half]) =~= seq!['\u{FFFD}']);
}

/// Half of a pair takes nothing with it: what comes behind is read as if it were not
/// there, and so is what comes behind a unit that is a character by itself.
pub proof fn law_half_takes_nothing_with_it(unit: u16, rest: Seq<u16>)
    ensures
        !(0xD800 <= unit <= 0xDFFF) ==> decoded(seq![unit] + rest) == seq![unit as u32 as char]
            + decoded(rest),
        0xDC00 <= unit <= 0xDFFF ==> decoded(seq![unit] + rest) == seq!['\u{FFFD}'] + decoded(rest),
        0xD800 <= unit <= 0xDBFF && (rest.len() == 0 || !(0xDC00 <= rest[0] <= 0xDFFF)) ==> decoded(
            seq![unit] + rest,
        ) == seq!['\u{FFFD}'] + decoded(rest),
{
    let all = seq![unit] + rest;
    assert(all.drop_first() =~= rest);
}

} // verus!
