//! ASCII-case-insensitive substring search with no allocation.
//!
//! Stated over characters and carried out over bytes: UTF-8 continuation bytes
//! all have the high bit set, so a match of the bytes can only begin and end
//! where characters do, and text outside ASCII passes through untouched.

use vstd::prelude::*;

use crate::text;

verus! {

/// Whether `needle`, already in lower case, occurs in `hay`.
pub open spec fn occurs(hay: Seq<char>, needle: Seq<char>) -> bool {
    exists|i: int| #[trigger] occurs_at(hay, needle, i)
}

pub open spec fn occurs_at(hay: Seq<char>, needle: Seq<char>, i: int) -> bool {
    0 <= i && i + needle.len() <= hay.len() && text::lowered(hay.subrange(i, i + needle.len()))
        == needle
}

spec fn lower_byte(b: u8) -> u8 {
    if 0x41 <= b <= 0x5a {
        (b + 32) as u8
    } else {
        b
    }
}

spec fn lowered_bytes(s: Seq<u8>) -> Seq<u8> {
    Seq::new(s.len(), |i: int| lower_byte(s[i]))
}

spec fn bytes_at(hay: Seq<u8>, needle: Seq<u8>, i: int) -> bool {
    0 <= i && i + needle.len() <= hay.len() && lowered_bytes(hay).subrange(i, i + needle.len())
        == needle
}

spec fn bytes(s: Seq<char>) -> Seq<u8> {
    vstd::utf8::encode_utf8(s)
}

/// One character takes one to four bytes; the first is no continuation byte, the
/// others are, and only a character of ASCII has a byte of ASCII.
proof fn lemma_scalar(c: char)
    ensures
        1 <= vstd::utf8::encode_scalar(c as u32).len() <= 4,
        !vstd::utf8::is_continuation_byte(vstd::utf8::encode_scalar(c as u32)[0]),
        forall|i: int|
            1 <= i < vstd::utf8::encode_scalar(c as u32).len()
                ==> vstd::utf8::is_continuation_byte(
                #[trigger] vstd::utf8::encode_scalar(c as u32)[i],
            ),
        (c as u32) < 0x80 ==> vstd::utf8::encode_scalar(c as u32) == seq![c as u8],
        (c as u32) >= 0x80 ==> vstd::utf8::encode_scalar(c as u32)[0] >= 0x80,
{
    let one = seq![c];
    vstd::utf8::char_is_scalar(c);
    vstd::utf8::encode_utf8_first_scalar(one);
    assert(one.drop_first() =~= Seq::<char>::empty());
    assert(bytes(one.drop_first()) =~= Seq::<u8>::empty());
    assert(bytes(one) =~= vstd::utf8::encode_scalar(c as u32));
    let n = c as u32;
    if n < 0x80 {
        assert(vstd::utf8::leading_byte_width_1(n) == n as u8) by (bit_vector)
            requires
                n < 0x80,
        ;
        assert(vstd::utf8::encode_scalar(n) =~= seq![c as u8]);
    }
}

proof fn lemma_bytes_add(a: Seq<char>, b: Seq<char>)
    ensures
        bytes(a + b) == bytes(a) + bytes(b),
    decreases a.len(),
{
    if a.len() == 0 {
        assert(a + b =~= b);
        assert(bytes(a + b) =~= bytes(a) + bytes(b));
    } else {
        assert((a + b).drop_first() =~= a.drop_first() + b);
        lemma_bytes_add(a.drop_first(), b);
        assert(bytes(a + b) =~= bytes(a) + bytes(b));
    }
}

proof fn lemma_bytes_lowered(s: Seq<char>)
    ensures
        bytes(text::lowered(s)) == lowered_bytes(bytes(s)),
    decreases s.len(),
{
    if s.len() == 0 {
        assert(bytes(text::lowered(s)) =~= lowered_bytes(bytes(s)));
    } else {
        let c = s[0];
        let d = text::lower_char(c);
        lemma_bytes_lowered(s.drop_first());
        assert(text::lowered(s).drop_first() =~= text::lowered(s.drop_first()));
        assert(text::lowered(s)[0] == d);
        lemma_scalar(c);
        lemma_scalar(d);
        assert(vstd::utf8::encode_scalar(d as u32) =~= lowered_bytes(
            vstd::utf8::encode_scalar(c as u32),
        ));
        assert(bytes(text::lowered(s)) =~= lowered_bytes(bytes(s)));
    }
}

/// A text whose bytes begin with those of another begins with that other.
proof fn lemma_prefix(s: Seq<char>, part: Seq<char>)
    requires
        bytes(part).len() <= bytes(s).len(),
        bytes(s).take(bytes(part).len() as int) == bytes(part),
    ensures
        part.len() <= s.len(),
        s.take(part.len() as int) == part,
    decreases part.len(),
{
    if part.len() == 0 {
        assert(s.take(0) =~= part);
    } else {
        lemma_scalar(part[0]);
        assert(bytes(part).len() > 0);
        assert(s.len() > 0);
        lemma_scalar(s[0]);
        vstd::utf8::encode_utf8_first_scalar(s);
        vstd::utf8::encode_utf8_first_scalar(part);
        let hay = bytes(s);
        let needle = bytes(part);
        assert forall|i: int| 0 <= i < needle.len() implies hay[i] == needle[i] by {
            assert(hay.take(needle.len() as int)[i] == needle[i]);
        }
        let n = vstd::utf8::encode_scalar(part[0] as u32).len() as int;
        assert(needle.len() >= n);
        assert(vstd::utf8::length_of_first_scalar(hay) == vstd::utf8::length_of_first_scalar(
            needle,
        ));
        assert(vstd::utf8::decode_first_scalar(hay) == vstd::utf8::decode_first_scalar(needle));
        vstd::utf8::char_u32_cast(s[0], s[0] as u32);
        vstd::utf8::char_u32_cast(part[0], part[0] as u32);
        assert(s[0] == part[0]);
        let s_rest = s.drop_first();
        let p_rest = part.drop_first();
        assert(bytes(s_rest) =~= hay.skip(n));
        assert(bytes(p_rest) =~= needle.skip(n));
        assert(bytes(s_rest).take(bytes(p_rest).len() as int) =~= bytes(p_rest));
        lemma_prefix(s_rest, p_rest);
        assert(s.take(part.len() as int) =~= part) by {
            assert forall|i: int| 0 <= i < part.len() implies s[i] == part[i] by {
                if i > 0 {
                    assert(s_rest.take(p_rest.len() as int)[i - 1] == p_rest[i - 1]);
                }
            }
        }
    }
}

/// A byte that is no continuation byte is where a character begins.
proof fn lemma_boundary(s: Seq<char>, p: int) -> (k: int)
    requires
        0 <= p < bytes(s).len(),
        !vstd::utf8::is_continuation_byte(bytes(s)[p]),
    ensures
        0 <= k <= s.len(),
        bytes(s.take(k)).len() == p,
    decreases s.len(),
{
    if p == 0 {
        assert(bytes(s.take(0)) =~= Seq::<u8>::empty());
        0
    } else {
        let first = vstd::utf8::encode_scalar(s[0] as u32);
        lemma_scalar(s[0]);
        if p < first.len() {
            assert(bytes(s)[p] == first[p]);
            assert(false);
            0
        } else {
            let rest = s.drop_first();
            assert(bytes(rest)[p - first.len()] == bytes(s)[p]);
            let k = lemma_boundary(rest, p - first.len());
            let head = s.take(k + 1);
            assert(head.drop_first() =~= rest.take(k));
            assert(bytes(head).len() == p);
            k + 1
        }
    }
}

/// A match of the bytes is a match of the characters.
proof fn lemma_by_character(hay: Seq<char>, needle: Seq<char>, p: int)
    requires
        needle.len() > 0,
        bytes_at(bytes(hay), bytes(needle), p),
    ensures
        occurs(hay, needle),
{
    let low = text::lowered(hay);
    let n = bytes(needle).len() as int;
    lemma_bytes_lowered(hay);
    lemma_scalar(needle[0]);
    assert(bytes(needle)[0] == vstd::utf8::encode_scalar(needle[0] as u32)[0]);
    assert(bytes(low).subrange(p, p + n)[0] == bytes(needle)[0]);
    let k = lemma_boundary(low, p);
    let rest = low.skip(k);
    assert(low =~= low.take(k) + rest);
    lemma_bytes_add(low.take(k), rest);
    assert(bytes(rest) =~= bytes(low).skip(p));
    assert(bytes(rest).take(n) =~= bytes(needle)) by {
        assert(bytes(rest).take(n) =~= bytes(low).subrange(p, p + n));
    }
    lemma_prefix(rest, needle);
    assert(text::lowered(hay.subrange(k, k + needle.len())) =~= needle) by {
        assert forall|i: int| 0 <= i < needle.len() implies low[k + i] == needle[i] by {
            assert(rest.take(needle.len() as int)[i] == needle[i]);
        }
    }
    assert(occurs_at(hay, needle, k));
}

/// A match of the characters is a match of the bytes.
proof fn lemma_by_byte(hay: Seq<char>, needle: Seq<char>, k: int)
    requires
        occurs_at(hay, needle, k),
    ensures
        bytes_at(bytes(hay), bytes(needle), bytes(hay.take(k)).len() as int),
{
    let low = text::lowered(hay);
    let before = low.take(k);
    let rest = low.skip(k + needle.len());
    let p = bytes(hay.take(k)).len() as int;
    lemma_bytes_lowered(hay);
    lemma_bytes_lowered(hay.take(k));
    assert(before =~= text::lowered(hay.take(k)));
    assert(bytes(before).len() == p);
    assert(low.subrange(k, k + needle.len()) =~= needle) by {
        assert(low.subrange(k, k + needle.len()) =~= text::lowered(
            hay.subrange(k, k + needle.len()),
        ));
    }
    assert(low =~= before + (needle + rest));
    lemma_bytes_add(before, needle + rest);
    lemma_bytes_add(needle, rest);
    assert(bytes(low).len() == bytes(hay).len());
    assert(bytes(low).subrange(p, p + bytes(needle).len()) =~= bytes(needle));
}

fn to_lower_byte(b: u8) -> (r: u8)
    ensures
        r == lower_byte(b),
{
    if b >= 0x41 && b <= 0x5a {
        b + 32
    } else {
        b
    }
}

/// Whether the bytes of `needle` stand at `at` in `hay`, whatever the case there.
fn matches_at(hay: &[u8], needle: &[u8], at: usize) -> (r: bool)
    requires
        at + needle@.len() <= hay@.len(),
    ensures
        r == bytes_at(hay@, needle@, at as int),
{
    let ghost window = lowered_bytes(hay@).subrange(at as int, at + needle@.len());
    let mut j: usize = 0;
    while j < needle.len()
        invariant
            j <= needle@.len(),
            at + needle@.len() <= hay.len(),
            window == lowered_bytes(hay@).subrange(at as int, at + needle@.len()),
            forall|i: int| 0 <= i < j ==> window[i] == needle@[i],
        decreases needle@.len() - j,
    {
        assert(window[j as int] == lower_byte(hay@[at + j]));
        if to_lower_byte(hay[at + j]) != needle[j] {
            return false;
        }
        j += 1;
    }
    assert(window =~= needle@);
    true
}

/// Whether `needle_lower` occurs in `haystack`, ASCII case aside.
pub fn contains_ignore_case(haystack: &str, needle_lower: &str) -> (r: bool)
    ensures
        r == occurs(haystack@, needle_lower@),
{
    let hay = haystack.as_bytes();
    let needle = needle_lower.as_bytes();
    if needle_lower.is_empty() {
        assert(needle_lower@.len() == 0);
        assert(text::lowered(haystack@.subrange(0, 0)) =~= needle_lower@);
        assert(occurs_at(haystack@, needle_lower@, 0));
        return true;
    }
    proof {
        assert(needle_lower@.len() > 0);
        if occurs(haystack@, needle_lower@) {
            let k = choose|k: int| #[trigger] occurs_at(haystack@, needle_lower@, k);
            lemma_by_byte(haystack@, needle_lower@, k);
        }
    }
    if needle.len() > hay.len() {
        return false;
    }
    let last_start = hay.len() - needle.len();
    let mut index: usize = 0;
    while index <= last_start
        invariant
            index <= last_start + 1,
            last_start + needle@.len() == hay@.len(),
            hay@.len() <= usize::MAX,
            needle@.len() > 0,
            needle_lower@.len() > 0,
            hay@ == bytes(haystack@),
            needle@ == bytes(needle_lower@),
            forall|p: int| 0 <= p < index ==> !bytes_at(hay@, needle@, p),
        decreases last_start + 1 - index,
    {
        if matches_at(hay, needle, index) {
            proof {
                lemma_by_character(haystack@, needle_lower@, index as int);
            }
            return true;
        }
        index += 1;
    }
    proof {
        if occurs(haystack@, needle_lower@) {
            let k = choose|k: int| #[trigger] occurs_at(haystack@, needle_lower@, k);
            lemma_by_byte(haystack@, needle_lower@, k);
            assert(bytes_at(hay@, needle@, bytes(haystack@.take(k)).len() as int));
        }
    }
    false
}

/// Whether a character is another one but for its case, the second being in lower case.
pub open spec fn same_letter(c: char, lower: char) -> bool {
    c == lower || (65 <= c as int <= 90 && lower as int == c as int + 32)
}

/// Whether all the characters of a word stand one after the other from a place on, in
/// either case.
pub open spec fn stands_at(hay: Seq<char>, word: Seq<char>, i: int) -> bool {
    0 <= i <= hay.len() - word.len() && forall|k: int|
        0 <= k < word.len() ==> same_letter(hay[i + k], #[trigger] word[k])
}

/// A word in lower case is found exactly where all its characters stand one after the
/// other, in either case.
pub proof fn law_what_is_found_stands_there(hay: Seq<char>, word: Seq<char>)
    requires
        text::lowered(word) == word,
    ensures
        occurs(hay, word) <==> exists|i: int| stands_at(hay, word, i),
        word.len() > hay.len() ==> !occurs(hay, word),
{
    assert forall|i: int| #[trigger] occurs_at(hay, word, i) <==> stands_at(hay, word, i) by {
        let part = hay.subrange(i, i + word.len());
        if occurs_at(hay, word, i) {
            assert forall|k: int| 0 <= k < word.len() implies same_letter(
                hay[i + k],
                #[trigger] word[k],
            ) by {
                text::law_case(part, k);
                assert(part[k] == hay[i + k]);
                assert(text::lowered(part)[k] == word[k]);
            }
        }
        if stands_at(hay, word, i) {
            assert forall|k: int| 0 <= k < word.len() implies text::lowered(part)[k] == word[k] by {
                text::law_case(part, k);
                text::law_case(word, k);
                assert(part[k] == hay[i + k]);
                assert(same_letter(hay[i + k], word[k]));
            }
            assert(text::lowered(part) =~= word);
        }
    }
    if exists|i: int| stands_at(hay, word, i) {
        let i = choose|i: int| stands_at(hay, word, i);
        assert(occurs_at(hay, word, i));
    }
}

} // verus!
