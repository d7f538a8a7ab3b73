//! Strings as sequences of characters: the small operations everything else is
//! written in, each stated over `Seq<char>`.

use vstd::prelude::*;

verus! {

/// `String::push` appends one character at the end of the string.
pub assume_specification[ String::push ](s: &mut String, c: char)
    ensures
        final(s)@ == old(s)@.push(c),
;

/// `==` between two string slices holds exactly when both spell the same
/// characters in the same order.
pub assume_specification[ <str as PartialEq>::eq ](a: &str, b: &str) -> (same: bool)
    ensures
        same == (a@ == b@),
;

// ------------------------------------------------------------------ characters

/// The Unicode `White_Space` property, which is what trimming goes by.
pub open spec fn is_white(c: char) -> bool {
    ||| '\u{9}' <= c && c <= '\u{d}'
    ||| c == ' '
    ||| c == '\u{85}'
    ||| c == '\u{a0}'
    ||| c == '\u{1680}'
    ||| '\u{2000}' <= c && c <= '\u{200a}'
    ||| c == '\u{2028}'
    ||| c == '\u{2029}'
    ||| c == '\u{202f}'
    ||| c == '\u{205f}'
    ||| c == '\u{3000}'
}

pub fn white(c: char) -> (r: bool)
    ensures
        r == is_white(c),
{
    ('\u{9}' <= c && c <= '\u{d}') || c == ' ' || c == '\u{85}' || c == '\u{a0}' || c == '\u{1680}'
        || ('\u{2000}' <= c && c <= '\u{200a}') || c == '\u{2028}' || c == '\u{2029}' || c
        == '\u{202f}' || c == '\u{205f}' || c == '\u{3000}'
}

/// The decimal digit for `d`, `d < 10`.
pub open spec fn digit(d: nat) -> char {
    if d == 0 {
        '0'
    } else if d == 1 {
        '1'
    } else if d == 2 {
        '2'
    } else if d == 3 {
        '3'
    } else if d == 4 {
        '4'
    } else if d == 5 {
        '5'
    } else if d == 6 {
        '6'
    } else if d == 7 {
        '7'
    } else if d == 8 {
        '8'
    } else {
        '9'
    }
}

pub fn digit_char(d: u64) -> (c: char)
    requires
        d < 10,
    ensures
        c == digit(d as nat),
{
    if d == 0 {
        '0'
    } else if d == 1 {
        '1'
    } else if d == 2 {
        '2'
    } else if d == 3 {
        '3'
    } else if d == 4 {
        '4'
    } else if d == 5 {
        '5'
    } else if d == 6 {
        '6'
    } else if d == 7 {
        '7'
    } else if d == 8 {
        '8'
    } else {
        '9'
    }
}

/// What a decimal digit stands for; `None` for any other character.
pub open spec fn digit_value(c: char) -> Option<nat> {
    if '0' <= c && c <= '9' {
        Some((c as nat - '0' as nat) as nat)
    } else {
        None
    }
}

/// ASCII upper case becomes lower case, everything else is left alone.
pub open spec fn lower_char(c: char) -> char {
    if 'A' <= c && c <= 'Z' {
        (c as u32 + 32) as char
    } else {
        c
    }
}

/// ASCII lower case becomes upper case, everything else is left alone.
pub open spec fn upper_char(c: char) -> char {
    if 'a' <= c && c <= 'z' {
        (c as u32 - 32) as char
    } else {
        c
    }
}

pub open spec fn lowered(s: Seq<char>) -> Seq<char> {
    Seq::new(s.len(), |i: int| lower_char(s[i]))
}

pub open spec fn uppered(s: Seq<char>) -> Seq<char> {
    Seq::new(s.len(), |i: int| upper_char(s[i]))
}

pub fn to_lower_char(c: char) -> (r: char)
    ensures
        r == lower_char(c),
{
    if 'A' <= c && c <= 'Z' {
        (c as u8 + 32) as char
    } else {
        c
    }
}

pub fn to_upper_char(c: char) -> (r: char)
    ensures
        r == upper_char(c),
{
    if 'a' <= c && c <= 'z' {
        (c as u8 - 32) as char
    } else {
        c
    }
}

// --------------------------------------------------------------------- strings

/// The characters of a string.
pub fn chars_of(s: &str) -> (chars: Vec<char>)
    ensures
        chars@ == s@,
{
    let mut chars: Vec<char> = Vec::new();
    for c in it: s.chars()
        invariant
            chars@ == it.seq().take(it.index() as int),
            it.seq() == s@,
    {
        chars.push(c);
    }
    chars
}

/// The string spelled by `chars[from..to]`.
pub fn string_of(chars: &Vec<char>, from: usize, to: usize) -> (s: String)
    requires
        from <= to <= chars@.len(),
    ensures
        s@ == chars@.subrange(from as int, to as int),
{
    let mut s = String::new();
    let mut i: usize = from;
    assert(s@ =~= chars@.subrange(from as int, from as int));
    while i < to
        invariant
            from <= i <= to <= chars@.len(),
            s@ == chars@.subrange(from as int, i as int),
        decreases to - i,
    {
        s.push(chars[i]);
        i += 1;
        assert(s@ =~= chars@.subrange(from as int, i as int));
    }
    s
}

pub fn same_text(a: &str, b: &str) -> (same: bool)
    ensures
        same == (a@ == b@),
{
    *a == *b
}

/// Equality of optional strings, by what they spell.
pub open spec fn opt_view(s: Option<String>) -> Option<Seq<char>> {
    match s {
        Some(text) => Some(text@),
        None => None,
    }
}

/// A copy that spells the same thing.
pub fn copy_opt(s: &Option<String>) -> (r: Option<String>)
    ensures
        opt_view(r) == opt_view(*s),
{
    match s {
        Some(text) => Some(text.clone()),
        None => None,
    }
}

/// What each string of a list spells.
pub open spec fn views(list: Seq<String>) -> Seq<Seq<char>> {
    Seq::new(list.len(), |i: int| list[i]@)
}

/// One more element, one more thing contained.
pub proof fn lemma_take_contains(list: Seq<Seq<char>>, k: int)
    requires
        0 <= k < list.len(),
    ensures
        forall|s: Seq<char>|
            #[trigger] list.take(k + 1).contains(s) <==> (list.take(k).contains(s) || s == list[k]),
{
    let a = list.take(k);
    let b = list.take(k + 1);
    assert forall|s: Seq<char>| #[trigger] b.contains(s) <==> (a.contains(s) || s == list[k]) by {
        if b.contains(s) {
            let j = choose|j: int| 0 <= j < b.len() && b[j] == s;
            if j < k {
                assert(a[j] == s);
            }
        }
        if a.contains(s) {
            let j = choose|j: int| 0 <= j < a.len() && a[j] == s;
            assert(b[j] == s);
        }
        if s == list[k] {
            assert(b[k] == s);
        }
    }
}

pub fn to_ascii_lowercase(s: &str) -> (r: String)
    ensures
        r@ == lowered(s@),
{
    let mut r = String::new();
    for c in it: s.chars()
        invariant
            r@ == lowered(it.seq().take(it.index() as int)),
            it.seq() == s@,
    {
        let ghost done = it.seq().take(it.index() as int);
        r.push(to_lower_char(c));
        assert(r@ =~= lowered(done.push(c)));
        assert(done.push(c) =~= it.seq().take(it.index() as int + 1));
    }
    assert(s@.take(s@.len() as int) =~= s@);
    r
}

pub fn to_ascii_uppercase(s: &str) -> (r: String)
    ensures
        r@ == uppered(s@),
{
    let mut r = String::new();
    for c in it: s.chars()
        invariant
            r@ == uppered(it.seq().take(it.index() as int)),
            it.seq() == s@,
    {
        let ghost done = it.seq().take(it.index() as int);
        r.push(to_upper_char(c));
        assert(r@ =~= uppered(done.push(c)));
        assert(done.push(c) =~= it.seq().take(it.index() as int + 1));
    }
    assert(s@.take(s@.len() as int) =~= s@);
    r
}

/// `s` without the white space at either end.
pub open spec fn trimmed(s: Seq<char>) -> Seq<char>
    decreases s.len(),
{
    if s.len() == 0 {
        s
    } else if is_white(s[0]) {
        trimmed(s.drop_first())
    } else if is_white(s.last()) {
        trimmed(s.drop_last())
    } else {
        s
    }
}

pub fn trim(s: &str) -> (r: String)
    ensures
        r@ == trimmed(s@),
{
    let chars = chars_of(s);
    let mut from: usize = 0;
    let mut to: usize = chars.len();
    assert(chars@.subrange(0, to as int) =~= s@);
    while from < to && white(chars[from])
        invariant
            from <= to == chars@.len(),
            trimmed(chars@.subrange(from as int, to as int)) == trimmed(s@),
        decreases to - from,
    {
        assert(chars@.subrange(from as int, to as int).drop_first() =~= chars@.subrange(
            from as int + 1,
            to as int,
        ));
        from += 1;
    }
    while from < to && white(chars[to - 1])
        invariant
            from <= to <= chars@.len(),
            from < to ==> !is_white(chars@[from as int]),
            trimmed(chars@.subrange(from as int, to as int)) == trimmed(s@),
        decreases to - from,
    {
        assert(chars@.subrange(from as int, to as int).drop_last() =~= chars@.subrange(
            from as int,
            to as int - 1,
        ));
        to -= 1;
    }
    string_of(&chars, from, to)
}

/// A text with something at both ends is not trimmed any further.
pub proof fn lemma_trimmed_whole(s: Seq<char>)
    requires
        s.len() > 0 ==> !is_white(s[0]) && !is_white(s.last()),
    ensures
        trimmed(s) == s,
{
}

/// What was trimmed has nothing left to trim.
pub proof fn lemma_trimmed_twice(s: Seq<char>)
    ensures
        trimmed(trimmed(s)) == trimmed(s),
    decreases s.len(),
{
    if s.len() > 0 {
        if is_white(s[0]) {
            lemma_trimmed_twice(s.drop_first());
        } else if is_white(s.last()) {
            lemma_trimmed_twice(s.drop_last());
        }
    }
}

/// White space around a text is trimmed away.
pub proof fn lemma_trimmed_padding(before: Seq<char>, s: Seq<char>, after: Seq<char>)
    requires
        forall|i: int| 0 <= i < before.len() ==> is_white(#[trigger] before[i]),
        forall|i: int| 0 <= i < after.len() ==> is_white(#[trigger] after[i]),
    ensures
        trimmed(before + s + after) == trimmed(s),
    decreases before.len() + s.len() + after.len(),
{
    let all = before + s + after;
    if before.len() > 0 {
        let rest = before.drop_first();
        assert(all[0] == before[0]);
        assert(all.drop_first() =~= rest + s + after);
        assert forall|i: int| 0 <= i < rest.len() implies is_white(#[trigger] rest[i]) by {
            assert(rest[i] == before[i + 1]);
        }
        lemma_trimmed_padding(rest, s, after);
    } else if after.len() > 0 {
        let rest = after.drop_last();
        assert(all.last() == after.last());
        if s.len() > 0 && !is_white(s[0]) {
            assert(all[0] == s[0]);
            assert(all.drop_last() =~= before + s + rest);
            lemma_trimmed_padding(before, s, rest);
        } else if s.len() > 0 {
            assert(all[0] == s[0]);
            assert(all.drop_first() =~= before + s.drop_first() + after);
            lemma_trimmed_padding(before, s.drop_first(), after);
        } else {
            assert(all[0] == after[0]);
            let tail = after.drop_first();
            assert(all.drop_first() =~= before + s + tail);
            assert forall|i: int| 0 <= i < tail.len() implies is_white(#[trigger] tail[i]) by {
                assert(tail[i] == after[i + 1]);
            }
            lemma_trimmed_padding(before, s, tail);
        }
    } else {
        assert(all =~= s);
    }
}

/// No letter is white space, so trimming and lowering can change places.
pub proof fn lemma_trimmed_lowered(s: Seq<char>)
    ensures
        trimmed(lowered(s)) == lowered(trimmed(s)),
    decreases s.len(),
{
    let low = lowered(s);
    if s.len() > 0 {
        assert(is_white(low[0]) == is_white(s[0]));
        assert(is_white(low.last()) == is_white(s.last()));
        if is_white(s[0]) {
            assert(low.drop_first() =~= lowered(s.drop_first()));
            lemma_trimmed_lowered(s.drop_first());
        } else if is_white(s.last()) {
            assert(low.drop_last() =~= lowered(s.drop_last()));
            lemma_trimmed_lowered(s.drop_last());
        }
    }
}

/// Lowering what is lower case already changes nothing.
pub proof fn lemma_lowered_twice(s: Seq<char>)
    ensures
        lowered(lowered(s)) == lowered(s),
{
    assert(lowered(lowered(s)) =~= lowered(s));
}

// --------------------------------------------------------------------- numbers

/// `n` in decimal, without leading zeros.
pub open spec fn decimal(n: nat) -> Seq<char>
    decreases n,
{
    if n < 10 {
        seq![digit(n)]
    } else {
        decimal(n / 10).push(digit(n % 10))
    }
}

/// `s` with zeros put in front until it is `width` long.
pub open spec fn zero_padded(s: Seq<char>, width: nat) -> Seq<char> {
    if s.len() >= width {
        s
    } else {
        Seq::new((width - s.len()) as nat, |i: int| '0') + s
    }
}

/// Appends `n` in decimal.
pub fn push_decimal(out: &mut String, n: u64)
    ensures
        final(out)@ == old(out)@ + decimal(n as nat),
    decreases n,
{
    if n < 10 {
        out.push(digit_char(n));
        assert(out@ =~= old(out)@ + decimal(n as nat));
    } else {
        push_decimal(out, n / 10);
        out.push(digit_char(n % 10));
        assert(out@ =~= old(out)@ + decimal(n as nat));
    }
}

pub fn decimal_text(n: u64) -> (s: String)
    ensures
        s@ == decimal(n as nat),
{
    let mut s = String::new();
    push_decimal(&mut s, n);
    assert(s@ =~= decimal(n as nat));
    s
}

/// Appends `n` in decimal, padded with zeros to `width`.
pub fn push_padded(out: &mut String, n: u64, width: usize)
    ensures
        final(out)@ == old(out)@ + zero_padded(decimal(n as nat), width as nat),
{
    let text = decimal_text(n);
    let chars = chars_of(&text);
    let mut i: usize = chars.len();
    let ghost zeros = Seq::new(0nat, |i: int| '0');
    assert(out@ =~= old(out)@ + zeros);
    while i < width
        invariant
            chars@.len() <= i,
            i <= width || i == chars@.len(),
            zeros =~= Seq::new((i - chars@.len()) as nat, |i: int| '0'),
            out@ =~= old(out)@ + zeros,
        decreases width - i,
    {
        out.push('0');
        proof {
            zeros = zeros.push('0');
        }
        i += 1;
    }
    out.append(text.as_str());
    assert(out@ =~= old(out)@ + zero_padded(decimal(n as nat), width as nat));
}

/// The value of a run of decimal digits, read left to right; `None` when it is
/// empty or holds anything else.
pub open spec fn digits_value(s: Seq<char>) -> Option<nat>
    decreases s.len(),
{
    if s.len() == 0 {
        None
    } else if s.len() == 1 {
        digit_value(s[0])
    } else {
        match (digits_value(s.drop_last()), digit_value(s.last())) {
            (Some(head), Some(d)) => Some(head * 10 + d),
            _ => None,
        }
    }
}

/// An unsigned number as a person types it: decimal digits, after an optional
/// `+`, no larger than `max`.
pub open spec fn parsed_number(s: Seq<char>, max: nat) -> Option<nat> {
    let digits = if s.len() > 0 && s[0] == '+' {
        s.drop_first()
    } else {
        s
    };
    match digits_value(digits) {
        Some(n) => if n <= max {
            Some(n)
        } else {
            None
        },
        None => None,
    }
}

/// A prefix of a number is not larger than the number.
proof fn lemma_prefix_value(s: Seq<char>, k: int)
    requires
        0 < k <= s.len(),
        digits_value(s) is Some,
    ensures
        digits_value(s.take(k)) is Some,
        digits_value(s.take(k))->0 <= digits_value(s)->0,
    decreases s.len() - k,
{
    if k < s.len() {
        assert(s.drop_last().take(k) =~= s.take(k));
        if s.len() - 1 == k {
            assert(s.take(k) =~= s.drop_last());
        } else {
            lemma_prefix_value(s.drop_last(), k);
        }
    } else {
        assert(s.take(k) =~= s);
    }
}

/// Parses what `parsed_number` describes, for any bound a `u64` can hold.
pub fn parse_number(s: &str, max: u64) -> (r: Option<u64>)
    ensures
        r is Some <==> parsed_number(s@, max as nat) is Some,
        r matches Some(n) ==> parsed_number(s@, max as nat) == Some(n as nat),
{
    let chars = chars_of(s);
    let mut i: usize = 0;
    if chars.len() > 0 && chars[0] == '+' {
        i = 1;
    }
    let ghost start = i as int;
    let ghost digits = chars@.subrange(start, chars@.len() as int);
    assert(digits =~= if s@.len() > 0 && s@[0] == '+' {
        s@.drop_first()
    } else {
        s@
    });
    if i >= chars.len() {
        return None;
    }
    let mut value: u64 = 0;
    while i < chars.len()
        invariant
            0 <= start <= i <= chars@.len(),
            start < chars@.len(),
            digits == chars@.subrange(start, chars@.len() as int),
            digits == (if s@.len() > 0 && s@[0] == '+' {
                s@.drop_first()
            } else {
                s@
            }),
            value <= max,
            i == start ==> value == 0,
            i > start ==> digits_value(digits.take(i - start)) == Some(value as nat),
        decreases chars@.len() - i,
    {
        let c = chars[i];
        let ghost upto = digits.take(i - start + 1);
        assert(upto.drop_last() =~= digits.take(i - start));
        assert(upto.last() == c);
        if c < '0' || c > '9' {
            proof {
                if digits_value(digits) is Some {
                    lemma_prefix_value(digits, i - start + 1);
                }
            }
            return None;
        }
        let d: u64 = c as u64 - '0' as u64;
        assert(digits_value(upto) == Some((value * 10 + d) as nat));
        if value > max / 10 || (value == max / 10 && d > max % 10) {
            proof {
                assert(value * 10 + d > max);
                if digits_value(digits) is Some {
                    lemma_prefix_value(digits, i - start + 1);
                }
            }
            return None;
        }
        value = value * 10 + d;
        i += 1;
    }
    assert(digits.take(i - start) =~= digits);
    Some(value)
}

/// What `decimal` writes, `parsed_number` reads back.
pub proof fn lemma_decimal_value(n: nat)
    ensures
        digits_value(decimal(n)) == Some(n),
        decimal(n).len() > 0,
        decimal(n)[0] != '+',
        forall|i: int|
            0 <= i < decimal(n).len() ==> '0' <= #[trigger] decimal(n)[i] && decimal(n)[i] <= '9',
    decreases n,
{
    if n >= 10 {
        lemma_decimal_value(n / 10);
        assert(decimal(n).drop_last() =~= decimal(n / 10));
        assert(decimal(n)[0] == decimal(n / 10)[0]);
    }
}

/// A number that fits is read back from its own decimal text.
pub proof fn law_number_round_trip(n: nat, max: nat)
    requires
        n <= max,
    ensures
        parsed_number(decimal(n), max) == Some(n),
{
    lemma_decimal_value(n);
}

// ----------------------------------------------------------------------- lines

/// Where the first `mark` stands in `s`, or the length of `s` when there is none.
pub open spec fn first_at(s: Seq<char>, mark: char) -> int
    decreases s.len(),
{
    if s.len() == 0 || s[0] == mark {
        0
    } else {
        1 + first_at(s.drop_first(), mark)
    }
}

pub proof fn lemma_first_at(s: Seq<char>, mark: char)
    ensures
        0 <= first_at(s, mark) <= s.len(),
        first_at(s, mark) < s.len() ==> s[first_at(s, mark)] == mark,
        forall|i: int| 0 <= i < first_at(s, mark) ==> s[i] != mark,
    decreases s.len(),
{
    if s.len() > 0 && s[0] != mark {
        let rest = s.drop_first();
        lemma_first_at(rest, mark);
        assert forall|i: int| 0 <= i < first_at(s, mark) implies s[i] != mark by {
            if i > 0 {
                assert(s[i] == rest[i - 1]);
            }
        }
    }
}

proof fn lemma_first_at_is(s: Seq<char>, mark: char, k: int)
    requires
        0 <= k <= s.len(),
        k < s.len() ==> s[k] == mark,
        forall|i: int| 0 <= i < k ==> s[i] != mark,
    ensures
        first_at(s, mark) == k,
{
    lemma_first_at(s, mark);
}

/// The pieces of `s` between the `mark`s: always one more than there are marks.
pub open spec fn split_at_marks(s: Seq<char>, mark: char) -> Seq<Seq<char>>
    decreases s.len(),
{
    let k = first_at(s, mark);
    if 0 <= k < s.len() {
        seq![s.take(k)] + split_at_marks(s.skip(k + 1), mark)
    } else {
        seq![s]
    }
}

/// `s` without the carriage return it ends in, if it ends in one.
pub open spec fn without_cr(s: Seq<char>) -> Seq<char> {
    if s.len() > 0 && s.last() == '\r' {
        s.drop_last()
    } else {
        s
    }
}

/// The lines of a text. A line ends in `\n` or `\r\n`, which are not part of it;
/// a text that ends in a line ending has no empty line after it, and a carriage
/// return that no `\n` follows belongs to its line.
pub open spec fn lines_of(s: Seq<char>) -> Seq<Seq<char>>
    decreases s.len(),
{
    let k = first_at(s, '\n');
    if s.len() == 0 {
        Seq::empty()
    } else if 0 <= k < s.len() {
        seq![without_cr(s.take(k))] + lines_of(s.skip(k + 1))
    } else {
        seq![s]
    }
}

pub fn lines(s: &str) -> (r: Vec<String>)
    ensures
        views(r@) == lines_of(s@),
{
    let chars = chars_of(s);
    let mut r: Vec<String> = Vec::new();
    let mut from: usize = 0;
    let mut i: usize = 0;
    assert(chars@.skip(0) =~= s@);
    assert(views(r@) =~= Seq::<Seq<char>>::empty());
    while i < chars.len()
        invariant
            from <= i <= chars@.len(),
            chars@ == s@,
            forall|j: int| from <= j < i ==> chars@[j] != '\n',
            views(r@) + lines_of(chars@.skip(from as int)) =~= lines_of(s@),
        decreases chars@.len() - i,
    {
        if chars[i] == '\n' {
            let ghost rest = chars@.skip(from as int);
            let ghost k = (i - from) as int;
            proof {
                lemma_first_at_is(rest, '\n', k);
                assert(rest.take(k) =~= chars@.subrange(from as int, i as int));
                assert(rest.skip(k + 1) =~= chars@.skip(i as int + 1));
            }
            let mut to: usize = i;
            if from < i && chars[i - 1] == '\r' {
                to = i - 1;
            }
            let line = string_of(&chars, from, to);
            assert(line@ =~= without_cr(rest.take(k)));
            let ghost before = r@;
            r.push(line);
            assert(views(r@) =~= views(before).push(line@));
            from = i + 1;
        }
        i += 1;
    }
    let ghost rest = chars@.skip(from as int);
    proof {
        lemma_first_at_is(rest, '\n', rest.len() as int);
    }
    if from < chars.len() {
        let line = string_of(&chars, from, chars.len());
        assert(line@ =~= rest);
        let ghost before = r@;
        r.push(line);
        assert(views(r@) =~= views(before).push(line@));
    }
    assert(views(r@) =~= lines_of(s@));
    r
}

/// The pieces of `s` between the `mark`s.
pub fn split(s: &str, mark: char) -> (r: Vec<String>)
    ensures
        views(r@) == split_at_marks(s@, mark),
        r@.len() > 0,
{
    let chars = chars_of(s);
    let mut r: Vec<String> = Vec::new();
    let mut from: usize = 0;
    let mut i: usize = 0;
    assert(chars@.skip(0) =~= s@);
    assert(views(r@) =~= Seq::<Seq<char>>::empty());
    while i < chars.len()
        invariant
            from <= i <= chars@.len(),
            chars@ == s@,
            forall|j: int| from <= j < i ==> chars@[j] != mark,
            views(r@) + split_at_marks(chars@.skip(from as int), mark) =~= split_at_marks(s@, mark),
        decreases chars@.len() - i,
    {
        if chars[i] == mark {
            let ghost rest = chars@.skip(from as int);
            let ghost k = (i - from) as int;
            proof {
                lemma_first_at_is(rest, mark, k);
                assert(rest.take(k) =~= chars@.subrange(from as int, i as int));
                assert(rest.skip(k + 1) =~= chars@.skip(i as int + 1));
            }
            let piece = string_of(&chars, from, i);
            let ghost before = r@;
            r.push(piece);
            assert(views(r@) =~= views(before).push(piece@));
            from = i + 1;
        }
        i += 1;
    }
    let ghost rest = chars@.skip(from as int);
    proof {
        lemma_first_at_is(rest, mark, rest.len() as int);
    }
    let piece = string_of(&chars, from, chars.len());
    assert(piece@ =~= rest);
    let ghost before = r@;
    r.push(piece);
    assert(views(r@) =~= views(before).push(piece@));
    r
}

/// The pieces with `mark` between them.
pub open spec fn joined(pieces: Seq<Seq<char>>, mark: char) -> Seq<char>
    decreases pieces.len(),
{
    if pieces.len() == 0 {
        Seq::empty()
    } else if pieces.len() == 1 {
        pieces[0]
    } else {
        joined(pieces.drop_last(), mark).push(mark) + pieces.last()
    }
}

pub fn join(pieces: &Vec<String>, mark: char) -> (r: String)
    ensures
        r@ == joined(views(pieces@), mark),
{
    let mut r = String::new();
    let mut i: usize = 0;
    let ghost all = views(pieces@);
    while i < pieces.len()
        invariant
            i <= pieces@.len(),
            all == views(pieces@),
            r@ == joined(all.take(i as int), mark),
        decreases pieces@.len() - i,
    {
        let ghost upto = all.take(i as int + 1);
        assert(upto.drop_last() =~= all.take(i as int));
        let ghost so_far = r@;
        if i > 0 {
            r.push(mark);
        }
        r.append(pieces[i].as_str());
        assert(r@ =~= joined(upto, mark));
        i += 1;
    }
    assert(all.take(i as int) =~= all);
    r
}

// ---------------------------------------------------------------- parts of text

pub open spec fn starts_with(s: Seq<char>, prefix: Seq<char>) -> bool {
    prefix.len() <= s.len() && s.take(prefix.len() as int) == prefix
}

pub open spec fn ends_with(s: Seq<char>, suffix: Seq<char>) -> bool {
    suffix.len() <= s.len() && s.skip(s.len() - suffix.len()) == suffix
}

/// Whether `chars[from..]` begins with `part`.
pub fn holds_at(chars: &Vec<char>, from: usize, part: &Vec<char>) -> (r: bool)
    requires
        from <= chars@.len(),
    ensures
        r == (from + part@.len() <= chars@.len() && chars@.subrange(
            from as int,
            from + part@.len(),
        ) == part@),
{
    if chars.len() - from < part.len() {
        return false;
    }
    let mut i: usize = 0;
    while i < part.len()
        invariant
            i <= part@.len(),
            from + part@.len() <= chars.len(),
            forall|j: int| 0 <= j < i ==> chars@[from + j] == part@[j],
        decreases part@.len() - i,
    {
        if chars[from + i] != part[i] {
            assert(chars@.subrange(from as int, from + part@.len())[i as int] != part@[i as int]);
            return false;
        }
        i += 1;
    }
    assert(chars@.subrange(from as int, from + part@.len()) =~= part@);
    true
}

/// What is left of `s` after `prefix`, if it begins with it.
pub fn strip_prefix(s: &str, prefix: &str) -> (r: Option<String>)
    ensures
        r is Some <==> starts_with(s@, prefix@),
        r matches Some(rest) ==> rest@ == s@.skip(prefix@.len() as int),
{
    let chars = chars_of(s);
    let part = chars_of(prefix);
    if holds_at(&chars, 0, &part) {
        assert(s@.take(prefix@.len() as int) =~= chars@.subrange(0, part@.len() as int));
        let rest = string_of(&chars, part.len(), chars.len());
        assert(rest@ =~= s@.skip(prefix@.len() as int));
        Some(rest)
    } else {
        assert(prefix@.len() <= s@.len() ==> s@.take(prefix@.len() as int) =~= chars@.subrange(
            0,
            part@.len() as int,
        ));
        None
    }
}

/// What is left of `s` before `suffix`, if it ends with it.
pub fn strip_suffix(s: &str, suffix: &str) -> (r: Option<String>)
    ensures
        r is Some <==> ends_with(s@, suffix@),
        r matches Some(rest) ==> rest@ == s@.take(s@.len() - suffix@.len()),
{
    let chars = chars_of(s);
    let part = chars_of(suffix);
    if chars.len() < part.len() {
        return None;
    }
    let from = chars.len() - part.len();
    assert(s@.skip(from as int) =~= chars@.subrange(from as int, from + part@.len()));
    if holds_at(&chars, from, &part) {
        let rest = string_of(&chars, 0, from);
        assert(rest@ =~= s@.take(s@.len() - suffix@.len()));
        Some(rest)
    } else {
        None
    }
}

/// Dictionary order by character: the order strings compare in.
pub open spec fn text_less(a: Seq<char>, b: Seq<char>) -> bool
    decreases a.len(),
{
    if b.len() == 0 {
        false
    } else if a.len() == 0 {
        true
    } else if a[0] == b[0] {
        text_less(a.drop_first(), b.drop_first())
    } else {
        a[0] < b[0]
    }
}

pub fn less(a: &str, b: &str) -> (r: bool)
    ensures
        r == text_less(a@, b@),
{
    let left = chars_of(a);
    let right = chars_of(b);
    let mut i: usize = 0;
    assert(left@.skip(0) =~= a@);
    assert(right@.skip(0) =~= b@);
    while i < left.len() && i < right.len() && left[i] == right[i]
        invariant
            i <= left@.len(),
            i <= right@.len(),
            text_less(left@.skip(i as int), right@.skip(i as int)) == text_less(a@, b@),
        decreases left@.len() - i,
    {
        assert(left@.skip(i as int).drop_first() =~= left@.skip(i as int + 1));
        assert(right@.skip(i as int).drop_first() =~= right@.skip(i as int + 1));
        i += 1;
    }
    if i >= right.len() {
        false
    } else if i >= left.len() {
        true
    } else {
        left[i] < right[i]
    }
}

// ------------------------------------------------------------------------- hex

/// The hexadecimal digit for `d`, `d < 16`, letters in the given case.
pub open spec fn hex_digit(d: nat, upper: bool) -> char {
    if d < 10 {
        digit(d)
    } else if d == 10 {
        if upper { 'A' } else { 'a' }
    } else if d == 11 {
        if upper { 'B' } else { 'b' }
    } else if d == 12 {
        if upper { 'C' } else { 'c' }
    } else if d == 13 {
        if upper { 'D' } else { 'd' }
    } else if d == 14 {
        if upper { 'E' } else { 'e' }
    } else {
        if upper { 'F' } else { 'f' }
    }
}

pub fn hex_char(d: u64, upper: bool) -> (c: char)
    requires
        d < 16,
    ensures
        c == hex_digit(d as nat, upper),
{
    if d < 10 {
        digit_char(d)
    } else if d == 10 {
        if upper { 'A' } else { 'a' }
    } else if d == 11 {
        if upper { 'B' } else { 'b' }
    } else if d == 12 {
        if upper { 'C' } else { 'c' }
    } else if d == 13 {
        if upper { 'D' } else { 'd' }
    } else if d == 14 {
        if upper { 'E' } else { 'e' }
    } else {
        if upper { 'F' } else { 'f' }
    }
}

/// `n` in lower case hexadecimal, without leading zeros.
pub open spec fn hex(n: nat) -> Seq<char>
    decreases n,
{
    if n < 16 {
        seq![hex_digit(n, false)]
    } else {
        hex(n / 16).push(hex_digit(n % 16, false))
    }
}

/// Appends `n` in lower case hexadecimal.
pub fn push_hex(out: &mut String, n: u64)
    ensures
        final(out)@ == old(out)@ + hex(n as nat),
    decreases n,
{
    if n < 16 {
        out.push(hex_char(n, false));
        assert(out@ =~= old(out)@ + hex(n as nat));
    } else {
        push_hex(out, n / 16);
        out.push(hex_char(n % 16, false));
        assert(out@ =~= old(out)@ + hex(n as nat));
    }
}

/// Two upper case hexadecimal digits per byte.
pub open spec fn hex_of_bytes(bytes: Seq<u8>) -> Seq<char> {
    Seq::new(
        bytes.len() * 2,
        |i: int|
            hex_digit(
                if i % 2 == 0 {
                    bytes[i / 2] as nat / 16
                } else {
                    bytes[i / 2] as nat % 16
                },
                true,
            ),
    )
}

pub fn hex_text(bytes: &Vec<u8>) -> (s: String)
    ensures
        s@ == hex_of_bytes(bytes@),
{
    let mut s = String::new();
    let mut i: usize = 0;
    while i < bytes.len()
        invariant
            i <= bytes@.len(),
            s@ =~= hex_of_bytes(bytes@.take(i as int)),
        decreases bytes@.len() - i,
    {
        s.push(hex_char((bytes[i] / 16) as u64, true));
        s.push(hex_char((bytes[i] % 16) as u64, true));
        i += 1;
        assert(s@ =~= hex_of_bytes(bytes@.take(i as int)));
    }
    assert(bytes@.take(i as int) =~= bytes@);
    s
}

// -------------------------------------------------------------------- the laws

/// White space by code point: the controls from tab to carriage return, the space,
/// and the other spaces and separators of Unicode.
pub proof fn law_white_space(c: char)
    ensures
        is_white(c) <==> ({
            let n = c as u32;
            ||| 9 <= n <= 13
            ||| n == 32
            ||| n == 0x85
            ||| n == 0xA0
            ||| n == 0x1680
            ||| 0x2000 <= n <= 0x200A
            ||| n == 0x2028
            ||| n == 0x2029
            ||| n == 0x202F
            ||| n == 0x205F
            ||| n == 0x3000
        }),
{
}

/// Whether there is nothing but white space in a text.
#[verifier::opaque]
pub open spec fn blank(s: Seq<char>) -> bool {
    forall|i: int| 0 <= i < s.len() ==> is_white(#[trigger] s[i])
}

proof fn lemma_blank_parts(s: Seq<char>)
    ensures
        s.len() == 0 ==> blank(s),
        s.len() > 0 ==> (blank(s) <==> is_white(s[0]) && blank(s.drop_first())),
        s.len() > 0 ==> (blank(s) <==> is_white(s.last()) && blank(s.drop_last())),
{
    reveal(blank);
    let tail = s.drop_first();
    let head = s.drop_last();
    if s.len() > 0 && blank(s) {
        assert forall|i: int| 0 <= i < tail.len() implies is_white(#[trigger] tail[i]) by {
            assert(tail[i] == s[i + 1]);
        }
        assert forall|i: int| 0 <= i < head.len() implies is_white(#[trigger] head[i]) by {
            assert(head[i] == s[i]);
        }
        assert(is_white(s[0]) && is_white(s[s.len() - 1]));
    }
    if s.len() > 0 && is_white(s[0]) && blank(tail) {
        assert forall|i: int| 0 <= i < s.len() implies is_white(#[trigger] s[i]) by {
            if i > 0 {
                assert(tail[i - 1] == s[i]);
            }
        }
    }
    if s.len() > 0 && is_white(s.last()) && blank(head) {
        assert forall|i: int| 0 <= i < s.len() implies is_white(#[trigger] s[i]) by {
            if i < head.len() {
                assert(head[i] == s[i]);
            }
        }
    }
}

/// Where what is left after trimming begins and ends.
#[verifier::spinoff_prover]
#[verifier::rlimit(40)]
proof fn lemma_trim_bounds(s: Seq<char>) -> (r: (int, int))
    ensures
        0 <= r.0 <= r.1 <= s.len(),
        trimmed(s) == s.subrange(r.0, r.1),
        blank(s.take(r.0)),
        blank(s.skip(r.1)),
        trimmed(s).len() == 0 <==> blank(s),
    decreases s.len(),
{
    lemma_blank_parts(s);
    if s.len() == 0 {
        assert(s.take(0) =~= s && s.skip(0) =~= s && s.subrange(0, 0) =~= s);
        (0, 0)
    } else if is_white(s[0]) {
        let rest = s.drop_first();
        let (a, b) = lemma_trim_bounds(rest);
        assert(rest.subrange(a, b) =~= s.subrange(a + 1, b + 1));
        lemma_blank_parts(s.take(a + 1));
        assert(s.take(a + 1).drop_first() =~= rest.take(a));
        assert(s.skip(b + 1) =~= rest.skip(b));
        (a + 1, b + 1)
    } else if is_white(s.last()) {
        let rest = s.drop_last();
        let (a, b) = lemma_trim_bounds(rest);
        lemma_blank_parts(rest);
        assert(rest[0] == s[0]);
        assert(rest.subrange(a, b) =~= s.subrange(a, b));
        assert(s.take(a) =~= rest.take(a));
        lemma_blank_parts(s.skip(b));
        assert(s.skip(b).drop_last() =~= rest.skip(b));
        (a, b)
    } else {
        assert(s =~= s.subrange(0, s.len() as int));
        lemma_blank_parts(s.take(0));
        lemma_blank_parts(s.skip(s.len() as int));
        (0, s.len() as int)
    }
}

proof fn lemma_trimmed_ends(s: Seq<char>)
    ensures
        trimmed(s).len() > 0 ==> !is_white(trimmed(s)[0]) && !is_white(trimmed(s).last()),
    decreases s.len(),
{
    if s.len() > 0 {
        if is_white(s[0]) {
            lemma_trimmed_ends(s.drop_first());
        } else if is_white(s.last()) {
            lemma_trimmed_ends(s.drop_last());
        }
    }
}

/// Trimming takes white space off both ends, all of it and nothing else.
pub proof fn law_trimming(s: Seq<char>)
    ensures
        exists|a: int, b: int|
            0 <= a <= b <= s.len() && trimmed(s) == #[trigger] s.subrange(a, b) && blank(
                s.take(a),
            ) && blank(s.skip(b)),
        trimmed(s).len() > 0 ==> !is_white(trimmed(s)[0]) && !is_white(trimmed(s).last()),
        trimmed(s).len() == 0 <==> blank(s),
{
    let (a, b) = lemma_trim_bounds(s);
    lemma_trimmed_ends(s);
}

/// The number that characters are the decimal digits of, by their codes.
pub open spec fn read_decimal(s: Seq<char>) -> int
    decreases s.len(),
{
    if s.len() == 0 {
        0
    } else {
        read_decimal(s.drop_last()) * 10 + (s.last() as int - 48)
    }
}

/// Whether there are digits and nothing else.
pub open spec fn all_digits(s: Seq<char>) -> bool {
    s.len() > 0 && forall|i: int| 0 <= i < s.len() ==> 48 <= (#[trigger] s[i]) as int <= 57
}

/// A number is written as its decimal digits, highest first, without leading zeros.
pub proof fn law_decimal_spells_the_number(n: nat)
    ensures
        all_digits(decimal(n)),
        decimal(n).len() > 1 ==> decimal(n)[0] != '0',
        read_decimal(decimal(n)) == n,
    decreases n,
{
    let s = decimal(n);
    if n < 10 {
        assert(s.drop_last() =~= Seq::empty());
        assert(read_decimal(s.drop_last()) == 0);
    } else {
        law_decimal_spells_the_number(n / 10);
        assert(s.drop_last() =~= decimal(n / 10));
        assert(s[0] == decimal(n / 10)[0]);
        assert forall|i: int| 0 <= i < s.len() implies 48 <= (#[trigger] s[i]) as int <= 57 by {
            if i < s.len() - 1 {
                assert(s[i] == decimal(n / 10)[i]);
            }
        }
        if decimal(n / 10).len() == 1 {
            let head = decimal(n / 10);
            assert(head.drop_last() =~= Seq::empty());
            assert(read_decimal(head.drop_last()) == 0);
            assert(read_decimal(head) == head[0] as int - 48);
        }
    }
}

proof fn lemma_digits_value_reads(s: Seq<char>)
    ensures
        digits_value(s) is Some <==> all_digits(s),
        digits_value(s) matches Some(n) ==> n == read_decimal(s),
    decreases s.len(),
{
    if s.len() == 1 {
        assert(s.drop_last() =~= Seq::empty());
        assert(read_decimal(s.drop_last()) == 0);
    } else if s.len() > 1 {
        let head = s.drop_last();
        lemma_digits_value_reads(head);
        if all_digits(s) {
            assert forall|i: int| 0 <= i < head.len() implies 48 <= (#[trigger] head[i]) as int
                <= 57 by {
                assert(head[i] == s[i]);
            }
            assert(48 <= s[s.len() - 1] as int <= 57);
        }
        if all_digits(head) && 48 <= s.last() as int <= 57 {
            assert forall|i: int| 0 <= i < s.len() implies 48 <= (#[trigger] s[i]) as int <= 57 by {
                if i < head.len() {
                    assert(head[i] == s[i]);
                }
            }
        }
    }
}

/// What is typed is a number exactly when it is digits, after a `+` or not, whose
/// number is no larger than allowed; and it is that number.
pub proof fn law_typed_number(s: Seq<char>, max: nat)
    ensures
        ({
            let digits = if s.len() > 0 && s[0] == '+' {
                s.skip(1)
            } else {
                s
            };
            &&& parsed_number(s, max) is Some <==> all_digits(digits) && read_decimal(digits) <= max
            &&& parsed_number(s, max) matches Some(n) ==> n == read_decimal(digits)
        }),
{
    lemma_digits_value_reads(s);
    if s.len() > 0 {
        assert(s.skip(1) =~= s.drop_first());
        lemma_digits_value_reads(s.drop_first());
    }
}

/// Changing case changes the letters of ASCII by 32 and nothing else.
pub proof fn law_case(s: Seq<char>, i: int)
    requires
        0 <= i < s.len(),
    ensures
        lowered(s).len() == s.len(),
        uppered(s).len() == s.len(),
        65 <= s[i] as int <= 90 ==> lowered(s)[i] as int == s[i] as int + 32,
        !(65 <= s[i] as int <= 90) ==> lowered(s)[i] == s[i],
        97 <= s[i] as int <= 122 ==> uppered(s)[i] as int == s[i] as int - 32,
        !(97 <= s[i] as int <= 122) ==> uppered(s)[i] == s[i],
{
}

proof fn lemma_joined_front(first: Seq<char>, rest: Seq<Seq<char>>, mark: char)
    requires
        rest.len() > 0,
    ensures
        joined(seq![first] + rest, mark) == first.push(mark) + joined(rest, mark),
    decreases rest.len(),
{
    let all = seq![first] + rest;
    assert(all.drop_last() =~= seq![first] + rest.drop_last());
    assert(all.last() == rest.last());
    if rest.len() == 1 {
        assert(all.drop_last() =~= seq![first]);
        assert(joined(seq![first], mark) == first);
        assert(joined(all, mark) =~= first.push(mark) + joined(rest, mark));
    } else {
        lemma_joined_front(first, rest.drop_last(), mark);
        assert(joined(all, mark) =~= first.push(mark) + joined(rest, mark));
    }
}

/// The pieces between the marks hold no mark, and with the marks put back between
/// them they are the text again.
pub proof fn law_split_joins_back(s: Seq<char>, mark: char)
    ensures
        split_at_marks(s, mark).len() > 0,
        forall|i: int|
            0 <= i < split_at_marks(s, mark).len() ==> !(#[trigger] split_at_marks(
                s,
                mark,
            )[i]).contains(mark),
        joined(split_at_marks(s, mark), mark) == s,
    decreases s.len(),
{
    let all = split_at_marks(s, mark);
    let k = first_at(s, mark);
    lemma_first_at(s, mark);
    if k < s.len() {
        let rest = s.skip(k + 1);
        law_split_joins_back(rest, mark);
        lemma_joined_front(s.take(k), split_at_marks(rest, mark), mark);
        assert forall|i: int| 0 <= i < all.len() implies !(#[trigger] all[i]).contains(mark) by {
            if i > 0 {
                assert(all[i] == split_at_marks(rest, mark)[i - 1]);
            }
        }
        assert(s =~= s.take(k).push(mark) + rest);
    }
}

/// A line ends at a line feed, which is not part of it, nor is a carriage return
/// right before it; what follows the last line feed is a line when there is
/// something there.
pub proof fn law_lines(line: Seq<char>, rest: Seq<char>)
    requires
        !line.contains('\n'),
    ensures
        lines_of(line.push('\r').push('\n') + rest) == seq![line] + lines_of(rest),
        line.len() == 0 || line.last() != '\r' ==> lines_of(line.push('\n') + rest) == seq![line]
            + lines_of(rest),
        line.len() > 0 ==> lines_of(line) == seq![line],
        lines_of(Seq::empty()) == Seq::<Seq<char>>::empty(),
{
    let s = line.push('\n') + rest;
    assert forall|i: int| 0 <= i < line.len() implies s[i] != '\n' && line[i] != '\n' by {
        assert(s[i] == line[i]);
        assert(line.contains(line[i]));
    }
    assert(s[line.len() as int] == '\n');
    lemma_first_at_is(s, '\n', line.len() as int);
    assert(s.take(line.len() as int) =~= line);
    assert(s.skip(line.len() as int + 1) =~= rest);
    lemma_first_at_is(line, '\n', line.len() as int);
    let t = line.push('\r').push('\n') + rest;
    let n = line.len() as int + 1;
    assert forall|i: int| 0 <= i < n implies t[i] != '\n' by {
        if i < line.len() {
            assert(t[i] == line[i]);
        } else {
            assert(t[i] == '\r');
        }
    }
    assert(t[n] == '\n');
    lemma_first_at_is(t, '\n', n);
    assert(t.take(n) =~= line.push('\r'));
    assert(line.push('\r').drop_last() =~= line);
    assert(t.skip(n + 1) =~= rest);
}

/// The value of an upper case hexadecimal digit, by its code.
pub open spec fn hex_code(c: char) -> int {
    if 48 <= c as int <= 57 {
        c as int - 48
    } else {
        c as int - 55
    }
}

/// A byte is written as two upper case hexadecimal digits, the high one first.
pub proof fn law_hex_of_bytes(bytes: Seq<u8>, i: int)
    requires
        0 <= i < bytes.len(),
    ensures
        hex_of_bytes(bytes).len() == 2 * bytes.len(),
        ({
            let high = hex_of_bytes(bytes)[2 * i];
            let low = hex_of_bytes(bytes)[2 * i + 1];
            &&& 48 <= high as int <= 57 || 65 <= high as int <= 70
            &&& 48 <= low as int <= 57 || 65 <= low as int <= 70
            &&& hex_code(high) * 16 + hex_code(low) == bytes[i]
        }),
{
    assert((2 * i) / 2 == i && (2 * i) % 2 == 0);
    assert((2 * i + 1) / 2 == i && (2 * i + 1) % 2 == 1);
}

/// Texts compare by the first character they differ in, and a text comes before any
/// that goes on after it.
pub proof fn law_text_order(shared: Seq<char>, a: Seq<char>, b: Seq<char>)
    ensures
        a.len() > 0 && b.len() > 0 && a[0] != b[0] ==> (text_less(shared + a, shared + b) <==> a[0]
            < b[0]),
        b.len() > 0 ==> text_less(shared, shared + b) && !text_less(shared + b, shared),
        !text_less(a, a),
    decreases shared.len(), a.len(),
{
    if shared.len() > 0 {
        law_text_order(shared.drop_first(), a, b);
        assert((shared + a).drop_first() =~= shared.drop_first() + a);
        assert((shared + b).drop_first() =~= shared.drop_first() + b);
        assert((shared + a)[0] == shared[0] && (shared + b)[0] == shared[0]);
    } else {
        assert(shared + a =~= a);
        assert(shared + b =~= b);
        if a.len() > 0 {
            law_text_order(shared, a.drop_first(), b);
        }
    }
}

/// Pieces without the mark are told apart again where they were joined.
pub proof fn law_joined_splits_back(pieces: Seq<Seq<char>>, mark: char)
    requires
        pieces.len() > 0,
        forall|i: int| 0 <= i < pieces.len() ==> !(#[trigger] pieces[i]).contains(mark),
    ensures
        split_at_marks(joined(pieces, mark), mark) == pieces,
    decreases pieces.len(),
{
    let first = pieces[0];
    let s = joined(pieces, mark);
    assert(!first.contains(mark));
    assert forall|i: int| 0 <= i < first.len() implies first[i] != mark by {
        assert(first.contains(first[i]));
    }
    if pieces.len() == 1 {
        lemma_first_at_is(s, mark, s.len() as int);
        assert(split_at_marks(s, mark) =~= pieces);
    } else {
        let rest = pieces.drop_first();
        assert(seq![first] + rest =~= pieces);
        assert forall|i: int| 0 <= i < rest.len() implies !(#[trigger] rest[i]).contains(mark) by {
            assert(rest[i] == pieces[i + 1]);
        }
        lemma_joined_front(first, rest, mark);
        law_joined_splits_back(rest, mark);
        let k = first.len() as int;
        assert(s[k] == mark);
        lemma_first_at_is(s, mark, k);
        assert(s.take(k) =~= first);
        assert(s.skip(k + 1) =~= joined(rest, mark));
        assert(split_at_marks(s, mark) =~= pieces);
    }
}

/// Lines that are joined with line feeds are the lines of what comes out, unless one
/// of them has a line feed in it, half of a line ending at its end, or is empty.
pub proof fn law_joined_lines(lines: Seq<Seq<char>>)
    requires
        forall|i: int|
            0 <= i < lines.len() ==> (#[trigger] lines[i]).len() > 0 && !lines[i].contains('\n')
                && lines[i].last() != '\r',
    ensures
        lines_of(joined(lines, '\n')) == lines,
    decreases lines.len(),
{
    if lines.len() == 0 {
        assert(lines_of(joined(lines, '\n')) =~= lines);
    } else {
        let first = lines[0];
        law_lines(first, Seq::empty());
        if lines.len() == 1 {
            assert(lines_of(joined(lines, '\n')) =~= lines);
        } else {
            let rest = lines.drop_first();
            assert(seq![first] + rest =~= lines);
            assert forall|i: int| 0 <= i < rest.len() implies (#[trigger] rest[i]).len() > 0
                && !rest[i].contains('\n') && rest[i].last() != '\r' by {
                assert(rest[i] == lines[i + 1]);
            }
            lemma_joined_front(first, rest, '\n');
            law_joined_lines(rest);
            law_lines(first, joined(rest, '\n'));
        }
    }
}

/// Zeros in front do not change the number, and make the text as long as asked for.
pub proof fn law_zero_padded(s: Seq<char>, width: nat)
    ensures
        read_decimal(zero_padded(s, width)) == read_decimal(s),
        s.len() <= width ==> zero_padded(s, width).len() == width,
        ends_with(zero_padded(s, width), s),
    decreases s.len(),
{
    let all = zero_padded(s, width);
    assert(all.skip(all.len() - s.len()) =~= s);
    if s.len() < width {
        lemma_zeros_in_front((width - s.len()) as nat, s);
    }
}

proof fn lemma_zeros_in_front(zeros: nat, s: Seq<char>)
    ensures
        read_decimal(Seq::new(zeros, |i: int| '0') + s) == read_decimal(s),
    decreases zeros + s.len(),
{
    let front = Seq::new(zeros, |i: int| '0');
    let all = front + s;
    if s.len() > 0 {
        assert(all.drop_last() =~= front + s.drop_last());
        lemma_zeros_in_front(zeros, s.drop_last());
    } else if zeros > 0 {
        assert(all.drop_last() =~= Seq::new((zeros - 1) as nat, |i: int| '0') + s);
        lemma_zeros_in_front((zeros - 1) as nat, s);
        assert(all.last() == '0');
    }
}

/// Whether `part` stands somewhere in `s`.
pub open spec fn holds(s: Seq<char>, part: Seq<char>) -> bool {
    exists|i: int|
        0 <= i && i + part.len() <= s.len() && #[trigger] s.subrange(i, i + part.len()) == part
}

pub proof fn lemma_holds(before: Seq<char>, part: Seq<char>, after: Seq<char>)
    ensures
        holds(before + part + after, part),
{
    let s = before + part + after;
    let i = before.len() as int;
    assert(s.subrange(i, i + part.len()) =~= part);
}

/// What a text starts with stands in front of the rest of it, and what it ends with
/// behind.
pub proof fn law_starts_and_ends(s: Seq<char>, part: Seq<char>, rest: Seq<char>)
    ensures
        starts_with(part + rest, part),
        ends_with(rest + part, part),
        starts_with(s, part) ==> s == part + s.skip(part.len() as int),
        ends_with(s, part) ==> s == s.take(s.len() - part.len()) + part,
        s.len() < part.len() ==> !starts_with(s, part) && !ends_with(s, part),
{
    let front = part + rest;
    let back = rest + part;
    assert(front.take(part.len() as int) =~= part);
    assert(back.skip(back.len() - part.len()) =~= part);
    if starts_with(s, part) {
        assert(s =~= s.take(part.len() as int) + s.skip(part.len() as int));
    }
    if ends_with(s, part) {
        assert(s =~= s.take(s.len() - part.len()) + s.skip(s.len() - part.len()));
    }
}

/// The number that characters are the lower case hexadecimal digits of, by their codes.
pub open spec fn read_hex(s: Seq<char>) -> int
    decreases s.len(),
{
    if s.len() == 0 {
        0
    } else {
        let c = s.last() as int;
        read_hex(s.drop_last()) * 16 + (if c <= 57 {
            c - 48
        } else {
            c - 87
        })
    }
}

/// A number is written as its hexadecimal digits, highest first, in lower case and
/// without leading zeros.
pub proof fn law_hex_spells_the_number(n: nat)
    ensures
        read_hex(hex(n)) == n,
        hex(n).len() > 0,
        n > 0 ==> hex(n)[0] != '0',
        forall|i: int|
            0 <= i < hex(n).len() ==> 48 <= (#[trigger] hex(n)[i]) as int <= 57 || 97 <= hex(
                n,
            )[i] as int <= 102,
    decreases n,
{
    let s = hex(n);
    if n < 16 {
        assert(s.drop_last() =~= Seq::empty());
        assert(read_hex(s.drop_last()) == 0);
    } else {
        law_hex_spells_the_number(n / 16);
        assert(s.drop_last() =~= hex(n / 16));
        assert(s[0] == hex(n / 16)[0]);
        assert forall|i: int| 0 <= i < s.len() implies 48 <= (#[trigger] s[i]) as int <= 57 || 97
            <= s[i] as int <= 102 by {
            if i < s.len() - 1 {
                assert(s[i] == hex(n / 16)[i]);
            }
        }
    }
}

} // verus!
