//! What is written is what is read: stems and months in order, and a clip's
//! content found again where it was put.

use vstd::prelude::*;

use crate::clip;
use crate::clip::PayloadView;
use crate::deletion;
use crate::item;
use crate::item::ClipView;
use crate::laws;
use crate::paths;
use crate::settings;
use crate::settings::SettingsView;
use crate::store;
use crate::store::{ContextView, FileKindView, SourceView, StepView};
use crate::text;
use crate::win;
use crate::win::SYSTEMTIME;

verus! {

// ------------------------------------------------------------------------- paths

/// A name of a file as we give them: no separator and no colon in it.
pub open spec fn plain_name(name: Seq<char>) -> bool {
    name.len() > 0 && forall|i: int|
        0 <= i < name.len() ==> !paths::is_sep(#[trigger] name[i]) && name[i] != ':'
}

/// A folder that files can be put in: it ends in a name, and is no bare server.
pub open spec fn plain_folder(folder: Seq<char>) -> bool {
    &&& folder.len() > 0
    &&& !paths::is_sep(folder.last()) && folder.last() != '.' && folder.last() != ':'
    &&& paths::has_share(folder) ==> paths::name_end(folder, 2) < folder.len()
}

proof fn lemma_name_end_stops(s: Seq<char>, i: int, stop: int)
    requires
        0 <= i <= stop < s.len(),
        paths::is_sep(s[stop]),
    ensures
        i <= paths::name_end(s, i) <= stop,
    decreases stop - i,
{
    if i < stop && !paths::is_sep(s[i]) {
        lemma_name_end_stops(s, i + 1, stop);
    }
}

/// A name goes on as far in a longer text, up to where the shorter one ends.
proof fn lemma_name_end_longer(s: Seq<char>, more: Seq<char>, i: int)
    requires
        0 <= i <= s.len() < more.len(),
        more.take(s.len() as int) == s,
        paths::is_sep(more[s.len() as int]),
    ensures
        paths::name_end(more, i) == paths::name_end(s, i),
    decreases s.len() - i,
{
    if i < s.len() {
        assert(more[i] == more.take(s.len() as int)[i]);
        if !paths::is_sep(s[i]) {
            lemma_name_end_longer(s, more, i + 1);
        }
    }
}

/// A file put beside another in the same folder is found from the other.
pub proof fn lemma_sibling(folder: Seq<char>, first: Seq<char>, second: Seq<char>)
    requires
        plain_folder(folder),
        plain_name(first),
        plain_name(second),
        first.last() != '.',
    ensures
        paths::file_name_of(paths::joined(folder, first)) == Some(first),
        paths::renamed(paths::joined(folder, first), second) == paths::joined(folder, second),
{
    let n = folder.len() as int;
    let s = paths::joined(folder, first);
    assert(!paths::is_sep(first[0]) && !paths::is_sep(second[0]));
    assert(!paths::has_drive(first) && !paths::has_drive(second)) by {
        if first.len() >= 2 {
            assert(first[1] != ':');
        }
        if second.len() >= 2 {
            assert(second[1] != ':');
        }
    }
    assert(s =~= folder.push('\\') + first);
    assert(s.take(n) =~= folder);
    assert(s[n] == '\\');
    assert forall|i: int| 0 <= i < n implies s[i] == folder[i] by {}
    assert forall|i: int| n + 1 <= i < s.len() implies !paths::is_sep(#[trigger] s[i]) by {
        assert(s[i] == first[i - n - 1]);
    }
    // The part without names ends before the name does.
    paths::lemma_prefix(s);
    let root = paths::root_len(s);
    assert(paths::prefix_len(s) <= n) by {
        if paths::has_drive(s) {
            if n == 1 {
                assert(s[1] == '\\');
            } else if n == 2 {
                assert(s[1] == folder[1]);
            }
        } else if paths::has_share(s) {
            if n == 1 {
                assert(s[0] == folder[0]);
            } else if n == 2 {
                assert(s[2] == '\\');
            } else {
                assert(folder[0] == s[0] && folder[1] == s[1] && folder[2] == s[2]);
                assert(paths::has_share(folder));
                lemma_name_end_longer(folder, s, 2);
                let server = paths::name_end(s, 2);
                lemma_name_end_stops(s, 2, n);
                lemma_name_end_stops(s, server + 1, n);
            }
        }
    }
    assert(root <= n + 1);
    let end = s.len() as int;
    assert(s[end - 1] == first.last());
    assert(paths::last_end(s, root, end) == end);
    paths::lemma_last_start_is(s, root, n + 1, end);
    let name = s.subrange(n + 1, end);
    assert(name =~= first);
    assert(name != seq!['.', '.'] && name != seq!['.']) by {
        if name == seq!['.', '.'] {
            assert(name.last() == '.');
        }
        if name == seq!['.'] {
            assert(name.last() == '.');
        }
    }
    assert(paths::file_name_of(s) == Some(first));
    let stop = paths::last_end(s, root, n + 1);
    if root <= n {
        assert(paths::ends_in_nothing(s, root, n + 1));
        assert(s[n - 1] == folder.last());
        assert(!paths::ends_in_nothing(s, root, n));
        assert(paths::last_end(s, root, n) == n);
        assert(stop == n);
        assert(paths::parent_of(s)->0 =~= folder);
    } else {
        assert(stop == n + 1);
        assert(paths::parent_of(s)->0 =~= folder.push('\\'));
        assert(paths::joined(folder.push('\\'), second) =~= folder.push('\\') + second);
    }
    assert(paths::joined(folder, second) =~= folder.push('\\') + second);
}

// ------------------------------------------------------------------------- lines

proof fn lemma_joined_front(list: Seq<Seq<char>>, mark: char)
    requires
        list.len() >= 2,
    ensures
        text::joined(list, mark) == list[0].push(mark) + text::joined(list.drop_first(), mark),
    decreases list.len(),
{
    let head = list.drop_last();
    let rest = list.drop_first();
    if list.len() == 2 {
        assert(text::joined(head, mark) == list[0]);
        assert(text::joined(rest, mark) == list[1]);
        assert(text::joined(list, mark) =~= list[0].push(mark) + text::joined(rest, mark));
    } else {
        lemma_joined_front(head, mark);
        assert(head.drop_first() =~= rest.drop_last());
        assert(rest.last() == list.last());
        assert(text::joined(list, mark) =~= list[0].push(mark) + text::joined(rest, mark));
    }
}

/// A line that a list of lines can hold: something, without a line break in it or
/// half of one at its end.
pub open spec fn plain_line(line: Seq<char>) -> bool {
    line.len() > 0 && !line.contains('\n') && line.last() != '\r'
}

proof fn lemma_first_line(line: Seq<char>, rest: Seq<char>)
    requires
        plain_line(line),
    ensures
        text::lines_of(line.push('\n') + rest) == seq![line] + text::lines_of(rest),
        text::lines_of(line) == seq![line],
{
    let s = line.push('\n') + rest;
    let k = line.len() as int;
    text::lemma_first_at(s, '\n');
    text::lemma_first_at(line, '\n');
    assert forall|i: int| 0 <= i < k implies s[i] != '\n' && line[i] != '\n' by {
        assert(s[i] == line[i]);
        assert(line.contains(line[i]));
    }
    assert(s[k] == '\n');
    assert(text::first_at(s, '\n') == k);
    assert(text::first_at(line, '\n') == k);
    assert(s.take(k) =~= line);
    assert(s.skip(k + 1) =~= rest);
}

proof fn lemma_lines_of_joined(list: Seq<Seq<char>>)
    requires
        list.len() > 0,
        forall|i: int| 0 <= i < list.len() ==> plain_line(#[trigger] list[i]),
    ensures
        text::lines_of(text::joined(list, '\n')) == list,
    decreases list.len(),
{
    assert(plain_line(list[0]));
    if list.len() == 1 {
        lemma_first_line(list[0], Seq::empty());
        assert(seq![list[0]] =~= list);
    } else {
        let rest = list.drop_first();
        assert forall|i: int| 0 <= i < rest.len() implies plain_line(#[trigger] rest[i]) by {
            assert(rest[i] == list[i + 1]);
        }
        lemma_joined_front(list, '\n');
        lemma_lines_of_joined(rest);
        lemma_first_line(list[0], text::joined(rest, '\n'));
        assert(seq![list[0]] + rest =~= list);
    }
}

proof fn lemma_filled(list: Seq<Seq<char>>)
    requires
        forall|i: int| 0 <= i < list.len() ==> (#[trigger] list[i]).len() > 0,
    ensures
        store::filled_lines(list) == list,
    decreases list.len(),
{
    if list.len() > 0 {
        let head = list.drop_last();
        assert forall|i: int| 0 <= i < head.len() implies (#[trigger] head[i]).len() > 0 by {
            assert(head[i] == list[i]);
        }
        lemma_filled(head);
        assert(list[list.len() - 1].len() > 0);
        assert(head.push(list.last()) =~= list);
    } else {
        assert(store::filled_lines(list) =~= list);
    }
}

// ------------------------------------------------------------------- the content

/// Whether a payload can be told apart again from what is kept of it. Text and
/// images always can; paths are kept one per line.
pub open spec fn recoverable(payload: PayloadView) -> bool {
    payload matches PayloadView::Files(list) ==> list.len() > 0 && forall|i: int|
        0 <= i < list.len() ==> plain_line(#[trigger] list[i])
}

/// A clip that was written gives its content back. What is kept in the row is
/// read from there; what went to a blob is read from exactly the file that was
/// written, and that file holds the content: the image itself, or the text in
/// UTF-8.
pub proof fn law_read_gives_back_what_was_written(
    payload: PayloadView,
    context: ContextView,
    now: i64,
    month: Seq<char>,
    stem: Seq<char>,
    config: SettingsView,
    when: SYSTEMTIME,
    now_year: u16,
)
    requires
        recoverable(payload),
        plain_name(stem),
        plain_folder(store::month_folder(config, month)),
    ensures
        ({
            let clip = laws::captured(
                payload,
                context,
                now,
                month,
                stem,
                config,
                when,
                now_year,
            );
            let steps = store::write_steps(payload, context, now, month, stem, config);
            match store::source_of(clip) {
                SourceView::Missing => false,
                SourceView::Ready(kept) => kept == payload,
                SourceView::ImageBlob(path) => payload matches PayloadView::Image(png)
                    && steps.contains(StepView::WriteBlob(path, png)),
                SourceView::TextBlob(path) => payload matches PayloadView::Text(s)
                    && steps.contains(StepView::WriteBlob(path, vstd::utf8::encode_utf8(s)))
                    && vstd::utf8::decode_utf8(vstd::utf8::encode_utf8(s)) == s,
            }
        }),
{
    let clip = laws::captured(payload, context, now, month, stem, config, when, now_year);
    let steps = store::write_steps(payload, context, now, month, stem, config);
    let folder = store::month_folder(config, month);
    let record = store::new_record(payload, context, now, stem, config);
    clip::law_kind_round_trip(clip::payload_kind(payload));
    if settings::heavy(payload, config) {
        let name = stem + store::BIN_SUFFIX@;
        reveal_strlit(".bin");
        reveal_strlit("clips.db");
        assert(plain_name(name)) by {
            assert forall|i: int| 0 <= i < name.len() implies !paths::is_sep(#[trigger] name[i])
                && name[i] != ':' by {
                if i < stem.len() {
                    assert(name[i] == stem[i]);
                } else {
                    assert(name[i] == ".bin"@[i - stem.len()]);
                }
            }
        }
        assert(plain_name(store::DB_NAME@));
        lemma_sibling(folder, store::DB_NAME@, name);
        let path = paths::joined(folder, name);
        assert(clip.blob_path == path);
        assert(steps[1] == StepView::WriteBlob(path, clip::payload_body(payload)));
        if let PayloadView::Text(s) = payload {
            vstd::utf8::encode_utf8_decode_utf8(s);
        }
    }
    if let PayloadView::Files(list) = payload {
        lemma_lines_of_joined(list);
        assert forall|i: int| 0 <= i < list.len() implies (#[trigger] list[i]).len() > 0 by {
            assert(plain_line(list[i]));
        }
        lemma_filled(list);
    }
}

// ------------------------------------------------------------------------ months

/// The code of a decimal digit.
spec fn code(d: int) -> int {
    48 + d
}

proof fn lemma_digit_code(d: nat)
    requires
        d < 10,
    ensures
        text::digit(d) as int == code(d as int),
{
}

/// A year and a month as the digits they are written with.
spec fn digits_of(year: int, month: int) -> Seq<int> {
    seq![
        code(year / 1000),
        code(year / 100 % 10),
        code(year / 10 % 10),
        code(year % 10),
        '-' as int,
        code(month / 10),
        code(month % 10),
    ]
}

proof fn lemma_two(n: u16)
    requires
        n < 100,
    ensures
        win::two(n).len() == 2,
        win::two(n)[0] as int == code(n as int / 10),
        win::two(n)[1] as int == code(n as int % 10),
{
    reveal_with_fuel(text::decimal, 3);
    lemma_digit_code((n / 10) as nat);
    lemma_digit_code((n % 10) as nat);
}

proof fn lemma_four(n: u16)
    requires
        n < 10_000,
    ensures
        win::four(n).len() == 4,
        win::four(n)[0] as int == code(n as int / 1000),
        win::four(n)[1] as int == code(n as int / 100 % 10),
        win::four(n)[2] as int == code(n as int / 10 % 10),
        win::four(n)[3] as int == code(n as int % 10),
{
    reveal_with_fuel(text::decimal, 5);
    lemma_digit_code((n / 1000) as nat);
    lemma_digit_code((n / 100 % 10) as nat);
    lemma_digit_code((n / 10 % 10) as nat);
    lemma_digit_code((n % 10) as nat);
}

proof fn lemma_bucket_digits(year: u16, month: u16)
    requires
        year < 10_000,
        month < 100,
    ensures
        settings::bucket(year, month).len() == 7,
        forall|i: int|
            0 <= i < 7 ==> #[trigger] settings::bucket(year, month)[i] as int == digits_of(
                year as int,
                month as int,
            )[i],
{
    lemma_four(year);
    lemma_two(month);
}

/// Dictionary order on numbers.
spec fn numbers_less(a: Seq<int>, b: Seq<int>) -> bool
    decreases a.len(),
{
    if b.len() == 0 {
        false
    } else if a.len() == 0 {
        true
    } else if a[0] == b[0] {
        numbers_less(a.drop_first(), b.drop_first())
    } else {
        a[0] < b[0]
    }
}

proof fn lemma_less_by_code(a: Seq<char>, b: Seq<char>, x: Seq<int>, y: Seq<int>)
    requires
        a.len() == x.len(),
        b.len() == y.len(),
        forall|i: int| 0 <= i < a.len() ==> #[trigger] a[i] as int == x[i],
        forall|i: int| 0 <= i < b.len() ==> #[trigger] b[i] as int == y[i],
    ensures
        text::text_less(a, b) == numbers_less(x, y),
    decreases a.len(),
{
    if a.len() > 0 && b.len() > 0 {
        assert(a[0] as int == x[0] && b[0] as int == y[0]);
        let a1 = a.drop_first();
        let b1 = b.drop_first();
        assert forall|i: int| 0 <= i < a1.len() implies #[trigger] a1[i] as int
            == x.drop_first()[i] by {
            assert(a[i + 1] as int == x[i + 1]);
        }
        assert forall|i: int| 0 <= i < b1.len() implies #[trigger] b1[i] as int
            == y.drop_first()[i] by {
            assert(b[i + 1] as int == y[i + 1]);
        }
        lemma_less_by_code(a1, b1, x.drop_first(), y.drop_first());
    }
}

proof fn lemma_numbers_step(c: int, d: int, a: Seq<int>, b: Seq<int>)
    ensures
        numbers_less(seq![c] + a, seq![d] + b) == (c < d || (c == d && numbers_less(a, b))),
{
    assert((seq![c] + a).drop_first() =~= a);
    assert((seq![d] + b).drop_first() =~= b);
}

proof fn lemma_digit_split(n: int)
    requires
        0 <= n < 10_000,
    ensures
        n == 1000 * (n / 1000) + 100 * (n / 100 % 10) + 10 * (n / 10 % 10) + n % 10,
        0 <= n / 1000 < 10,
        n < 100 ==> 0 <= n / 10 < 10 && n == 10 * (n / 10) + n % 10,
{
    let tens = n / 10;
    let hundreds = n / 100;
    let thousands = n / 1000;
    assert(n == 10 * tens + n % 10);
    assert(hundreds == tens / 10);
    assert(thousands == hundreds / 10);
    assert(tens == 10 * hundreds + tens % 10);
    assert(hundreds == 10 * thousands + hundreds % 10);
}

proof fn lemma_four_digits_compare(
    a: int,
    b: int,
    c: int,
    d: int,
    a2: int,
    b2: int,
    c2: int,
    d2: int,
)
    requires
        0 <= a < 10 && 0 <= b < 10 && 0 <= c < 10 && 0 <= d < 10,
        0 <= a2 < 10 && 0 <= b2 < 10 && 0 <= c2 < 10 && 0 <= d2 < 10,
    ensures
        1000 * a + 100 * b + 10 * c + d < 1000 * a2 + 100 * b2 + 10 * c2 + d2 <==> (a < a2 || (a
            == a2 && (b < b2 || (b == b2 && (c < c2 || (c == c2 && d < d2)))))),
        1000 * a + 100 * b + 10 * c + d == 1000 * a2 + 100 * b2 + 10 * c2 + d2 <==> (a == a2 && b
            == b2 && c == c2 && d == d2),
{
}

#[verifier::rlimit(40)]
proof fn lemma_digits_compare(y: int, m: int, y2: int, m2: int)
    requires
        0 <= y < 10_000,
        0 <= y2 < 10_000,
        0 <= m < 100,
        0 <= m2 < 100,
    ensures
        numbers_less(digits_of(y, m), digits_of(y2, m2)) <==> (y < y2 || (y == y2 && m < m2)),
{
    let a = digits_of(y, m);
    let b = digits_of(y2, m2);
    let e = Seq::<int>::empty();
    let a6 = seq![a[6]] + e;
    let b6 = seq![b[6]] + e;
    let a5 = seq![a[5]] + a6;
    let b5 = seq![b[5]] + b6;
    let a4 = seq![a[4]] + a5;
    let b4 = seq![b[4]] + b5;
    let a3 = seq![a[3]] + a4;
    let b3 = seq![b[3]] + b4;
    let a2 = seq![a[2]] + a3;
    let b2 = seq![b[2]] + b3;
    let a1 = seq![a[1]] + a2;
    let b1 = seq![b[1]] + b2;
    assert(a =~= seq![a[0]] + a1);
    assert(b =~= seq![b[0]] + b1);
    lemma_numbers_step(a[6], b[6], e, e);
    lemma_numbers_step(a[5], b[5], a6, b6);
    lemma_numbers_step(a[4], b[4], a5, b5);
    lemma_numbers_step(a[3], b[3], a4, b4);
    lemma_numbers_step(a[2], b[2], a3, b3);
    lemma_numbers_step(a[1], b[1], a2, b2);
    lemma_numbers_step(a[0], b[0], a1, b1);
    lemma_digit_split(y);
    lemma_digit_split(y2);
    lemma_digit_split(m);
    lemma_digit_split(m2);
    lemma_four_digits_compare(
        y / 1000,
        y / 100 % 10,
        y / 10 % 10,
        y % 10,
        y2 / 1000,
        y2 / 100 % 10,
        y2 / 10 % 10,
        y2 % 10,
    );
    lemma_four_digits_compare(0, 0, m / 10, m % 10, 0, 0, m2 / 10, m2 % 10);
}

/// Two months compare as text the way they compare as dates.
pub proof fn law_months_compare_as_dates(year: u16, month: u16, other_year: u16, other_month: u16)
    requires
        year < 10_000,
        other_year < 10_000,
        month < 100,
        other_month < 100,
    ensures
        text::text_less(
            settings::bucket(year, month),
            settings::bucket(other_year, other_month),
        ) <==> (year < other_year || (year == other_year && month < other_month)),
{
    lemma_bucket_digits(year, month);
    lemma_bucket_digits(other_year, other_month);
    lemma_less_by_code(
        settings::bucket(year, month),
        settings::bucket(other_year, other_month),
        digits_of(year as int, month as int),
        digits_of(other_year as int, other_month as int),
    );
    lemma_digits_compare(year as int, month as int, other_year as int, other_month as int);
}

// ------------------------------------------------------------------------- stems

spec fn hex_value(c: char) -> nat {
    if '0' <= c && c <= '9' {
        (c as nat - '0' as nat) as nat
    } else if 'a' <= c && c <= 'f' {
        (c as nat - 'a' as nat + 10) as nat
    } else {
        0
    }
}

spec fn hex_number(s: Seq<char>) -> nat
    decreases s.len(),
{
    if s.len() == 0 {
        0
    } else {
        hex_number(s.drop_last()) * 16 + hex_value(s.last())
    }
}

proof fn lemma_hex_number(n: nat)
    ensures
        hex_number(text::hex(n)) == n,
    decreases n,
{
    let s = text::hex(n);
    if n < 16 {
        assert(s.drop_last() =~= Seq::<char>::empty());
        assert(hex_number(s.drop_last()) == 0);
    } else {
        lemma_hex_number(n / 16);
        assert(s.drop_last() =~= text::hex(n / 16));
    }
}

proof fn lemma_leading_zeros(zeros: nat, s: Seq<char>)
    ensures
        hex_number(Seq::new(zeros, |i: int| '0') + s) == hex_number(s),
    decreases s.len() + zeros,
{
    let lead = Seq::new(zeros, |i: int| '0');
    let all = lead + s;
    if s.len() > 0 {
        assert(all.drop_last() =~= lead + s.drop_last());
        lemma_leading_zeros(zeros, s.drop_last());
    } else if zeros > 0 {
        let fewer = Seq::new((zeros - 1) as nat, |i: int| '0');
        assert(all.drop_last() =~= fewer + s);
        lemma_leading_zeros((zeros - 1) as nat, s);
    }
}

proof fn lemma_padded_hex_number(n: nat, width: nat)
    ensures
        hex_number(text::zero_padded(text::hex(n), width)) == n,
{
    lemma_hex_number(n);
    let s = text::hex(n);
    if s.len() < width {
        lemma_leading_zeros((width - s.len()) as nat, s);
    }
}

proof fn lemma_stems_differ(ms: i64, x: u64, y: u64)
    requires
        x != y,
    ensures
        settings::signed_decimal(ms) + seq!['-'] + text::zero_padded(text::hex(x as nat), 32)
            != settings::signed_decimal(ms) + seq!['-'] + text::zero_padded(
            text::hex(y as nat),
            32,
        ),
{
    let head = settings::signed_decimal(ms) + seq!['-'];
    let left = text::zero_padded(text::hex(x as nat), 32);
    let right = text::zero_padded(text::hex(y as nat), 32);
    lemma_padded_hex_number(x as nat, 32);
    lemma_padded_hex_number(y as nat, 32);
    if head + left == head + right {
        assert((head + left).skip(head.len() as int) =~= left);
        assert((head + right).skip(head.len() as int) =~= right);
    }
}

/// Two clips of one process get different stems, even in the same instant: the
/// count alone sets them apart. So does the fraction of the second, and so does the
/// process.
pub proof fn law_stems_are_unique(
    ms: i64,
    nanos: u32,
    counter: u64,
    other_counter: u64,
    process: u32,
)
    requires
        counter != other_counter,
    ensures
        settings::stem_of(ms, nanos, counter, process) != settings::stem_of(
            ms,
            nanos,
            other_counter,
            process,
        ),
        forall|other: u32|
            other != nanos ==> settings::stem_of(ms, nanos, counter, process)
                != #[trigger] settings::stem_of(ms, other, counter, process),
        forall|other: u32|
            other != process ==> settings::stem_of(ms, nanos, counter, process)
                != #[trigger] settings::stem_of(ms, nanos, counter, other),
{
    let shifted = (nanos as u64) << 32;
    let p = process as u64;
    assert(shifted ^ counter ^ p != shifted ^ other_counter ^ p) by (bit_vector)
        requires
            counter != other_counter,
    ;
    lemma_stems_differ(ms, shifted ^ counter ^ p, shifted ^ other_counter ^ p);
    assert forall|other: u32| other != nanos implies settings::stem_of(ms, nanos, counter, process)
        != #[trigger] settings::stem_of(ms, other, counter, process) by {
        assert(((nanos as u64) << 32) ^ counter ^ p != ((other as u64) << 32) ^ counter ^ p)
            by (bit_vector)
            requires
                other != nanos,
        ;
        lemma_stems_differ(ms, shifted ^ counter ^ p, ((other as u64) << 32) ^ counter ^ p);
    }
    assert forall|other: u32|
        other != process implies settings::stem_of(ms, nanos, counter, process)
        != #[trigger] settings::stem_of(ms, nanos, counter, other) by {
        assert(shifted ^ counter ^ (process as u64) != shifted ^ counter ^ (other as u64))
            by (bit_vector)
            requires
                other != process,
        ;
        lemma_stems_differ(ms, shifted ^ counter ^ p, shifted ^ counter ^ (other as u64));
    }
}

proof fn lemma_hex_digits(n: nat)
    ensures
        text::hex(n).len() > 0,
        forall|i: int|
            0 <= i < text::hex(n).len() ==> settings::is_lower_hex(#[trigger] text::hex(n)[i]),
    decreases n,
{
    if n >= 16 {
        lemma_hex_digits(n / 16);
    }
}

/// A clip's markers are put in the folder of its database and are read back as that
/// clip's, whatever folder files can be put in and whatever stem can be a file's name.
pub proof fn law_markers_are_read_back(folder: Seq<char>, stem: Seq<char>)
    requires
        plain_folder(folder),
        plain_name(stem),
    ensures
        ({
            let pin = item::marker_path(store::db_in(folder), stem, item::PIN_SUFFIX@);
            let tombstone = item::marker_path(store::db_in(folder), stem, item::HIDDEN_SUFFIX@);
            &&& pin == paths::joined(folder, stem + item::PIN_SUFFIX@)
            &&& tombstone == paths::joined(folder, stem + item::HIDDEN_SUFFIX@)
            &&& store::kind_of_file(pin) == FileKindView::Pin(stem)
            &&& store::kind_of_file(tombstone) == FileKindView::Tombstone(stem)
            &&& store::kind_of_file(store::db_in(folder)) == FileKindView::Database
        }),
{
    reveal_strlit("clips.db");
    reveal_strlit(".pin");
    reveal_strlit(".del");
    let db = store::DB_NAME@;
    let pin = stem + item::PIN_SUFFIX@;
    let tombstone = stem + item::HIDDEN_SUFFIX@;
    assert(plain_name(db));
    lemma_name_and_suffix(stem, item::PIN_SUFFIX@);
    lemma_name_and_suffix(stem, item::HIDDEN_SUFFIX@);
    lemma_sibling(folder, db, pin);
    lemma_sibling(folder, db, tombstone);
    assert(!paths::has_drive(stem)) by {
        if stem.len() >= 2 {
            assert(stem[1] != ':');
        }
    }
    laws::lemma_marker_kinds(store::db_in(folder), stem);
}

proof fn lemma_name_and_suffix(name: Seq<char>, suffix: Seq<char>)
    requires
        plain_name(name),
        plain_name(suffix),
    ensures
        plain_name(name + suffix),
{
    let all = name + suffix;
    assert forall|i: int| 0 <= i < all.len() implies !paths::is_sep(#[trigger] all[i]) && all[i]
        != ':' by {
        if i < name.len() {
            assert(all[i] == name[i]);
        } else {
            assert(all[i] == suffix[i - name.len()]);
        }
    }
}

/// A stem is a name that files can have.
pub proof fn law_stems_are_names(ms: i64, nanos: u32, counter: u64, process: u32)
    ensures
        plain_name(settings::stem_of(ms, nanos, counter, process)),
{
    let stem = settings::stem_of(ms, nanos, counter, process);
    let salt = settings::stem_salt(nanos, counter, process) as nat;
    let head = settings::signed_decimal(ms);
    let tail = text::zero_padded(text::hex(salt), 32);
    lemma_hex_digits(salt);
    text::lemma_decimal_value(if ms < 0 {
        (-ms) as nat
    } else {
        ms as nat
    });
    assert forall|i: int| 0 <= i < stem.len() implies !paths::is_sep(#[trigger] stem[i]) && stem[i]
        != ':' by {
        if i < head.len() {
            assert(stem[i] == head[i]);
            if ms < 0 && i > 0 {
                assert(head[i] == text::decimal((-ms) as nat)[i - 1]);
            }
        } else if i > head.len() {
            let j = i - head.len() - 1;
            assert(stem[i] == tail[j]);
            let zeros = tail.len() - text::hex(salt).len();
            if j >= zeros {
                assert(tail[j] == text::hex(salt)[j - zeros]);
            }
        }
    }
}

/// A month below a folder that ends in a name is a folder that files can be put
/// in.
pub proof fn law_months_are_folders(config: SettingsView, year: u16, month: u16)
    requires
        year < 10_000,
        month < 100,
        paths::joined(config.sync_root, config.machine_id).len() > 0,
        !paths::is_sep(paths::joined(config.sync_root, config.machine_id).last()),
    ensures
        plain_folder(store::month_folder(config, settings::bucket(year, month))),
{
    let root = paths::joined(config.sync_root, config.machine_id);
    let name = settings::bucket(year, month);
    let folder = store::month_folder(config, name);
    lemma_bucket_digits(year, month);
    assert(name[0] as int == digits_of(year as int, month as int)[0]);
    assert(name[1] as int == digits_of(year as int, month as int)[1]);
    assert(name[6] as int == digits_of(year as int, month as int)[6]);
    lemma_digit_split(year as int);
    assert(folder.last() == name[6]);
    if paths::has_share(folder) {
        assert(folder[0] == root[0]);
        assert(!(paths::has_drive(root)));
        let n = root.len() as int;
        assert(folder =~= root.push('\\') + name);
        assert(folder[n] == '\\');
        if n == 1 {
            assert(folder[0] == root[0]);
        } else if n == 2 {
            assert(folder[1] == root[1]);
        } else {
            lemma_name_end_stops(folder, 2, n);
        }
    }
}

proof fn lemma_prefix_ends_before(folder: Seq<char>, s: Seq<char>)
    requires
        plain_folder(folder),
        folder.len() < s.len(),
        s.take(folder.len() as int) == folder,
        s[folder.len() as int] == '\\',
    ensures
        paths::prefix_len(s) <= folder.len(),
{
    let n = folder.len() as int;
    assert forall|i: int| 0 <= i < n implies s[i] == folder[i] by {
        assert(s.take(n)[i] == s[i]);
    }
    paths::lemma_prefix(s);
    if paths::has_drive(s) {
        if n == 1 {
            assert(s[1] == '\\');
        }
    } else if paths::has_share(s) {
        if n == 1 {
            assert(s[0] == folder[0]);
        } else if n == 2 {
            assert(s[2] == '\\');
        } else {
            assert(folder[0] == s[0] && folder[1] == s[1] && folder[2] == s[2]);
            assert(paths::has_share(folder));
            lemma_name_end_longer(folder, s, 2);
            let server = paths::name_end(s, 2);
            lemma_name_end_stops(s, 2, n);
            lemma_name_end_stops(s, server + 1, n);
        }
    }
}

/// The database a capture goes to is in the folder of the month it is captured in, and
/// that is what is read out of its path again.
pub proof fn law_month_is_read_out_of_the_path(config: SettingsView, month: Seq<char>)
    requires
        plain_folder(paths::joined(config.sync_root, config.machine_id)),
        plain_name(month),
        month.last() != '.',
    ensures
        deletion::month_in(store::db_in(store::month_folder(config, month))) == Some(month),
{
    reveal_strlit("clips.db");
    let home = paths::joined(config.sync_root, config.machine_id);
    let folder = store::month_folder(config, month);
    let db = store::DB_NAME@;
    let s = store::db_in(folder);
    let h = home.len() as int;
    lemma_sibling(home, month, month);
    assert(plain_name(db));
    assert(!paths::is_sep(month[0]) && !paths::is_sep(db[0]));
    assert(!paths::has_drive(month) && !paths::has_drive(db)) by {
        if month.len() >= 2 {
            assert(month[1] != ':');
        }
        assert(db[1] == 'l');
    }
    assert(folder =~= home.push('\\') + month);
    let n = folder.len() as int;
    assert(folder[n - 1] == month.last());
    assert(!paths::is_sep(month[month.len() - 1]));
    assert(month[month.len() - 1] != ':');
    assert(s =~= folder.push('\\') + db);
    assert(s.take(h) =~= home);
    assert(s[h] == folder[h] && folder[h] == '\\');
    lemma_prefix_ends_before(home, s);
    paths::lemma_prefix(s);
    let root = paths::root_len(s);
    let end = s.len() as int;
    assert(root <= n);
    assert(s[n] == '\\');
    assert forall|i: int| n + 1 <= i < end implies !paths::is_sep(#[trigger] s[i]) by {
        assert(s[i] == db[i - n - 1]);
    }
    assert(s[end - 1] == db.last());
    assert(paths::last_end(s, root, end) == end);
    paths::lemma_last_start_is(s, root, n + 1, end);
    assert(paths::ends_in_nothing(s, root, n + 1));
    assert(s[n - 1] == month.last());
    assert(!paths::ends_in_nothing(s, root, n));
    assert(paths::last_end(s, root, n) == n);
    assert(paths::last_end(s, root, n + 1) == n);
    assert(s.take(n) =~= folder);
    assert(paths::parent_of(s) == Some(folder));
}

/// A clip that another machine captured is ours to delete exactly when the month it was
/// captured in is over.
pub proof fn law_past_months_are_ours(
    clip: ClipView,
    config: SettingsView,
    year: u16,
    month: u16,
    now_year: u16,
    now_month: u16,
    local_machine: Seq<char>,
)
    requires
        year < 10_000,
        month < 100,
        now_year < 10_000,
        now_month < 100,
        plain_folder(paths::joined(config.sync_root, config.machine_id)),
        clip.db_path == store::db_in(
            store::month_folder(config, settings::bucket(year, month)),
        ),
        clip.machine != local_machine,
    ensures
        deletion::ours(local_machine, settings::bucket(now_year, now_month))(clip) <==> year
            < now_year || (year == now_year && month < now_month),
{
    let name = settings::bucket(year, month);
    lemma_bucket_digits(year, month);
    let codes = digits_of(year as int, month as int);
    lemma_digit_split(year as int);
    lemma_digit_split(month as int);
    assert forall|i: int| 0 <= i < name.len() implies !paths::is_sep(#[trigger] name[i]) && name[i]
        != ':' && name[i] != '.' by {
        assert(name[i] as int == codes[i]);
    }
    assert(name[6] != '.');
    law_month_is_read_out_of_the_path(config, name);
    law_months_compare_as_dates(year, month, now_year, now_month);
}

} // verus!
