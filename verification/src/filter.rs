//! The search box: words that must all be found, each in the field it names.
//!
//! A plain word is looked for in what was copied. `app:`, `title:`, `time:`,
//! `machine:` and `kind:` in front of one look in that field instead, and any
//! other prefix is no prefix: a text that says `12:30` is found by `12:30`.

use vstd::prelude::*;

use crate::clip;
use crate::clip::ClipKind;
use crate::item::{ClipItem, ClipView};
use crate::search;
use crate::store;
use crate::text;

verus! {

#[derive(Clone, Copy, Debug, PartialEq, Eq, Structural)]
pub enum Field {
    Content,
    App,
    Title,
    Time,
    Machine,
    Kind,
}

/// One word of the search box: where it is looked for, and what for.
#[derive(Debug)]
pub struct Term {
    pub field: Field,
    pub value: String,
}

pub struct TermView {
    pub field: Field,
    pub value: Seq<char>,
}

impl View for Term {
    type V = TermView;

    open spec fn view(&self) -> TermView {
        TermView { field: self.field, value: self.value@ }
    }
}

/// How many characters at the front are not white space.
pub open spec fn word_len(s: Seq<char>) -> int
    decreases s.len(),
{
    if s.len() == 0 || text::is_white(s[0]) {
        0
    } else {
        1 + word_len(s.drop_first())
    }
}

pub proof fn lemma_word_len(s: Seq<char>)
    ensures
        0 <= word_len(s) <= s.len(),
        forall|i: int| 0 <= i < word_len(s) ==> !text::is_white(s[i]),
        word_len(s) < s.len() ==> text::is_white(s[word_len(s)]),
    decreases s.len(),
{
    if s.len() > 0 && !text::is_white(s[0]) {
        let rest = s.drop_first();
        lemma_word_len(rest);
        assert forall|i: int| 0 <= i < word_len(s) implies !text::is_white(s[i]) by {
            if i > 0 {
                assert(s[i] == rest[i - 1]);
            }
        }
    }
}

/// The words of a text: what stands between white space.
pub open spec fn words_of(s: Seq<char>) -> Seq<Seq<char>>
    decreases s.len(),
{
    let k = word_len(s);
    if s.len() == 0 {
        Seq::empty()
    } else if 0 < k <= s.len() {
        seq![s.take(k)] + words_of(s.skip(k))
    } else {
        words_of(s.drop_first())
    }
}

pub fn words(s: &str) -> (r: Vec<String>)
    ensures
        text::views(r@) == words_of(s@),
{
    let chars = text::chars_of(s);
    let mut r: Vec<String> = Vec::new();
    let mut i: usize = 0;
    assert(chars@.skip(0) =~= s@);
    assert(text::views(r@) =~= Seq::<Seq<char>>::empty());
    while i < chars.len()
        invariant
            i <= chars@.len(),
            text::views(r@) + words_of(chars@.skip(i as int)) =~= words_of(s@),
        decreases chars@.len() - i,
    {
        let ghost rest = chars@.skip(i as int);
        if text::white(chars[i]) {
            assert(rest.drop_first() =~= chars@.skip(i as int + 1));
            i += 1;
        } else {
            let from = i;
            while i < chars.len() && !text::white(chars[i])
                invariant
                    from <= i <= chars@.len(),
                    rest == chars@.skip(from as int),
                    forall|j: int| from <= j < i ==> !text::is_white(chars@[j]),
                decreases chars@.len() - i,
            {
                i += 1;
            }
            let ghost k = (i - from) as int;
            proof {
                lemma_word_len(rest);
                assert(!text::is_white(rest[0]));
                if word_len(rest) < k {
                    assert(rest[word_len(rest)] == chars@[from + word_len(rest)]);
                }
                if word_len(rest) > k {
                    assert(rest[k] == chars@[i as int]);
                }
                assert(rest.take(k) =~= chars@.subrange(from as int, i as int));
                assert(rest.skip(k) =~= chars@.skip(i as int));
            }
            let word = text::string_of(&chars, from, i);
            let ghost before = r@;
            r.push(word);
            assert(text::views(r@) =~= text::views(before).push(word@));
        }
    }
    assert(text::views(r@) =~= words_of(s@));
    r
}

/// What a word asks for.
pub open spec fn term_of(word: Seq<char>) -> TermView {
    if text::starts_with(word, "app:"@) {
        TermView { field: Field::App, value: word.skip("app:"@.len() as int) }
    } else if text::starts_with(word, "title:"@) {
        TermView { field: Field::Title, value: word.skip("title:"@.len() as int) }
    } else if text::starts_with(word, "time:"@) {
        TermView { field: Field::Time, value: word.skip("time:"@.len() as int) }
    } else if text::starts_with(word, "machine:"@) {
        TermView { field: Field::Machine, value: word.skip("machine:"@.len() as int) }
    } else if text::starts_with(word, "kind:"@) {
        TermView { field: Field::Kind, value: word.skip("kind:"@.len() as int) }
    } else {
        TermView { field: Field::Content, value: word }
    }
}

fn term(word: &str) -> (t: Term)
    ensures
        t@ == term_of(word@),
{
    if let Some(value) = text::strip_prefix(word, "app:") {
        return Term { field: Field::App, value };
    }
    if let Some(value) = text::strip_prefix(word, "title:") {
        return Term { field: Field::Title, value };
    }
    if let Some(value) = text::strip_prefix(word, "time:") {
        return Term { field: Field::Time, value };
    }
    if let Some(value) = text::strip_prefix(word, "machine:") {
        return Term { field: Field::Machine, value };
    }
    if let Some(value) = text::strip_prefix(word, "kind:") {
        return Term { field: Field::Kind, value };
    }
    Term { field: Field::Content, value: word.to_owned() }
}

pub open spec fn terms_of(needle: Seq<char>) -> Seq<TermView> {
    Seq::new(words_of(needle).len(), |i: int| term_of(words_of(needle)[i]))
}

pub open spec fn term_views(terms: Seq<Term>) -> Seq<TermView> {
    Seq::new(terms.len(), |i: int| terms[i]@)
}

/// Takes a search apart, once per search rather than once per clip.
pub fn terms(needle: &str) -> (r: Vec<Term>)
    ensures
        term_views(r@) == terms_of(needle@),
{
    let parts = words(needle);
    let mut r: Vec<Term> = Vec::new();
    let mut i: usize = 0;
    while i < parts.len()
        invariant
            i <= parts@.len(),
            r@.len() == i,
            forall|j: int| 0 <= j < i ==> #[trigger] r@[j]@ == term_of(parts@[j]@),
        decreases parts@.len() - i,
    {
        r.push(term(&parts[i]));
        i += 1;
    }
    proof {
        assert forall|j: int| 0 <= j < parts@.len() implies parts@[j]@ == words_of(needle@)[j] by {
            assert(text::views(parts@)[j] == parts@[j]@);
        }
        assert(text::views(parts@).len() == parts@.len());
        assert(term_views(r@) =~= terms_of(needle@));
    }
    r
}

/// What a kind is called on a row.
pub open spec fn kind_label(kind: ClipKind) -> Seq<char> {
    match kind {
        ClipKind::Text => "文本"@,
        ClipKind::Image => "图片"@,
        ClipKind::Files => "文件"@,
    }
}

pub fn label(kind: ClipKind) -> (r: &'static str)
    ensures
        r@ == kind_label(kind),
{
    match kind {
        ClipKind::Text => "文本",
        ClipKind::Image => "图片",
        ClipKind::Files => "文件",
    }
}

/// Whether a clip has what one word asks for.
pub open spec fn hits(item: ClipView, term: TermView) -> bool {
    match term.field {
        Field::Content => search::occurs(item.text, term.value),
        Field::App => search::occurs(item.app, term.value),
        Field::Title => search::occurs(item.title, term.value),
        Field::Time => search::occurs(item.time, term.value),
        Field::Machine => search::occurs(item.who, term.value),
        Field::Kind => search::occurs(kind_label(item.kind), term.value) || search::occurs(
            clip::kind_name(item.kind),
            term.value,
        ),
    }
}

/// Whether a clip has what every word of a search asks for.
pub open spec fn matching(item: ClipView, needle: Seq<char>) -> bool {
    forall|i: int| 0 <= i < terms_of(needle).len() ==> hits(item, #[trigger] terms_of(needle)[i])
}

fn hit(item: &ClipItem, term: &Term) -> (r: bool)
    ensures
        r == hits(item@, term@),
{
    match term.field {
        Field::Content => search::contains_ignore_case(&item.text, &term.value),
        Field::App => search::contains_ignore_case(&item.app, &term.value),
        Field::Title => search::contains_ignore_case(&item.title, &term.value),
        Field::Time => search::contains_ignore_case(&item.time, &term.value),
        Field::Machine => search::contains_ignore_case(&item.who, &term.value),
        Field::Kind => search::contains_ignore_case(label(item.kind), &term.value)
            || search::contains_ignore_case(item.kind.name(), &term.value),
    }
}

/// Whether a clip has what every one of the terms asks for.
pub fn matches(item: &ClipItem, terms: &Vec<Term>) -> (r: bool)
    ensures
        r == (forall|i: int|
            0 <= i < term_views(terms@).len() ==> hits(item@, #[trigger] term_views(terms@)[i])),
{
    let mut i: usize = 0;
    while i < terms.len()
        invariant
            i <= terms@.len(),
            forall|j: int| 0 <= j < i ==> hits(item@, #[trigger] term_views(terms@)[j]),
        decreases terms@.len() - i,
    {
        assert(term_views(terms@)[i as int] == terms@[i as int]@);
        if !hit(item, &terms[i]) {
            return false;
        }
        i += 1;
    }
    true
}

// -------------------------------------------------------------------- the laws

proof fn lemma_begins(prefix: Seq<char>, rest: Seq<char>)
    ensures
        text::starts_with(prefix + rest, prefix),
        (prefix + rest).skip(prefix.len() as int) == rest,
{
    assert((prefix + rest).take(prefix.len() as int) =~= prefix);
    assert((prefix + rest).skip(prefix.len() as int) =~= rest);
}

proof fn lemma_begins_otherwise(word: Seq<char>, prefix: Seq<char>, at: int)
    requires
        0 <= at < prefix.len(),
        at < word.len() ==> word[at] != prefix[at],
    ensures
        !text::starts_with(word, prefix),
{
    if text::starts_with(word, prefix) {
        assert(word.take(prefix.len() as int)[at] == prefix[at]);
    }
}

/// A prefix names the field a word is looked for in, and what follows it is what is
/// looked for: the program, the title of its window, the time, the machine or the
/// kind. A word with none of the prefixes is looked for whole, in what was copied.
pub proof fn law_prefix_names_the_field(clip: ClipView, value: Seq<char>, word: Seq<char>)
    ensures
        hits(clip, term_of("app:"@ + value)) == search::occurs(clip.app, value),
        hits(clip, term_of("title:"@ + value)) == search::occurs(clip.title, value),
        hits(clip, term_of("time:"@ + value)) == search::occurs(clip.time, value),
        hits(clip, term_of("machine:"@ + value)) == search::occurs(clip.who, value),
        hits(clip, term_of("kind:"@ + value)) == (search::occurs(kind_label(clip.kind), value)
            || search::occurs(clip::kind_name(clip.kind), value)),
        !text::starts_with(word, "app:"@) && !text::starts_with(word, "title:"@)
            && !text::starts_with(word, "time:"@) && !text::starts_with(word, "machine:"@)
            && !text::starts_with(word, "kind:"@) ==> hits(clip, term_of(word)) == search::occurs(
            clip.text,
            word,
        ),
{
    reveal_strlit("app:");
    reveal_strlit("title:");
    reveal_strlit("time:");
    reveal_strlit("machine:");
    reveal_strlit("kind:");
    lemma_begins("app:"@, value);
    lemma_begins("title:"@, value);
    lemma_begins("time:"@, value);
    lemma_begins("machine:"@, value);
    lemma_begins("kind:"@, value);
    lemma_begins_otherwise("title:"@ + value, "app:"@, 0);
    lemma_begins_otherwise("time:"@ + value, "app:"@, 0);
    lemma_begins_otherwise("time:"@ + value, "title:"@, 2);
    lemma_begins_otherwise("machine:"@ + value, "app:"@, 0);
    lemma_begins_otherwise("machine:"@ + value, "title:"@, 0);
    lemma_begins_otherwise("machine:"@ + value, "time:"@, 0);
    lemma_begins_otherwise("kind:"@ + value, "app:"@, 0);
    lemma_begins_otherwise("kind:"@ + value, "title:"@, 0);
    lemma_begins_otherwise("kind:"@ + value, "time:"@, 0);
    lemma_begins_otherwise("kind:"@ + value, "machine:"@, 0);
}

/// A text without white space in it is one word, and one with nothing but white
/// space has none.
pub proof fn law_one_word(word: Seq<char>)
    ensures
        word.len() > 0 && (forall|i: int|
            0 <= i < word.len() ==> !text::is_white(#[trigger] word[i])) ==> words_of(word)
            == seq![word],
        (forall|i: int| 0 <= i < word.len() ==> text::is_white(#[trigger] word[i])) ==> words_of(
            word,
        ) == Seq::<Seq<char>>::empty(),
    decreases word.len(),
{
    lemma_word_len(word);
    let k = word_len(word);
    if word.len() > 0 && (forall|i: int|
        0 <= i < word.len() ==> !text::is_white(#[trigger] word[i])) {
        assert(k == word.len());
        assert(word.take(k) =~= word);
        assert(word.skip(k) =~= Seq::empty());
        assert(words_of(word.skip(k)) =~= Seq::empty());
        assert(words_of(word) =~= seq![word]);
    }
    if word.len() > 0 && (forall|i: int| 0 <= i < word.len() ==> text::is_white(#[trigger] word[i])) {
        let rest = word.drop_first();
        assert forall|i: int| 0 <= i < rest.len() implies text::is_white(#[trigger] rest[i]) by {
            assert(rest[i] == word[i + 1]);
        }
        assert(text::is_white(word[0]));
        law_one_word(rest);
    }
}

proof fn lemma_found_where_it_begins(hay: Seq<char>, needle: Seq<char>, bad: int)
    requires
        0 <= bad < needle.len(),
        forall|i: int|
            0 <= i <= hay.len() - needle.len() ==> text::lower_char(#[trigger] hay[i + bad])
                != needle[bad],
    ensures
        !search::occurs(hay, needle),
{
    if search::occurs(hay, needle) {
        let i = choose|i: int| #[trigger] search::occurs_at(hay, needle, i);
        let part = hay.subrange(i, i + needle.len());
        assert(text::lowered(part)[bad] == needle[bad]);
        assert(part[bad] == hay[i + bad]);
    }
}

proof fn lemma_found_in_itself(word: Seq<char>)
    requires
        text::lowered(word) == word,
    ensures
        search::occurs(word, word),
{
    assert(word.subrange(0, word.len() as int) =~= word);
    assert(search::occurs_at(word, word, 0));
}

proof fn lemma_kind_words()
    ensures
        "文本"@ == seq!['文', '本'],
        "图片"@ == seq!['图', '片'],
        "文件"@ == seq!['文', '件'],
        "text"@ == seq!['t', 'e', 'x', 't'],
        "image"@ == seq!['i', 'm', 'a', 'g', 'e'],
        "files"@ == seq!['f', 'i', 'l', 'e', 's'],
        "kind:"@ == seq!['k', 'i', 'n', 'd', ':'],
{
    reveal_strlit("文本");
    reveal_strlit("图片");
    reveal_strlit("文件");
    reveal_strlit("text");
    reveal_strlit("image");
    reveal_strlit("files");
    reveal_strlit("kind:");
    assert("文本"@ =~= seq!['文', '本']);
    assert("图片"@ =~= seq!['图', '片']);
    assert("文件"@ =~= seq!['文', '件']);
    assert("text"@ =~= seq!['t', 'e', 'x', 't']);
    assert("image"@ =~= seq!['i', 'm', 'a', 'g', 'e']);
    assert("files"@ =~= seq!['f', 'i', 'l', 'e', 's']);
    assert("kind:"@ =~= seq!['k', 'i', 'n', 'd', ':']);
}

proof fn lemma_word_of_one_kind(kind: ClipKind, other: ClipKind)
    ensures
        search::occurs(kind_label(other), kind_label(kind)) == (kind == other),
        search::occurs(clip::kind_name(other), clip::kind_name(kind)) == (kind == other),
        !search::occurs(clip::kind_name(other), kind_label(kind)),
        !search::occurs(kind_label(other), clip::kind_name(kind)),
{
    lemma_kind_words();
    let label = kind_label(kind);
    let name = clip::kind_name(kind);
    let hay = kind_label(other);
    let names = clip::kind_name(other);
    assert(text::lowered(label) =~= label);
    assert(text::lowered(name) =~= name);
    lemma_found_where_it_begins(names, label, 0);
    lemma_found_where_it_begins(hay, name, 0);
    if kind == other {
        lemma_found_in_itself(label);
        lemma_found_in_itself(name);
    } else {
        lemma_found_where_it_begins(hay, label, 1);
        lemma_found_where_it_begins(names, name, 0);
    }
}

proof fn lemma_one_term(clip: ClipView, word: Seq<char>)
    requires
        word.len() > 0,
        forall|i: int| 0 <= i < word.len() ==> !text::is_white(#[trigger] word[i]),
    ensures
        matching(clip, word) <==> hits(clip, term_of(word)),
{
    law_one_word(word);
    assert(terms_of(word) =~= seq![term_of(word)]);
    assert(terms_of(word)[0] == term_of(word));
}

proof fn lemma_kind_term(value: Seq<char>)
    requires
        value == "文本"@ || value == "图片"@ || value == "文件"@ || value == "text"@ || value
            == "image"@ || value == "files"@,
    ensures
        forall|i: int|
            0 <= i < ("kind:"@ + value).len() ==> !text::is_white(#[trigger] ("kind:"@ + value)[i]),
        ("kind:"@ + value).len() > 0,
{
    lemma_kind_words();
    let word = "kind:"@ + value;
    assert forall|i: int| 0 <= i < word.len() implies !text::is_white(#[trigger] word[i]) by {
        if i < 5 {
            assert(word[i] == "kind:"@[i]);
        } else {
            assert(word[i] == value[i - 5]);
        }
    }
}

/// Text is called 文本, an image 图片 and a file list 文件, and a search for the word
/// of a kind, or for the name it is kept under, finds exactly the clips of that kind.
pub proof fn law_kind_is_searched_by_its_word(kind: ClipKind, clip: ClipView)
    ensures
        kind is Text ==> kind_label(kind) == "文本"@,
        kind is Image ==> kind_label(kind) == "图片"@,
        kind is Files ==> kind_label(kind) == "文件"@,
        kind_label(kind) == kind_label(clip.kind) ==> kind == clip.kind,
        matching(clip, "kind:"@ + kind_label(kind)) <==> clip.kind == kind,
        matching(clip, "kind:"@ + clip::kind_name(kind)) <==> clip.kind == kind,
{
    let label = kind_label(kind);
    let name = clip::kind_name(kind);
    lemma_word_of_one_kind(kind, clip.kind);
    lemma_word_of_one_kind(kind, kind);
    lemma_kind_term(label);
    lemma_kind_term(name);
    lemma_one_term(clip, "kind:"@ + label);
    lemma_one_term(clip, "kind:"@ + name);
    law_prefix_names_the_field(clip, label, Seq::empty());
    law_prefix_names_the_field(clip, name, Seq::empty());
}

/// A word typed into the search box finds the clips that have it in them, in any
/// case: somewhere in what was copied stand the same characters.
pub proof fn law_typed_word_is_found(clip: ClipView, word: Seq<char>)
    requires
        word.len() > 0,
        forall|i: int| 0 <= i < word.len() ==> !text::is_white(#[trigger] word[i]),
        !word.contains(':'),
    ensures
        store::needle_of(word) == Some(text::lowered(word)),
        matching(clip, text::lowered(word)) <==> exists|i: int|
            0 <= i <= clip.text.len() - word.len() && text::lowered(
                #[trigger] clip.text.subrange(i, i + word.len()),
            ) == text::lowered(word),
{
    let low = text::lowered(word);
    text::lemma_trimmed_whole(word);
    assert forall|i: int| 0 <= i < low.len() implies !text::is_white(#[trigger] low[i]) && low[i]
        != ':' by {
        assert(!text::is_white(word[i]));
        assert(word.contains(word[i]));
    }
    lemma_one_term(clip, low);
    reveal_strlit("app:");
    reveal_strlit("title:");
    reveal_strlit("time:");
    reveal_strlit("machine:");
    reveal_strlit("kind:");
    lemma_begins_otherwise(low, "app:"@, 3);
    lemma_begins_otherwise(low, "title:"@, 5);
    lemma_begins_otherwise(low, "time:"@, 4);
    lemma_begins_otherwise(low, "machine:"@, 7);
    lemma_begins_otherwise(low, "kind:"@, 4);
    law_prefix_names_the_field(clip, low, low);
    assert(matching(clip, low) <==> search::occurs(clip.text, low));
    if search::occurs(clip.text, low) {
        let i = choose|i: int| #[trigger] search::occurs_at(clip.text, low, i);
        assert(text::lowered(clip.text.subrange(i, i + word.len())) == low);
    }
    if exists|i: int|
        0 <= i <= clip.text.len() - word.len() && text::lowered(
            #[trigger] clip.text.subrange(i, i + word.len()),
        ) == low {
        let i = choose|i: int|
            0 <= i <= clip.text.len() - word.len() && text::lowered(
                #[trigger] clip.text.subrange(i, i + word.len()),
            ) == low;
        assert(search::occurs_at(clip.text, low, i));
    }
}

} // verus!
