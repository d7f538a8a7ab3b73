//! Windows paths as text. Both separators are understood; the one written is
//! the backslash. Drive (`C:`) and share (`\\server\share`) prefixes are told
//! apart from names; the `\\?\` spellings get no treatment of their own.

use vstd::prelude::*;

use crate::text;

verus! {

pub open spec fn is_sep(c: char) -> bool {
    c == '\\' || c == '/'
}

pub fn sep(c: char) -> (r: bool)
    ensures
        r == is_sep(c),
{
    c == '\\' || c == '/'
}

pub open spec fn is_letter(c: char) -> bool {
    ('a' <= c && c <= 'z') || ('A' <= c && c <= 'Z')
}

/// Whether the path begins with a drive, such as `C:`.
pub open spec fn has_drive(s: Seq<char>) -> bool {
    s.len() >= 2 && is_letter(s[0]) && s[1] == ':'
}

/// Whether the path begins with a share: two separators and then a name.
pub open spec fn has_share(s: Seq<char>) -> bool {
    s.len() >= 3 && is_sep(s[0]) && is_sep(s[1]) && !is_sep(s[2])
}

/// Where the name that begins at `i` ends.
pub open spec fn name_end(s: Seq<char>, i: int) -> int
    decreases s.len() - i,
{
    if 0 <= i < s.len() && !is_sep(s[i]) {
        name_end(s, i + 1)
    } else {
        i
    }
}

/// How much of the path its drive or its share takes.
pub open spec fn prefix_len(s: Seq<char>) -> int {
    if has_drive(s) {
        2
    } else if has_share(s) {
        let server = name_end(s, 2);
        if server < s.len() {
            name_end(s, server + 1)
        } else {
            server
        }
    } else {
        0
    }
}

/// Whether a separator follows the prefix, so that the path starts at a root.
pub open spec fn is_rooted(s: Seq<char>) -> bool {
    prefix_len(s) < s.len() && is_sep(s[prefix_len(s)])
}

/// The part of the path that holds no names: the prefix and the root after it.
pub open spec fn root_len(s: Seq<char>) -> int {
    if is_rooted(s) {
        prefix_len(s) + 1
    } else {
        prefix_len(s)
    }
}

/// Whether `s[..end]` ends in a separator, or in a `.` that stands for the
/// folder it is in; a leading `.` stands for itself.
pub open spec fn ends_in_nothing(s: Seq<char>, root: int, end: int) -> bool {
    &&& root < end <= s.len()
    &&& {
        ||| is_sep(s[end - 1])
        ||| s[end - 1] == '.' && (end - 1 == root || is_sep(s[end - 2])) && !(end - 1 == root
            && !is_rooted(s))
    }
}

/// Where the last name of `s[..end]` ends.
pub open spec fn last_end(s: Seq<char>, root: int, end: int) -> int
    decreases end,
{
    if 0 <= root && ends_in_nothing(s, root, end) {
        last_end(s, root, end - 1)
    } else {
        end
    }
}

/// Where the last name of `s[..end]` begins.
pub open spec fn last_start(s: Seq<char>, root: int, end: int) -> int
    decreases end,
{
    if 0 <= root < end <= s.len() && !is_sep(s[end - 1]) {
        last_start(s, root, end - 1)
    } else {
        end
    }
}

pub proof fn lemma_prefix(s: Seq<char>)
    ensures
        0 <= prefix_len(s) <= root_len(s) <= s.len(),
{
    lemma_name_end(s, 2);
    if name_end(s, 2) < s.len() {
        lemma_name_end(s, name_end(s, 2) + 1);
    }
}

proof fn lemma_name_end(s: Seq<char>, i: int)
    ensures
        i <= name_end(s, i),
        0 <= i <= s.len() ==> name_end(s, i) <= s.len(),
    decreases s.len() - i,
{
    if 0 <= i < s.len() && !is_sep(s[i]) {
        lemma_name_end(s, i + 1);
    }
}

pub proof fn lemma_last(s: Seq<char>, root: int, end: int)
    requires
        0 <= root <= end <= s.len(),
    ensures
        root <= last_start(s, root, end) <= end,
        root <= last_end(s, root, end) <= end,
        forall|i: int| last_start(s, root, end) <= i < end ==> !is_sep(#[trigger] s[i]),
    decreases end,
{
    if ends_in_nothing(s, root, end) {
        lemma_last(s, root, end - 1);
    }
    if root < end && !is_sep(s[end - 1]) {
        lemma_last(s, root, end - 1);
    }
}

/// Where the last component begins and ends.
pub open spec fn last_part(s: Seq<char>) -> (int, int) {
    let root = root_len(s);
    let end = last_end(s, root, s.len() as int);
    (last_start(s, root, end), end)
}

/// The last name of the path; `None` when it ends in a root, in `..` or in a
/// leading `.`.
pub open spec fn file_name_of(s: Seq<char>) -> Option<Seq<char>> {
    let (start, end) = last_part(s);
    let name = s.subrange(start, end);
    if start == end || name == seq!['.', '.'] || name == seq!['.'] {
        None
    } else {
        Some(name)
    }
}

/// The path without its last component; `None` when it has none.
pub open spec fn parent_of(s: Seq<char>) -> Option<Seq<char>> {
    let (start, end) = last_part(s);
    if start == end {
        None
    } else {
        Some(s.take(last_end(s, root_len(s), start)))
    }
}

/// `name` inside `folder`, as appending a path does it: a name that brings its
/// own drive or share stands alone, and one that starts at a root keeps only the
/// folder's drive.
pub open spec fn joined(folder: Seq<char>, name: Seq<char>) -> Seq<char> {
    if has_drive(name) || has_share(name) {
        name
    } else if name.len() > 0 && is_sep(name[0]) {
        folder.take(prefix_len(folder)) + name
    } else if folder.len() == 0 || is_sep(folder.last()) || (has_drive(folder) && folder.len()
        == 2) {
        folder + name
    } else {
        folder.push('\\') + name
    }
}

/// The path with its last name replaced; with nothing to replace, the name goes
/// below the path.
pub open spec fn renamed(s: Seq<char>, name: Seq<char>) -> Seq<char> {
    if file_name_of(s) is Some {
        joined(parent_of(s)->0, name)
    } else {
        joined(s, name)
    }
}

fn prefix_of(chars: &Vec<char>) -> (n: usize)
    ensures
        n == prefix_len(chars@),
        n <= chars@.len(),
{
    let len = chars.len();
    proof {
        lemma_prefix(chars@);
    }
    if len >= 2 && ((chars[0] >= 'a' && chars[0] <= 'z') || (chars[0] >= 'A' && chars[0] <= 'Z'))
        && chars[1] == ':' {
        return 2;
    }
    if len >= 3 && sep(chars[0]) && sep(chars[1]) && !sep(chars[2]) {
        let server = skip_name(chars, 2);
        if server < len {
            return skip_name(chars, server + 1);
        }
        return server;
    }
    0
}

fn skip_name(chars: &Vec<char>, from: usize) -> (end: usize)
    requires
        from <= chars@.len(),
    ensures
        end == name_end(chars@, from as int),
        from <= end <= chars@.len(),
{
    let mut i: usize = from;
    while i < chars.len() && !sep(chars[i])
        invariant
            from <= i <= chars@.len(),
            name_end(chars@, i as int) == name_end(chars@, from as int),
        decreases chars@.len() - i,
    {
        i += 1;
    }
    i
}

fn root_of(chars: &Vec<char>) -> (n: usize)
    ensures
        n == root_len(chars@),
        n <= chars@.len(),
{
    let n = prefix_of(chars);
    if n < chars.len() && sep(chars[n]) {
        n + 1
    } else {
        n
    }
}

fn back_over_nothing(chars: &Vec<char>, root: usize, end: usize) -> (r: usize)
    requires
        root == root_len(chars@),
        root <= end <= chars@.len(),
    ensures
        r == last_end(chars@, root as int, end as int),
        root <= r <= end,
{
    let prefix = prefix_of(chars);
    let rooted = prefix < root;
    let mut i: usize = end;
    while i > root && (sep(chars[i - 1]) || (chars[i - 1] == '.' && (i - 1 == root || sep(
        chars[i - 2],
    )) && !(i - 1 == root && !rooted)))
        invariant
            root <= i <= end <= chars@.len(),
            root == root_len(chars@),
            rooted == is_rooted(chars@),
            last_end(chars@, root as int, i as int) == last_end(chars@, root as int, end as int),
        decreases i,
    {
        i -= 1;
    }
    i
}

fn back_over_name(chars: &Vec<char>, root: usize, end: usize) -> (r: usize)
    requires
        root <= end <= chars@.len(),
    ensures
        r == last_start(chars@, root as int, end as int),
        root <= r <= end,
{
    let mut i: usize = end;
    while i > root && !sep(chars[i - 1])
        invariant
            root <= i <= end <= chars@.len(),
            last_start(chars@, root as int, i as int) == last_start(
                chars@,
                root as int,
                end as int,
            ),
        decreases i,
    {
        i -= 1;
    }
    i
}

pub fn file_name(path: &str) -> (r: Option<String>)
    ensures
        text::opt_view(r) == file_name_of(path@),
{
    let chars = text::chars_of(path);
    let root = root_of(&chars);
    let end = back_over_nothing(&chars, root, chars.len());
    let start = back_over_name(&chars, root, end);
    if start == end {
        return None;
    }
    let name = text::string_of(&chars, start, end);
    if end - start == 1 && chars[start] == '.' {
        assert(name@ =~= seq!['.']);
        return None;
    }
    if end - start == 2 && chars[start] == '.' && chars[start + 1] == '.' {
        assert(name@ =~= seq!['.', '.']);
        return None;
    }
    assert(name@ != seq!['.']) by {
        if name@ == seq!['.'] {
            assert(name@[0] == '.' && name@.len() == 1);
        }
    }
    assert(name@ != seq!['.', '.']) by {
        if name@ == seq!['.', '.'] {
            assert(name@[0] == '.' && name@[1] == '.' && name@.len() == 2);
        }
    }
    Some(name)
}

pub fn parent(path: &str) -> (r: Option<String>)
    ensures
        text::opt_view(r) == parent_of(path@),
{
    let chars = text::chars_of(path);
    let root = root_of(&chars);
    let end = back_over_nothing(&chars, root, chars.len());
    let start = back_over_name(&chars, root, end);
    if start == end {
        return None;
    }
    let stop = back_over_nothing(&chars, root, start);
    let folder = text::string_of(&chars, 0, stop);
    assert(folder@ =~= path@.take(stop as int));
    Some(folder)
}

pub fn join(folder: &str, name: &str) -> (r: String)
    ensures
        r@ == joined(folder@, name@),
{
    let head = text::chars_of(folder);
    let tail = text::chars_of(name);
    let own_drive = tail.len() >= 2 && ((tail[0] >= 'a' && tail[0] <= 'z') || (tail[0] >= 'A'
        && tail[0] <= 'Z')) && tail[1] == ':';
    let own_share = tail.len() >= 3 && sep(tail[0]) && sep(tail[1]) && !sep(tail[2]);
    if own_drive || own_share {
        return name.to_owned();
    }
    if tail.len() > 0 && sep(tail[0]) {
        let mut r = text::string_of(&head, 0, prefix_of(&head));
        r.append(name);
        assert(r@ =~= joined(folder@, name@));
        return r;
    }
    let mut r = folder.to_owned();
    let n = head.len();
    let bare_drive = n == 2 && ((head[0] >= 'a' && head[0] <= 'z') || (head[0] >= 'A' && head[0]
        <= 'Z')) && head[1] == ':';
    if n > 0 && !sep(head[n - 1]) && !bare_drive {
        r.push('\\');
    }
    r.append(name);
    assert(r@ =~= joined(folder@, name@));
    r
}

pub fn with_file_name(path: &str, name: &str) -> (r: String)
    ensures
        r@ == renamed(path@, name@),
{
    if file_name(path).is_some() {
        match parent(path) {
            Some(folder) => join(&folder, name),
            None => join(path, name),
        }
    } else {
        join(path, name)
    }
}

/// `name` in the folder that holds `path`.
pub open spec fn sibling(path: Seq<char>, name: Seq<char>) -> Seq<char> {
    match parent_of(path) {
        Some(folder) => joined(folder, name),
        None => joined(Seq::empty(), name),
    }
}

pub fn sibling_path(path: &str, name: &str) -> (r: String)
    ensures
        r@ == sibling(path@, name@),
{
    match parent(path) {
        Some(folder) => join(&folder, name),
        None => {
            let empty = String::new();
            join(&empty, name)
        },
    }
}

/// A name that stands for a file in whatever folder it is put: no separator, no
/// drive, and neither `.` nor `..`.
pub open spec fn is_file_name(name: Seq<char>) -> bool {
    &&& name.len() > 0
    &&& forall|i: int| 0 <= i < name.len() ==> !is_sep(#[trigger] name[i])
    &&& !has_drive(name)
    &&& name != seq!['.']
    &&& name != seq!['.', '.']
}

proof fn lemma_same_name_end(s: Seq<char>, t: Seq<char>, i: int, shared: int)
    requires
        0 <= i <= shared <= s.len(),
        shared <= t.len(),
        forall|j: int| 0 <= j < shared ==> s[j] == t[j],
        name_end(s, i) < shared,
    ensures
        name_end(t, i) == name_end(s, i),
    decreases s.len() - i,
{
    lemma_name_end(s, i);
    if i < s.len() && !is_sep(s[i]) {
        lemma_name_end(s, i + 1);
        lemma_same_name_end(s, t, i + 1, shared);
    }
}

/// The last name begins right after the last separator, or at the root.
pub proof fn lemma_last_start_is(s: Seq<char>, root: int, start: int, end: int)
    requires
        0 <= root <= start <= end <= s.len(),
        start == root || is_sep(s[start - 1]),
        forall|i: int| start <= i < end ==> !is_sep(#[trigger] s[i]),
    ensures
        last_start(s, root, end) == start,
    decreases end,
{
    if start < end {
        assert(!is_sep(s[end - 1]));
        lemma_last_start_is(s, root, start, end - 1);
    }
}

proof fn lemma_last_end_stops(s: Seq<char>, root: int, end: int)
    requires
        0 <= root <= end <= s.len(),
    ensures
        !ends_in_nothing(s, root, last_end(s, root, end)),
    decreases end,
{
    if ends_in_nothing(s, root, end) {
        lemma_last_end_stops(s, root, end - 1);
    }
}

/// A path that has no root after its share ends with the share.
proof fn lemma_share_is_rooted(s: Seq<char>)
    requires
        has_share(s),
        !has_drive(s),
        prefix_len(s) < s.len(),
    ensures
        is_rooted(s),
        name_end(s, 2) < prefix_len(s),
{
    let server = name_end(s, 2);
    lemma_name_end(s, 2);
    lemma_name_end_is_sep(s, 2);
    if server < s.len() {
        lemma_name_end(s, server + 1);
        lemma_name_end_is_sep(s, server + 1);
    }
}

proof fn lemma_name_end_is_sep(s: Seq<char>, i: int)
    requires
        0 <= i <= s.len(),
    ensures
        name_end(s, i) < s.len() ==> is_sep(s[name_end(s, i)]),
    decreases s.len() - i,
{
    if i < s.len() && !is_sep(s[i]) {
        lemma_name_end_is_sep(s, i + 1);
    }
}

/// The root of a path is still there when what follows it changes.
proof fn lemma_root_kept(s: Seq<char>, e: int, t: Seq<char>)
    requires
        root_len(s) <= e < s.len(),
        e < t.len(),
        forall|i: int| 0 <= i < e ==> t[i] == s[i],
        e > root_len(s) ==> !is_sep(s[e - 1]) && is_sep(t[e]),
        e == root_len(s) ==> !is_sep(t[e]),
        e == 0 ==> !has_drive(t),
    ensures
        prefix_len(t) == prefix_len(s),
        is_rooted(t) == is_rooted(s),
        root_len(t) == root_len(s),
{
    lemma_prefix(s);
    let n = prefix_len(s);
    if has_drive(s) {
        assert(t[0] == s[0] && t[1] == s[1]);
    } else if has_share(s) {
        lemma_share_is_rooted(s);
        let server = name_end(s, 2);
        lemma_name_end(s, 2);
        lemma_name_end(s, server + 1);
        assert(e >= n + 1);
        assert(t[0] == s[0] && t[1] == s[1] && t[2] == s[2]);
        assert(!is_letter(s[0]));
        lemma_same_name_end(s, t, 2, e);
        lemma_same_name_end(s, t, server + 1, e);
    } else {
        assert(n == 0);
        if e >= 1 {
            assert(t[0] == s[0]);
        }
        if e >= 2 {
            assert(t[1] == s[1]);
        }
        if e >= 3 {
            assert(t[2] == s[2]);
        }
        assert(!has_drive(t));
        assert(!has_share(t));
    }
    assert(prefix_len(t) == n);
    if e > n {
        assert(t[n] == s[n]);
    }
}

/// A file put beside another is in the same folder, under the name it was given.
pub proof fn law_sibling_stands_beside(path: Seq<char>, name: Seq<char>)
    requires
        parent_of(path) is Some,
        is_file_name(name),
    ensures
        parent_of(sibling(path, name)) == parent_of(path),
        file_name_of(sibling(path, name)) == Some(name),
{
    let root = root_len(path);
    let (start, end) = last_part(path);
    lemma_prefix(path);
    lemma_last(path, root, path.len() as int);
    lemma_last(path, root, end);
    lemma_last(path, root, start);
    lemma_last_end_stops(path, root, start);
    let e = last_end(path, root, start);
    let folder = path.take(e);
    let t = sibling(path, name);
    assert(!is_sep(name[0]));
    assert(!is_sep(name.last()));
    assert(e < path.len());
    // A folder that ends at the root takes the name as it is; one that ends in a
    // name gets a separator first.
    if e > root {
        assert(!is_sep(path[e - 1]));
        assert(folder.last() == path[e - 1]);
        assert(t =~= folder.push('\\') + name);
        assert(t[e] == '\\');
    } else {
        if is_rooted(path) {
            assert(folder.last() == path[root - 1]);
        } else if has_drive(path) {
            assert(folder[0] == path[0] && folder[1] == path[1]);
        } else if has_share(path) {
            lemma_share_is_rooted(path);
        } else {
            assert(folder.len() == 0);
        }
        assert(t =~= folder + name);
        assert(t[e] == name[0]);
        if e == 0 {
            assert(t =~= name);
        }
    }
    assert forall|i: int| 0 <= i < e implies t[i] == path[i] by {
        assert(folder[i] == path[i]);
    }
    lemma_root_kept(path, e, t);
    let len = t.len() as int;
    let k = len - name.len();
    assert forall|i: int| k <= i < len implies !is_sep(#[trigger] t[i]) by {
        assert(t[i] == name[i - k]);
    }
    assert(!ends_in_nothing(t, root, len)) by {
        assert(t[len - 1] == name.last());
        if name.len() == 1 {
            assert(name =~= seq![name[0]]);
        } else {
            assert(t[len - 2] == name[name.len() - 2]);
        }
    }
    lemma_last_start_is(t, root, k, len);
    assert(t.subrange(k, len) =~= name);
    assert(last_part(t) == (k, len));
    if e > root {
        assert(ends_in_nothing(t, root, e + 1));
        assert(t[e - 1] == path[e - 1]);
        if e - 1 > root {
            assert(t[e - 2] == path[e - 2]);
        }
        assert(!ends_in_nothing(t, root, e)) by {
            if e - 1 == root && root > 0 {
                assert(t[e - 2] == path[e - 2]);
            }
        }
        assert(last_end(t, root, e) == e);
        assert(last_end(t, root, k) == e);
    }
    assert(t.take(e) =~= folder);
}

// -------------------------------------------------------------------- equality

/// The components of `s[i..]`: its names, less the empty ones and the `.`s.
pub open spec fn names_from(s: Seq<char>, i: int) -> Seq<Seq<char>>
    decreases s.len() - i,
    when 0 <= i
{
    if i >= s.len() {
        Seq::empty()
    } else if is_sep(s[i]) {
        names_from(s, i + 1)
    } else {
        let end = name_end(s, i);
        let name = s.subrange(i, end);
        if end <= i || end > s.len() {
            Seq::empty()
        } else if name == seq!['.'] {
            names_from(s, end)
        } else {
            seq![name] + names_from(s, end)
        }
    }
}

/// What a path names: its drive without regard to case, whether it is a share,
/// whether it starts at a root, whether it starts at the current folder, and the
/// names below that.
pub struct PathModel {
    pub drive: Option<char>,
    pub share: bool,
    pub rooted: bool,
    pub leading_dot: bool,
    pub names: Seq<Seq<char>>,
}

pub open spec fn leads_with_dot(s: Seq<char>) -> bool {
    let i = prefix_len(s);
    i < s.len() && s[i] == '.' && (i + 1 == s.len() || is_sep(s[i + 1]))
}

pub open spec fn model(s: Seq<char>) -> PathModel {
    PathModel {
        drive: if has_drive(s) {
            Some(text::upper_char(s[0]))
        } else {
            None
        },
        share: has_share(s),
        rooted: is_rooted(s) || has_share(s),
        leading_dot: leads_with_dot(s),
        names: names_from(
            s,
            if has_drive(s) {
                2
            } else {
                0
            },
        ),
    }
}

fn names_after(chars: &Vec<char>, from: usize) -> (names: Vec<String>)
    requires
        from <= chars@.len(),
    ensures
        text::views(names@) == names_from(chars@, from as int),
{
    let mut names: Vec<String> = Vec::new();
    let mut i: usize = from;
    assert(text::views(names@) =~= Seq::<Seq<char>>::empty());
    while i < chars.len()
        invariant
            from <= i <= chars@.len(),
            text::views(names@) + names_from(chars@, i as int) =~= names_from(chars@, from as int),
        decreases chars@.len() - i,
    {
        if sep(chars[i]) {
            i += 1;
        } else {
            let end = skip_name(chars, i);
            proof {
                lemma_name_end(chars@, i as int + 1);
            }
            assert(end > i);
            let name = text::string_of(chars, i, end);
            if end - i == 1 && chars[i] == '.' {
                assert(name@ =~= seq!['.']);
            } else {
                assert(name@ != seq!['.']) by {
                    if name@ == seq!['.'] {
                        assert(name@[0] == '.' && name@.len() == 1);
                    }
                }
                let ghost before = names@;
                names.push(name);
                assert(text::views(names@) =~= text::views(before).push(name@));
            }
            i = end;
        }
    }
    assert(text::views(names@) =~= names_from(chars@, from as int));
    names
}

/// Whether two spellings name the same path.
pub fn same_path(a: &str, b: &str) -> (r: bool)
    ensures
        r == (model(a@) == model(b@)),
{
    let left = text::chars_of(a);
    let right = text::chars_of(b);
    let left_prefix = prefix_of(&left);
    let right_prefix = prefix_of(&right);
    let left_drive = left.len() >= 2 && ((left[0] >= 'a' && left[0] <= 'z') || (left[0] >= 'A'
        && left[0] <= 'Z')) && left[1] == ':';
    let right_drive = right.len() >= 2 && ((right[0] >= 'a' && right[0] <= 'z') || (right[0] >= 'A'
        && right[0] <= 'Z')) && right[1] == ':';
    if left_drive != right_drive {
        return false;
    }
    if left_drive && text::to_upper_char(left[0]) != text::to_upper_char(right[0]) {
        return false;
    }
    let left_share = left.len() >= 3 && sep(left[0]) && sep(left[1]) && !sep(left[2]);
    let right_share = right.len() >= 3 && sep(right[0]) && sep(right[1]) && !sep(right[2]);
    if left_share != right_share {
        return false;
    }
    let left_rooted = left_share || (left_prefix < left.len() && sep(left[left_prefix]));
    let right_rooted = right_share || (right_prefix < right.len() && sep(right[right_prefix]));
    if left_rooted != right_rooted {
        return false;
    }
    let left_dot = left_prefix < left.len() && left[left_prefix] == '.' && (left_prefix + 1
        == left.len() || sep(left[left_prefix + 1]));
    let right_dot = right_prefix < right.len() && right[right_prefix] == '.' && (right_prefix + 1
        == right.len() || sep(right[right_prefix + 1]));
    if left_dot != right_dot {
        return false;
    }
    let left_from: usize = if left_drive {
        2
    } else {
        0
    };
    let right_from: usize = if right_drive {
        2
    } else {
        0
    };
    let ours = names_after(&left, left_from);
    let theirs = names_after(&right, right_from);
    same_list(&ours, &theirs)
}

/// Whether two lists spell the same strings.
pub fn same_list(a: &Vec<String>, b: &Vec<String>) -> (r: bool)
    ensures
        r == (text::views(a@) == text::views(b@)),
{
    if a.len() != b.len() {
        assert(text::views(a@).len() != text::views(b@).len());
        return false;
    }
    let mut i: usize = 0;
    while i < a.len()
        invariant
            i <= a@.len(),
            a@.len() == b@.len(),
            forall|j: int| 0 <= j < i ==> #[trigger] a@[j]@ == b@[j]@,
        decreases a@.len() - i,
    {
        if !text::same_text(&a[i], &b[i]) {
            assert(text::views(a@)[i as int] != text::views(b@)[i as int]);
            return false;
        }
        i += 1;
    }
    assert(text::views(a@) =~= text::views(b@));
    true
}

// --------------------------------------------------------------------- the laws

/// A backslash and a slash separate names, and nothing else does.
pub proof fn law_separators(c: char)
    ensures
        is_sep(c) <==> c == '\\' || c == '/',
{
}

/// A name put into a folder stands after the folder's own text, with a separator
/// between them unless the folder ends in one.
pub proof fn law_joined(folder: Seq<char>, name: Seq<char>)
    requires
        is_file_name(name),
        folder.len() > 0,
        !(has_drive(folder) && folder.len() == 2),
    ensures
        !is_sep(folder.last()) ==> joined(folder, name) == folder.push('\\') + name,
        is_sep(folder.last()) ==> joined(folder, name) == folder + name,
{
    assert(!is_sep(name[0]));
}

proof fn lemma_name_end_before(a: Seq<char>, s: Seq<char>, i: int)
    requires
        0 <= i <= a.len() < s.len(),
        forall|j: int| 0 <= j < a.len() ==> s[j] == a[j],
        is_sep(s[a.len() as int]),
    ensures
        name_end(s, i) == name_end(a, i),
    decreases a.len() - i,
{
    if i < a.len() && !is_sep(a[i]) {
        lemma_name_end_before(a, s, i + 1);
    }
}

proof fn lemma_name_end_whole(s: Seq<char>, i: int)
    requires
        0 <= i <= s.len(),
        forall|j: int| i <= j < s.len() ==> !is_sep(#[trigger] s[j]),
    ensures
        name_end(s, i) == s.len(),
    decreases s.len() - i,
{
    if i < s.len() {
        assert(!is_sep(s[i]));
        lemma_name_end_whole(s, i + 1);
    }
}

proof fn lemma_one_more_name(a: Seq<char>, name: Seq<char>, i: int)
    requires
        0 <= i <= a.len(),
        forall|j: int| 0 <= j < name.len() ==> !is_sep(#[trigger] name[j]),
    ensures
        names_from(a.push('\\') + name, i) == (if name.len() == 0 || name == seq!['.'] {
            names_from(a, i)
        } else {
            names_from(a, i).push(name)
        }),
    decreases a.len() - i,
{
    let s = a.push('\\') + name;
    let n = a.len() as int;
    assert(s[n] == '\\');
    assert forall|j: int| 0 <= j < a.len() implies s[j] == a[j] by {}
    if i == n {
        assert forall|j: int| n + 1 <= j < s.len() implies !is_sep(#[trigger] s[j]) by {
            assert(s[j] == name[j - n - 1]);
        }
        lemma_name_end_whole(s, n + 1);
        assert(s.subrange(n + 1, s.len() as int) =~= name);
        assert(names_from(s, s.len() as int) =~= Seq::empty());
        assert(names_from(a, i) =~= Seq::empty());
        if name.len() > 0 && name != seq!['.'] {
            assert(names_from(s, n + 1) =~= seq![name]);
            assert(names_from(s, i) =~= names_from(a, i).push(name));
        } else {
            assert(names_from(s, n + 1) =~= Seq::empty());
            assert(names_from(s, i) =~= names_from(a, i));
        }
    } else if is_sep(a[i]) {
        lemma_one_more_name(a, name, i + 1);
        assert(names_from(s, i) == names_from(s, i + 1));
        assert(names_from(a, i) == names_from(a, i + 1));
    } else {
        lemma_name_end(a, i);
        lemma_name_end(a, i + 1);
        lemma_name_end_before(a, s, i);
        let end = name_end(a, i);
        assert(end > i && end <= n);
        lemma_one_more_name(a, name, end);
        assert(s.subrange(i, end) =~= a.subrange(i, end));
        if name.len() > 0 && name != seq!['.'] {
            assert(names_from(s, i) =~= names_from(a, i).push(name));
        } else {
            assert(names_from(s, i) =~= names_from(a, i));
        }
    }
}

/// A file in a folder has the folder's names and then its own, so files of different
/// names, and equal names in folders of different names, are different files. Two dots
/// count as a name; one dot, or nothing, does not.
pub proof fn law_file_has_one_name_more(folder: Seq<char>, name: Seq<char>)
    requires
        folder.len() > 0,
        forall|j: int| 0 <= j < name.len() ==> !is_sep(#[trigger] name[j]),
    ensures
        name.len() > 0 && name != seq!['.'] ==> model(folder.push('\\') + name).names == model(
            folder,
        ).names.push(name),
        name.len() == 0 || name == seq!['.'] ==> model(folder.push('\\') + name).names == model(
            folder,
        ).names,
{
    let s = folder.push('\\') + name;
    assert(s[0] == folder[0]);
    if folder.len() >= 2 {
        assert(s[1] == folder[1]);
    } else {
        assert(s[1] == '\\');
    }
    assert(has_drive(s) == has_drive(folder));
    lemma_one_more_name(
        folder,
        name,
        if has_drive(folder) {
            2
        } else {
            0
        },
    );
}

/// Whether two texts differ in nothing but which separator they use.
pub open spec fn same_but_separators(s: Seq<char>, t: Seq<char>) -> bool {
    s.len() == t.len() && forall|i: int|
        0 <= i < s.len() ==> (#[trigger] s[i]) == t[i] || (is_sep(s[i]) && is_sep(t[i]))
}

proof fn lemma_name_end_either(s: Seq<char>, t: Seq<char>, i: int)
    requires
        same_but_separators(s, t),
        0 <= i <= s.len(),
    ensures
        name_end(s, i) == name_end(t, i),
        i <= name_end(s, i) <= s.len(),
        i < s.len() && !is_sep(s[i]) ==> i < name_end(s, i),
        forall|j: int| i <= j < name_end(s, i) ==> s[j] == t[j],
    decreases s.len() - i,
{
    if i < s.len() && !is_sep(s[i]) {
        assert(s[i] == t[i]);
        lemma_name_end_either(s, t, i + 1);
    } else if i < s.len() {
        assert(is_sep(t[i]));
    }
}

proof fn lemma_names_either(s: Seq<char>, t: Seq<char>, i: int)
    requires
        same_but_separators(s, t),
        0 <= i,
    ensures
        names_from(s, i) == names_from(t, i),
    decreases s.len() - i,
{
    if i < s.len() {
        if is_sep(s[i]) {
            assert(is_sep(t[i]));
            lemma_names_either(s, t, i + 1);
        } else {
            assert(s[i] == t[i]);
            lemma_name_end_either(s, t, i);
            let end = name_end(s, i);
            assert(s.subrange(i, end) =~= t.subrange(i, end));
            lemma_names_either(s, t, end);
        }
    }
}

/// It makes no difference which of the two separators a path is written with.
pub proof fn law_either_separator(s: Seq<char>, t: Seq<char>)
    requires
        same_but_separators(s, t),
    ensures
        model(s) == model(t),
{
    assert forall|i: int| 0 <= i < s.len() implies is_sep(s[i]) == is_sep(t[i]) by {
        assert(s[i] == t[i] || (is_sep(s[i]) && is_sep(t[i])));
    }
    if s.len() >= 1 {
        assert(s[0] == t[0] || (is_sep(s[0]) && is_sep(t[0])));
    }
    if s.len() >= 2 {
        assert(s[1] == t[1] || (is_sep(s[1]) && is_sep(t[1])));
    }
    if s.len() >= 3 {
        assert(s[2] == t[2] || (is_sep(s[2]) && is_sep(t[2])));
    }
    assert(has_drive(s) == has_drive(t));
    assert(has_share(s) == has_share(t));
    if has_share(s) {
        lemma_name_end_either(s, t, 2);
        if name_end(s, 2) < s.len() {
            lemma_name_end_either(s, t, name_end(s, 2) + 1);
        }
    }
    assert(prefix_len(s) == prefix_len(t));
    lemma_prefix(s);
    let n = prefix_len(s);
    if n < s.len() {
        assert(s[n] == t[n] || (is_sep(s[n]) && is_sep(t[n])));
    }
    if n + 1 < s.len() {
        assert(s[n + 1] == t[n + 1] || (is_sep(s[n + 1]) && is_sep(t[n + 1])));
    }
    lemma_names_either(
        s,
        t,
        if has_drive(s) {
            2
        } else {
            0
        },
    );
}

/// A name that brings its own drive or share stands alone; one that starts at a root
/// keeps the folder's drive and nothing else of it.
pub proof fn law_absolute_names(folder: Seq<char>, name: Seq<char>)
    ensures
        has_drive(name) ==> joined(folder, name) == name,
        has_share(name) ==> joined(folder, name) == name,
        name.len() > 0 && is_sep(name[0]) && !has_share(name) && has_drive(folder) ==> joined(
            folder,
            name,
        ) == folder.take(2) + name,
        name.len() > 0 && is_sep(name[0]) && !has_share(name) && !has_drive(folder) && !has_share(
            folder,
        ) ==> joined(folder, name) == name,
        folder.len() == 2 && has_drive(folder) && is_file_name(name) ==> joined(folder, name)
            == folder + name,
{
    assert(folder.take(0) + name =~= name);
}

/// Two paths on drives are the same when the letters are the same in upper case and what
/// follows is the same; the case of the letter makes no difference.
pub proof fn law_drive_letters(c: char, d: char, rest: Seq<char>)
    requires
        65 <= c as int <= 90 || 97 <= c as int <= 122,
        65 <= d as int <= 90 || 97 <= d as int <= 122,
    ensures
        model(seq![c, ':'] + rest) == model(seq![d, ':'] + rest) <==> c == d || c as int + 32
            == d as int || d as int + 32 == c as int,
{
    let s = seq![c, ':'] + rest;
    let t = seq![d, ':'] + rest;
    assert(has_drive(s) && has_drive(t));
    assert(!has_share(s) && !has_share(t));
    lemma_names_alike(s, t, 2);
    text::law_case(seq![c], 0);
    text::law_case(seq![d], 0);
    assert(text::uppered(seq![c])[0] == text::upper_char(c));
    assert(text::uppered(seq![d])[0] == text::upper_char(d));
}

proof fn lemma_name_ends_alike(s: Seq<char>, t: Seq<char>, i: int)
    requires
        0 <= i,
        s.len() == t.len(),
        forall|k: int| i <= k < s.len() ==> s[k] == t[k],
    ensures
        name_end(s, i) == name_end(t, i),
    decreases s.len() - i,
{
    if i < s.len() && !is_sep(s[i]) {
        lemma_name_ends_alike(s, t, i + 1);
    }
}

proof fn lemma_names_alike(s: Seq<char>, t: Seq<char>, i: int)
    requires
        0 <= i,
        s.len() == t.len(),
        forall|k: int| i <= k < s.len() ==> s[k] == t[k],
    ensures
        names_from(s, i) == names_from(t, i),
    decreases s.len() - i,
{
    if i < s.len() {
        if is_sep(s[i]) {
            lemma_names_alike(s, t, i + 1);
        } else {
            let end = name_end(s, i);
            lemma_name_ends_alike(s, t, i);
            if i < end && end <= s.len() {
                assert(s.subrange(i, end) =~= t.subrange(i, end));
                lemma_names_alike(s, t, end);
            }
        }
    }
}

/// A path starts at a root when it is on a share, when it begins with a separator, or
/// when a separator follows its drive; any other is taken from where one stands. A dot
/// in front of everything but the drive counts.
pub proof fn law_roots(s: Seq<char>)
    ensures
        model(s).share == has_share(s),
        has_share(s) ==> model(s).rooted,
        has_drive(s) ==> (model(s).rooted <==> s.len() > 2 && is_sep(s[2])),
        !has_drive(s) && !has_share(s) ==> (model(s).rooted <==> s.len() > 0 && is_sep(s[0])),
        !has_drive(s) && !has_share(s) ==> (model(s).leading_dot <==> s.len() > 0 && s[0] == '.'
            && (s.len() == 1 || is_sep(s[1]))),
        model(s).drive is Some <==> s.len() >= 2 && (65 <= s[0] as int <= 90 || 97 <= s[0] as int
            <= 122) && s[1] == ':',
        has_share(s) <==> s.len() >= 3 && is_sep(s[0]) && is_sep(s[1]) && !is_sep(s[2]),
{
}

} // verus!
