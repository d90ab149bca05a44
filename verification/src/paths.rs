//! File names and relative paths, as texts with `/` between components.
//!
//! The repository names every file relative to its root. A path here is a text
//! in normal form: components separated by single `/`, no trailing `/`, no `.`
//! or `..` component.

use crate::text::{append, chars_of, push_char, string_of_range};
use vstd::prelude::*;

verus! {

/// Whether `c` may not occur in a file name derived from a title: one of
/// `/ \ ? % * : | " < > .`, which are unsafe on common file systems or would
/// read as the start of an extension.
pub open spec fn is_prohibited(c: char) -> bool {
    c == '/' || c == '\\' || c == '?' || c == '%' || c == '*' || c == ':' || c == '|' || c == '"'
        || c == '<' || c == '>' || c == '.'
}

/// `s` without its prohibited characters.
pub open spec fn stripped(s: Seq<char>) -> Seq<char> {
    s.filter(|c: char| !is_prohibited(c))
}

/// Whether `c` is a prohibited path character.
pub fn is_prohibited_char(c: char) -> (r: bool)
    ensures
        r == is_prohibited(c),
{
    c == '/' || c == '\\' || c == '?' || c == '%' || c == '*' || c == ':' || c == '|' || c == '"'
        || c == '<' || c == '>' || c == '.'
}

/// The characters that are stripped from a title.
pub fn prohibited_path_chars() -> (r: Vec<char>)
    ensures
        r@ == seq!['/', '\\', '?', '%', '*', ':', '|', '"', '<', '>', '.'],
        forall|c: char| r@.contains(c) <==> is_prohibited(c),
{
    let r = vec!['/', '\\', '?', '%', '*', ':', '|', '"', '<', '>', '.'];
    proof {
        assert(r@[0] == '/' && r@[1] == '\\' && r@[2] == '?' && r@[3] == '%' && r@[4] == '*'
            && r@[5] == ':' && r@[6] == '|' && r@[7] == '"' && r@[8] == '<' && r@[9] == '>'
            && r@[10] == '.');
    }
    r
}

/// Removes every prohibited character from `s` and keeps the rest in order.
pub fn strip_prohibited(s: &str) -> (r: String)
    ensures
        r@ == stripped(s@),
{
    let v = chars_of(s);
    let mut out = String::new();
    let mut i: usize = 0;
    proof {
        reveal(Seq::filter);
        assert(v@.take(0) == Seq::<char>::empty());
    }
    while i < v.len()
        invariant
            i <= v.len(),
            v@ == s@,
            out@ == stripped(v@.take(i as int)),
        decreases v.len() - i,
    {
        let c = v[i];
        proof {
            let pred = |c: char| !is_prohibited(c);
            assert(v@.take(i + 1) == v@.take(i as int).push(c));
            v@.take(i as int).lemma_filter_push(c, pred);
        }
        if !is_prohibited_char(c) {
            push_char(&mut out, c);
        }
        i += 1;
    }
    assert(v@.take(v.len() as int) == v@);
    out
}

/// Nothing prohibited is left after stripping.
pub proof fn lemma_stripped_is_clean(s: Seq<char>)
    ensures
        forall|i: int| 0 <= i < stripped(s).len() ==> !is_prohibited(#[trigger] stripped(s)[i]),
{
    let pred = |c: char| !is_prohibited(c);
    assert forall|i: int| 0 <= i < stripped(s).len() implies !is_prohibited(
        #[trigger] stripped(s)[i],
    ) by {
        s.lemma_filter_pred(pred, i);
    }
}

/// A text without prohibited characters is left as it is.
pub proof fn lemma_strip_clean_text(s: Seq<char>)
    requires
        forall|i: int| 0 <= i < s.len() ==> !is_prohibited(#[trigger] s[i]),
    ensures
        stripped(s) == s,
    decreases s.len(),
{
    reveal(Seq::filter);
    if s.len() > 0 {
        lemma_strip_clean_text(s.drop_last());
        assert(s.drop_last().push(s.last()) == s);
    }
}

/// Stripping is idempotent: a second pass removes nothing more.
pub proof fn lemma_strip_idempotent(s: Seq<char>)
    ensures
        stripped(stripped(s)) == stripped(s),
{
    lemma_stripped_is_clean(s);
    lemma_strip_clean_text(stripped(s));
}

/// Whether a title can name a paper: something is left of it once the
/// prohibited characters are gone.
pub open spec fn is_valid_title(title: Seq<char>) -> bool {
    stripped(title).len() > 0
}

/// The path of the note file for a title: the stripped title, then `.md`.
pub open spec fn note_path_of(title: Seq<char>) -> Seq<char> {
    stripped(title) + seq!['.', 'm', 'd']
}

/// The name of the note file that belongs to `title`.
pub fn note_path(title: &str) -> (r: String)
    ensures
        r@ == note_path_of(title@),
{
    let base = strip_prohibited(title);
    proof {
        reveal_strlit(".md");
        assert(".md"@ == seq!['.', 'm', 'd']);
    }
    append(base.as_str(), ".md")
}

/// Two titles that differ only in prohibited characters share one note path.
pub proof fn lemma_note_path_collision(a: Seq<char>, b: Seq<char>)
    requires
        stripped(a) == stripped(b),
    ensures
        note_path_of(a) == note_path_of(b),
{
}

/// A note path names the same file however often it is derived again from
/// what was derived before: deriving from the stripped title changes nothing.
pub proof fn lemma_note_path_stable(title: Seq<char>)
    ensures
        note_path_of(stripped(title)) == note_path_of(title),
{
    lemma_strip_idempotent(title);
}

/// The note of a valid title is a file of its own in the root, with the
/// extension `md`.
pub proof fn lemma_note_path_is_a_note(title: Seq<char>)
    requires
        is_valid_title(title),
    ensures
        extension_of(note_path_of(title)) == Some(seq!['m', 'd']),
        parent_of(note_path_of(title)) is None,
        file_name_of(note_path_of(title)) == note_path_of(title),
{
    lemma_stripped_is_plain(title);
    assert(is_plain_name(seq!['m', 'd']));
    lemma_extension_of_extended(stripped(title), seq!['m', 'd']);
    assert(note_path_of(title) =~= stripped(title) + seq!['.'] + seq!['m', 'd']);
}

/// The position of the last `c` in `s`, or `-1` where there is none.
pub open spec fn last_index(s: Seq<char>, c: char) -> int
    decreases s.len(),
{
    if s.len() == 0 {
        -1
    } else if s.last() == c {
        s.len() - 1
    } else {
        last_index(s.drop_last(), c)
    }
}

/// `last_index` points at a `c` after which no `c` follows.
pub proof fn lemma_last_index(s: Seq<char>, c: char)
    ensures
        -1 <= last_index(s, c) < s.len(),
        last_index(s, c) >= 0 ==> s[last_index(s, c)] == c,
        forall|j: int| last_index(s, c) < j < s.len() ==> s[j] != c,
    decreases s.len(),
{
    if s.len() > 0 && s.last() != c {
        lemma_last_index(s.drop_last(), c);
        assert forall|j: int| last_index(s, c) < j < s.len() implies s[j] != c by {
            if j < s.len() - 1 {
                assert(s.drop_last()[j] == s[j]);
            }
        }
    }
}

/// The position of the last `c` in `v`, if there is one.
fn find_last(v: &Vec<char>, from: usize, c: char) -> (r: Option<usize>)
    requires
        from <= v.len(),
    ensures
        match r {
            Some(i) => from <= i < v.len() && i - from == last_index(v@.skip(from as int), c),
            None => last_index(v@.skip(from as int), c) == -1,
        },
{
    let ghost s = v@.skip(from as int);
    let mut i: usize = v.len();
    while i > from
        invariant
            from <= i <= v.len(),
            s == v@.skip(from as int),
            forall|j: int| i - from <= j < s.len() ==> s[j] != c,
        decreases i,
    {
        i -= 1;
        if v[i] == c {
            proof {
                assert(s[i - from] == c);
                lemma_last_index(s, c);
            }
            return Some(i);
        }
    }
    proof {
        lemma_last_index(s, c);
    }
    None
}

/// The last component of a path: what follows its last `/`.
pub open spec fn file_name_of(path: Seq<char>) -> Seq<char> {
    path.skip(last_index(path, '/') + 1)
}

/// What precedes the last `/` of a path, or `None` for a path of one component.
pub open spec fn parent_of(path: Seq<char>) -> Option<Seq<char>> {
    if last_index(path, '/') < 0 {
        None
    } else {
        Some(path.take(last_index(path, '/')))
    }
}

/// The position in `path` of the dot that starts its extension, or `-1`
/// where it has none: the last dot of the file name, unless the name starts with it.
pub open spec fn extension_dot(path: Seq<char>) -> int {
    let name_start = last_index(path, '/') + 1;
    let dot = last_index(file_name_of(path), '.');
    if dot <= 0 {
        -1
    } else {
        name_start + dot
    }
}

/// The extension of a path: what follows the last dot of its file name,
/// unless the name has no dot or only starts with one.
pub open spec fn extension_of(path: Seq<char>) -> Option<Seq<char>> {
    if extension_dot(path) < 0 {
        None
    } else {
        Some(path.skip(extension_dot(path) + 1))
    }
}

/// The path with its extension replaced by `ext`, or removed where `ext` is
/// empty. A path without a file name is left as it is.
pub open spec fn with_extension_of(path: Seq<char>, ext: Seq<char>) -> Seq<char> {
    if file_name_of(path).len() == 0 {
        path
    } else {
        let stem = if extension_dot(path) < 0 {
            path
        } else {
            path.take(extension_dot(path))
        };
        if ext.len() == 0 {
            stem
        } else {
            stem + seq!['.'] + ext
        }
    }
}

/// `name` inside the directory `dir`.
pub open spec fn joined(dir: Seq<char>, name: Seq<char>) -> Seq<char> {
    if name.len() > 0 && name[0] == '/' {
        name
    } else if dir.len() == 0 || dir.last() == '/' {
        dir + name
    } else {
        dir + seq!['/'] + name
    }
}

/// What is left of `file` below the directory `root`, or `None` where `file`
/// is not a path strictly below `root`.
pub open spec fn relative_to(root: Seq<char>, file: Seq<char>) -> Option<Seq<char>> {
    let prefix = if root.len() > 0 && root.last() == '/' {
        root
    } else {
        root + seq!['/']
    };
    if prefix.len() < file.len() && file.take(prefix.len() as int) == prefix {
        Some(file.skip(prefix.len() as int))
    } else {
        None
    }
}

/// The last component of `path`.
pub fn file_name(path: &str) -> (r: String)
    ensures
        r@ == file_name_of(path@),
{
    let v = chars_of(path);
    assert(v@.skip(0) == v@);
    let start = match find_last(&v, 0, '/') {
        Some(i) => i + 1,
        None => 0,
    };
    let r = string_of_range(&v, start, v.len());
    assert(v@.subrange(start as int, v.len() as int) == v@.skip(start as int));
    r
}

/// The directory part of `path`, if it has one.
pub fn parent(path: &str) -> (r: Option<String>)
    ensures
        crate::text::opt_text(r) == parent_of(path@),
{
    let v = chars_of(path);
    assert(v@.skip(0) == v@);
    match find_last(&v, 0, '/') {
        Some(i) => {
            let r = string_of_range(&v, 0, i);
            assert(v@.subrange(0, i as int) == v@.take(i as int));
            Some(r)
        },
        None => None,
    }
}

/// The position of the dot that starts the extension of `v`, if it has one.
fn find_extension_dot(v: &Vec<char>) -> (r: Option<usize>)
    ensures
        match r {
            Some(i) => i < v.len() && i == extension_dot(v@),
            None => extension_dot(v@) == -1,
        },
{
    assert(v@.skip(0) == v@);
    let start = match find_last(v, 0, '/') {
        Some(i) => i + 1,
        None => 0,
    };
    proof {
        lemma_last_index(v@.skip(start as int), '.');
    }
    match find_last(v, start, '.') {
        Some(d) => if d > start {
            Some(d)
        } else {
            None
        },
        None => None,
    }
}

/// The extension of `path`, if it has one.
pub fn extension(path: &str) -> (r: Option<String>)
    ensures
        crate::text::opt_text(r) == extension_of(path@),
{
    let v = chars_of(path);
    match find_extension_dot(&v) {
        Some(d) => {
            let r = string_of_range(&v, d + 1, v.len());
            assert(v@.subrange(d + 1, v.len() as int) == v@.skip(d + 1));
            Some(r)
        },
        None => None,
    }
}

/// `path` with the extension `ext` in place of its own.
pub fn with_extension(path: &str, ext: &str) -> (r: String)
    ensures
        r@ == with_extension_of(path@, ext@),
{
    let v = chars_of(path);
    assert(v@.skip(0) == v@);
    let name_start = match find_last(&v, 0, '/') {
        Some(i) => i + 1,
        None => 0,
    };
    if name_start == v.len() {
        return path.to_owned();
    }
    let stem_end = match find_extension_dot(&v) {
        Some(d) => d,
        None => v.len(),
    };
    let stem = string_of_range(&v, 0, stem_end);
    assert(v@.subrange(0, stem_end as int) == v@.take(stem_end as int));
    assert(v@.take(v.len() as int) == v@);
    if ext.unicode_len() == 0 {
        stem
    } else {
        proof {
            reveal_strlit(".");
            assert("."@ == seq!['.']);
        }
        let dotted = append(stem.as_str(), ".");
        append(dotted.as_str(), ext)
    }
}

/// `name` inside the directory `dir`.
pub fn join(dir: &str, name: &str) -> (r: String)
    ensures
        r@ == joined(dir@, name@),
{
    let d = chars_of(dir);
    let n = chars_of(name);
    if n.len() > 0 && n[0] == '/' {
        name.to_owned()
    } else if d.len() == 0 || d[d.len() - 1] == '/' {
        append(dir, name)
    } else {
        proof {
            reveal_strlit("/");
            assert("/"@ == seq!['/']);
        }
        let slashed = append(dir, "/");
        append(slashed.as_str(), name)
    }
}

/// What is left of `file` below `root`, if `file` lies below it.
pub fn strip_root(root: &str, file: &str) -> (r: Option<String>)
    ensures
        crate::text::opt_text(r) == relative_to(root@, file@),
{
    let mut prefix = chars_of(root);
    let f = chars_of(file);
    if prefix.len() == 0 || prefix[prefix.len() - 1] != '/' {
        if prefix.len() == usize::MAX {
            assert(f.len() <= prefix.len());
            return None;
        }
        let ghost before = prefix@;
        prefix.push('/');
        assert(prefix@ == before + seq!['/']);
    }
    if prefix.len() < f.len() && crate::text::matches_at(&f, &prefix, 0) {
        assert(f@.subrange(0, prefix.len() as int) == f@.take(prefix.len() as int));
        let r = string_of_range(&f, prefix.len(), f.len());
        assert(f@.subrange(prefix.len() as int, f.len() as int) == f@.skip(prefix.len() as int));
        Some(r)
    } else {
        assert(f@.subrange(0, prefix.len() as int) == f@.take(prefix.len() as int)
            || prefix.len() >= f.len());
        None
    }
}

/// The last `c` of `s` is at `i` if `s` holds `c` there and nowhere after;
/// there is none if `s` holds no `c` at all.
pub proof fn lemma_last_index_is(s: Seq<char>, c: char, i: int)
    requires
        -1 <= i < s.len(),
        i >= 0 ==> s[i] == c,
        forall|j: int| i < j < s.len() ==> s[j] != c,
    ensures
        last_index(s, c) == i,
{
    lemma_last_index(s, c);
}

/// Whether `s` holds neither `/` nor `.`: it is one component without an extension.
pub open spec fn is_plain_name(s: Seq<char>) -> bool {
    forall|i: int| 0 <= i < s.len() ==> #[trigger] s[i] != '/' && s[i] != '.'
}

/// A title stripped of its prohibited characters is a plain name.
pub proof fn lemma_stripped_is_plain(title: Seq<char>)
    ensures
        is_plain_name(stripped(title)),
{
    lemma_stripped_is_clean(title);
    assert forall|i: int| 0 <= i < stripped(title).len() implies #[trigger] stripped(title)[i]
        != '/' && stripped(title)[i] != '.' by {
        assert(!is_prohibited(stripped(title)[i]));
    }
}

/// Giving a plain name an extension appends a dot and the extension.
pub proof fn lemma_extend_plain_name(name: Seq<char>, ext: Seq<char>)
    requires
        is_plain_name(name),
        name.len() > 0,
    ensures
        with_extension_of(name, ext) == if ext.len() == 0 {
            name
        } else {
            name + seq!['.'] + ext
        },
        file_name_of(name) == name,
        parent_of(name) is None,
        extension_of(name) is None,
{
    lemma_last_index_is(name, '/', -1);
    assert(name.skip(0) == name);
    lemma_last_index_is(name, '.', -1);
}

/// A plain name with an extension that holds no `/` and no `.` has that
/// extension, and is a single component.
pub proof fn lemma_extension_of_extended(name: Seq<char>, ext: Seq<char>)
    requires
        is_plain_name(name),
        name.len() > 0,
        is_plain_name(ext),
        ext.len() > 0,
    ensures
        extension_of(name + seq!['.'] + ext) == Some(ext),
        file_name_of(name + seq!['.'] + ext) == name + seq!['.'] + ext,
        parent_of(name + seq!['.'] + ext) is None,
        with_extension_of(name + seq!['.'] + ext, ext) == name + seq!['.'] + ext,
{
    let t = name + seq!['.'] + ext;
    assert forall|j: int| 0 <= j < t.len() implies t[j] != '/' by {
        if j < name.len() {
            assert(t[j] == name[j]);
        } else if j > name.len() {
            assert(t[j] == ext[j - name.len() - 1]);
        }
    }
    lemma_last_index_is(t, '/', -1);
    assert(t.skip(0) == t);
    assert(t[name.len() as int] == '.');
    assert forall|j: int| name.len() < j < t.len() implies t[j] != '.' by {
        assert(t[j] == ext[j - name.len() - 1]);
    }
    lemma_last_index_is(t, '.', name.len() as int);
    assert(t.skip(name.len() as int + 1) == ext);
    assert(t.take(name.len() as int) == name);
}

/// The extension of a path holds no `/` and no `.`.
pub proof fn lemma_extension_is_plain(path: Seq<char>)
    requires
        extension_of(path) is Some,
    ensures
        is_plain_name(extension_of(path)->0),
{
    lemma_last_index(path, '/');
    let start = last_index(path, '/') + 1;
    let name = file_name_of(path);
    lemma_last_index(name, '.');
    let ext = extension_of(path)->0;
    let d = extension_dot(path);
    assert forall|i: int| 0 <= i < ext.len() implies #[trigger] ext[i] != '/' && ext[i] != '.' by {
        assert(ext[i] == path[d + 1 + i]);
        assert(name[d - start + 1 + i] == path[d + 1 + i]);
    }
}

/// A plain name inside a directory, given an extension: the directory stays
/// in front, and what follows it is the name with the extension. `prefix` is
/// the directory with the `/` that ends it.
pub proof fn lemma_extend_in_directory(prefix: Seq<char>, name: Seq<char>, ext: Seq<char>)
    requires
        prefix.len() > 0,
        prefix.last() == '/',
        is_plain_name(name),
        name.len() > 0,
        is_plain_name(ext),
    ensures
        with_extension_of(prefix + name, ext) == prefix + with_extension_of(name, ext),
        file_name_of(with_extension_of(prefix + name, ext)) == with_extension_of(name, ext),
        file_name_of(with_extension_of(prefix + name, ext)) != with_extension_of(
            prefix + name,
            ext,
        ),
{
    let base = prefix + name;
    let k = prefix.len() - 1;
    assert(base[k] == '/');
    assert forall|j: int| k < j < base.len() implies base[j] != '/' by {
        assert(base[j] == name[j - prefix.len()]);
    }
    lemma_last_index_is(base, '/', k);
    assert(base.skip(k + 1) =~= name);
    lemma_extend_plain_name(name, ext);
    assert(file_name_of(base) == name);
    lemma_last_index_is(name, '.', -1);
    assert(extension_dot(base) == -1);
    let short = with_extension_of(name, ext);
    let target = with_extension_of(base, ext);
    if ext.len() == 0 {
        assert(target == base);
        assert(short == name);
    } else {
        assert(target =~= prefix + (name + seq!['.'] + ext));
    }
    assert(target =~= prefix + short);
    assert(target[k] == '/');
    assert forall|j: int| k < j < target.len() implies target[j] != '/' by {
        let i = j - prefix.len();
        assert(target[j] == short[i]);
        if i < name.len() {
            assert(short[i] == name[i]);
        } else if i > name.len() {
            assert(short[i] == ext[i - name.len() - 1]);
        }
    }
    lemma_last_index_is(target, '/', k);
    assert(target.skip(k + 1) =~= short);
}

} // verus!
