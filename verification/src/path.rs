//! Unix paths as text: the file name, its stem and extension, and siblings.

use crate::text::{find_last, from_chars, last_position, lemma_last_position,
    lemma_last_position_unique, to_chars};
use vstd::prelude::*;
use vstd::string::*;

verus! {

/// `p` without what names nothing at its end: separators, and `.` after a separator.
pub open spec fn trimmed(p: Seq<char>) -> Seq<char>
    decreases p.len(),
{
    if p.len() > 0 && p.last() == '/' {
        trimmed(p.drop_last())
    } else if p.len() > 1 && p.last() == '.' && p[p.len() - 2] == '/' {
        trimmed(p.drop_last())
    } else {
        p
    }
}

/// What follows the last separator of `p`.
pub open spec fn last_segment(p: Seq<char>) -> Seq<char> {
    p.skip(last_position(p, '/') + 1)
}

/// What stands before the last segment of `p`, with the separator.
pub open spec fn before_last_segment(p: Seq<char>) -> Seq<char> {
    p.take(last_position(p, '/') + 1)
}

/// `s` can be the name of a file: it is not empty and is neither `.` nor `..`.
pub open spec fn is_file_name(s: Seq<char>) -> bool {
    &&& s.len() > 0
    &&& !(s.len() == 1 && s[0] == '.')
    &&& !(s.len() == 2 && s[0] == '.' && s[1] == '.')
}

/// The last component of a path, where it names a file or a directory.
pub open spec fn name_of(p: Seq<char>) -> Option<Seq<char>> {
    let s = last_segment(trimmed(p));
    if is_file_name(s) {
        Some(s)
    } else {
        None
    }
}

/// The directory part of a path that has a file name.
pub open spec fn directory_of(p: Seq<char>) -> Seq<char> {
    let before = before_last_segment(trimmed(p));
    if before.len() > 0 && trimmed(before).len() == 0 {
        seq!['/']
    } else {
        trimmed(before)
    }
}

/// `tail` placed under the directory `dir`.
pub open spec fn joined(dir: Seq<char>, tail: Seq<char>) -> Seq<char> {
    if tail.len() > 0 && tail[0] == '/' {
        tail
    } else if dir.len() == 0 || dir.last() == '/' {
        dir + tail
    } else {
        dir.push('/') + tail
    }
}

/// `p` with its file name, if it has one, replaced by `name`.
pub open spec fn sibling(p: Seq<char>, name: Seq<char>) -> Seq<char> {
    match name_of(p) {
        Some(_) => joined(directory_of(p), name),
        None => joined(p, name),
    }
}

/// What follows the last dot of a file name, unless that dot is the first character.
pub open spec fn extension_of(name: Seq<char>) -> Option<Seq<char>> {
    let i = last_position(name, '.');
    if i > 0 {
        Some(name.skip(i + 1))
    } else {
        None
    }
}

/// A file name without its extension.
pub open spec fn stem_of(name: Seq<char>) -> Seq<char> {
    let i = last_position(name, '.');
    if i > 0 {
        name.take(i)
    } else {
        name
    }
}

/// How many characters of `p` remain once its end is trimmed.
fn trimmed_len(p: &[char]) -> (res: usize)
    ensures
        res <= p@.len(),
        p@.take(res as int) == trimmed(p@),
{
    let mut n: usize = p.len();
    assert(p@.take(n as int) =~= p@);
    while n > 0 && (p[n - 1] == '/' || (n > 1 && p[n - 1] == '.' && p[n - 2] == '/'))
        invariant
            n <= p@.len(),
            trimmed(p@.take(n as int)) == trimmed(p@),
        decreases n,
    {
        assert(p@.take(n as int).drop_last() =~= p@.take(n - 1));
        n = n - 1;
    }
    n
}

/// The last component of a path, where it names a file or a directory.
pub fn file_name(p: &str) -> (res: Option<String>)
    ensures
        res is Some <==> name_of(p@) is Some,
        res is Some ==> res->0@ == name_of(p@)->0,
{
    let x = to_chars(p);
    let n = trimmed_len(x.as_slice());
    let kept = vstd::slice::slice_subrange(x.as_slice(), 0, n);
    assert(kept@ =~= trimmed(p@));
    let start: usize = match find_last(kept, '/') {
        Some(i) => i + 1,
        None => 0,
    };
    let segment = vstd::slice::slice_subrange(kept, start, n);
    assert(segment@ =~= last_segment(trimmed(p@)));
    if segment.len() == 0 || (segment.len() == 1 && segment[0] == '.') || (segment.len() == 2
        && segment[0] == '.' && segment[1] == '.') {
        None
    } else {
        Some(from_chars(segment))
    }
}

/// The extension of a file name.
pub fn extension(name: &str) -> (res: Option<String>)
    ensures
        res is Some <==> extension_of(name@) is Some,
        res is Some ==> res->0@ == extension_of(name@)->0,
{
    let x = to_chars(name);
    let n = x.len();
    match find_last(x.as_slice(), '.') {
        Some(i) if i > 0 => {
            let tail = vstd::slice::slice_subrange(x.as_slice(), i + 1, n);
            assert(tail@ =~= name@.skip(i + 1));
            Some(from_chars(tail))
        },
        _ => None,
    }
}

/// A file name without its extension.
pub fn file_stem(name: &str) -> (res: String)
    ensures
        res@ == stem_of(name@),
{
    let x = to_chars(name);
    match find_last(x.as_slice(), '.') {
        Some(i) if i > 0 => {
            let head = vstd::slice::slice_subrange(x.as_slice(), 0, i);
            assert(head@ =~= name@.take(i as int));
            from_chars(head)
        },
        _ => name.to_owned(),
    }
}

/// Places `tail` under the directory `dir`.
pub fn join(dir: &str, tail: &str) -> (res: String)
    ensures
        res@ == joined(dir@, tail@),
{
    let d = to_chars(dir);
    let t = to_chars(tail);
    if t.len() > 0 && t[0] == '/' {
        return tail.to_owned();
    }
    let mut out = dir.to_owned();
    if d.len() > 0 && d[d.len() - 1] != '/' {
        out.push('/');
    }
    out.append(tail);
    out
}

/// `p` with its file name, if it has one, replaced by `name`.
pub fn with_file_name(p: &str, name: &str) -> (res: String)
    ensures
        res@ == sibling(p@, name@),
{
    if file_name(p).is_none() {
        return join(p, name);
    }
    let x = to_chars(p);
    let n = trimmed_len(x.as_slice());
    let kept = vstd::slice::slice_subrange(x.as_slice(), 0, n);
    assert(kept@ =~= trimmed(p@));
    let cut: usize = match find_last(kept, '/') {
        Some(i) => i + 1,
        None => 0,
    };
    let before = vstd::slice::slice_subrange(kept, 0, cut);
    assert(before@ =~= before_last_segment(trimmed(p@)));
    let m = trimmed_len(before);
    if before.len() > 0 && m == 0 {
        proof {
            assert(before@.take(0) =~= Seq::<char>::empty());
        }
        let mut root = String::new();
        root.push('/');
        assert(root@ =~= seq!['/']);
        return join(root.as_str(), name);
    }
    let kept_before = vstd::slice::slice_subrange(before, 0, m);
    assert(kept_before@ =~= trimmed(before@));
    let dir = from_chars(kept_before);
    join(dir.as_str(), name)
}

/// A file name holds no separator.
pub proof fn lemma_name_of_is_plain(p: Seq<char>)
    requires
        name_of(p) is Some,
    ensures
        !name_of(p)->0.contains('/'),
        is_file_name(name_of(p)->0),
{
    let t = trimmed(p);
    lemma_last_position(t, '/');
    let s = last_segment(t);
    if s.contains('/') {
        let i = choose|i: int| 0 <= i < s.len() && s[i] == '/';
        assert(t[i + last_position(t, '/') + 1] == '/');
    }
}

/// A plain file name under any directory is the file name of the whole path.
pub proof fn lemma_name_of_joined(dir: Seq<char>, name: Seq<char>)
    requires
        is_file_name(name),
        !name.contains('/'),
    ensures
        name_of(joined(dir, name)) == Some(name),
{
    let p = joined(dir, name);
    let cut = p.len() - name.len();
    assert(p.skip(cut) =~= name);
    assert(forall|i: int| 0 <= i < name.len() ==> p[cut + i] == #[trigger] name[i]);
    assert forall|i: int| cut <= i < p.len() implies p[i] != '/' by {
        assert(name[i - cut] == p[i]);
        if p[i] == '/' {
            assert(name.contains('/'));
        }
    }
    if cut > 0 {
        assert(p[cut - 1] == '/');
    }
    lemma_last_position_unique(p, '/', cut - 1);
    assert(p.last() == name.last());
    if p.len() > 1 && p.last() == '.' && p[p.len() - 2] == '/' {
        assert(name.len() == 1);
        assert(name[0] == '.');
    }
    assert(trimmed(p) == p);
    assert(last_segment(p) =~= name);
}

/// Replacing the file name gives a path with that file name.
pub proof fn lemma_name_of_sibling(p: Seq<char>, name: Seq<char>)
    requires
        is_file_name(name),
        !name.contains('/'),
    ensures
        name_of(sibling(p, name)) == Some(name),
{
    match name_of(p) {
        Some(_) => lemma_name_of_joined(directory_of(p), name),
        None => lemma_name_of_joined(p, name),
    }
}

/// A file name is its own last component.
pub proof fn lemma_name_of_name(name: Seq<char>)
    requires
        is_file_name(name),
        !name.contains('/'),
    ensures
        name_of(name) == Some(name),
{
    let empty = Seq::<char>::empty();
    assert(!(name[0] == '/')) by {
        if name[0] == '/' {
            assert(name.contains('/'));
        }
    }
    assert(joined(empty, name) =~= name);
    lemma_name_of_joined(empty, name);
}

/// A file name is its stem, a dot and its extension, which holds no dot; the stem is not empty. A
/// name without an extension is its own stem: it has no dot but, at most, as its first character.
pub proof fn law_stem_and_extension(name: Seq<char>)
    ensures
        match extension_of(name) {
            Some(e) => {
                &&& name == stem_of(name) + seq!['.'] + e
                &&& !e.contains('.')
                &&& stem_of(name).len() > 0
            },
            None => stem_of(name) == name && forall|i: int| 0 < i < name.len() ==> name[i] != '.',
        },
{
    let i = last_position(name, '.');
    lemma_last_position(name, '.');
    if i > 0 {
        assert(name =~= stem_of(name) + seq!['.'] + name.skip(i + 1));
        let e = name.skip(i + 1);
        if e.contains('.') {
            let k = choose|k: int| 0 <= k < e.len() && e[k] == '.';
            assert(name[i + 1 + k] == '.');
        }
    }
}

/// A directory, a separator and a file name make a path with that file name, and so they do with
/// separators after them; the empty path, `.` and `..` have none.
pub proof fn law_file_name_is_the_last_component(dir: Seq<char>, name: Seq<char>)
    requires
        name.len() > 0,
        !name.contains('/'),
        name != seq!['.'],
        name != seq!['.', '.'],
    ensures
        name_of(dir + seq!['/'] + name) == Some(name),
        name_of(name) == Some(name),
        name_of(dir + seq!['/'] + name + seq!['/']) == Some(name),
        name_of(dir + seq!['/', '.', '.']) is None,
        name_of(Seq::empty()) is None,
{
    assert(is_file_name(name)) by {
        if name.len() == 1 && name[0] == '.' {
            assert(name =~= seq!['.']);
        }
        if name.len() == 2 && name[0] == '.' && name[1] == '.' {
            assert(name =~= seq!['.', '.']);
        }
    }
    let base = dir + seq!['/'];
    let p = base + name;
    if name[0] == '/' {
        assert(name.contains('/'));
    }
    assert(joined(base, name) == p);
    lemma_name_of_joined(base, name);
    lemma_name_of_name(name);
    let q = p + seq!['/'];
    assert(q.drop_last() =~= p);
    assert(trimmed(q) == trimmed(p));
    let up = dir + seq!['/', '.', '.'];
    assert(up.last() == '.' && up[up.len() - 2] == '.');
    assert(trimmed(up) == up);
    lemma_last_position_unique(up, '/', dir.len() as int);
    assert(last_segment(up) =~= seq!['.', '.']);
    let nothing = Seq::<char>::empty();
    lemma_last_position(nothing, '/');
    assert(trimmed(nothing) == nothing);
    assert(last_segment(nothing).len() == 0);
}

/// Replacing the file name leaves the directory: `dir/name` becomes `dir/other`.
pub proof fn law_sibling_stays_in_its_directory(dir: Seq<char>, name: Seq<char>, other: Seq<char>)
    requires
        is_file_name(name),
        !name.contains('/'),
        is_file_name(other),
        !other.contains('/'),
        dir.len() > 0,
        dir.last() != '/',
        !(dir.len() > 1 && dir.last() == '.' && dir[dir.len() - 2] == '/'),
    ensures
        sibling(dir + seq!['/'] + name, other) == dir + seq!['/'] + other,
        sibling(seq!['/'] + name, other) == seq!['/'] + other,
        sibling(name, other) == other,
{
    assert(trimmed(dir) == dir);
    let root = seq!['/'];
    assert(root.drop_last() =~= Seq::<char>::empty());
    assert(trimmed(Seq::<char>::empty()) == Seq::<char>::empty());
    assert(trimmed(root) == Seq::<char>::empty());
    lemma_trimmed_plain(root, name);
    lemma_after_separator(root, name);
    assert(before_last_segment(root + name) =~= root);
    assert(joined(root, name) == root + name) by {
        if name[0] == '/' {
            assert(name.contains('/'));
        }
    }
    lemma_name_of_joined(root, name);
    assert(directory_of(root + name) =~= root);
    let base = dir + seq!['/'];
    let p = base + name;
    if name[0] == '/' {
        assert(name.contains('/'));
    }
    if other[0] == '/' {
        assert(other.contains('/'));
    }
    assert(joined(base, name) == p);
    lemma_name_of_joined(base, name);
    lemma_trimmed_plain(base, name);
    lemma_after_separator(base, name);
    assert(before_last_segment(p) =~= base);
    assert(base.drop_last() =~= dir);
    assert(trimmed(base) == trimmed(dir));
    assert(directory_of(p) == dir);
    if dir.last() == '/' {
        assert(trimmed(dir) == trimmed(dir.drop_last()));
        lemma_trimmed_shorter(dir.drop_last());
    }
    assert(dir.push('/') + other =~= dir + seq!['/'] + other);
    let nothing = Seq::<char>::empty();
    lemma_name_of_name(name);
    lemma_trimmed_plain(nothing, name);
    lemma_after_separator(nothing, name);
    assert(nothing + name =~= name);
    assert(before_last_segment(name) =~= nothing);
    assert(trimmed(nothing) == nothing);
    assert(joined(nothing, other) =~= other);
}

proof fn lemma_trimmed_shorter(p: Seq<char>)
    ensures
        trimmed(p).len() <= p.len(),
    decreases p.len(),
{
    if p.len() > 0 && (p.last() == '/' || (p.len() > 1 && p.last() == '.' && p[p.len() - 2] == '/')) {
        lemma_trimmed_shorter(p.drop_last());
    }
}

proof fn lemma_after_separator(base: Seq<char>, name: Seq<char>)
    requires
        base.len() == 0 || base.last() == '/',
        !name.contains('/'),
    ensures
        last_position(base + name, '/') == base.len() - 1,
{
    let p = base + name;
    assert forall|i: int| base.len() - 1 < i < p.len() implies p[i] != '/' by {
        assert(p[i] == name[i - base.len()]);
    }
    lemma_last_position_unique(p, '/', base.len() - 1);
}

proof fn lemma_trimmed_plain(base: Seq<char>, name: Seq<char>)
    requires
        is_file_name(name),
        !name.contains('/'),
    ensures
        trimmed(base + name) == base + name,
{
    let p = base + name;
    assert(p.last() == name.last());
    if p.last() == '.' && p.len() > 1 && p[p.len() - 2] == '/' {
        if name.len() > 1 {
            assert(p[p.len() - 2] == name[name.len() - 2]);
        }
    }
}

/// Separators at the end of a path, and a `.` after one, count for nothing.
pub proof fn law_end_of_a_path(p: Seq<char>, other: Seq<char>)
    ensures
        name_of(p + seq!['/']) == name_of(p),
        name_of(p + seq!['/', '.']) == name_of(p),
        name_of(p) is Some ==> sibling(p + seq!['/'], other) == sibling(p, other),
{
    let q = p + seq!['/'];
    let r = p + seq!['/', '.'];
    assert(q.drop_last() =~= p);
    assert(trimmed(q) == trimmed(p));
    assert(r.drop_last() =~= q);
    assert(r.last() == '.' && r[r.len() - 2] == '/');
    assert(trimmed(r) == trimmed(q));
}

/// A relative path is placed under the directory with one separator between them, and none where
/// the directory is empty or ends with one; an absolute path stands alone.
pub proof fn law_path_under_a_directory(dir: Seq<char>, c: char, tail: Seq<char>)
    requires
        tail.len() == 0 || tail[0] != '/',
        c != '/',
    ensures
        joined(dir + seq![c], tail) == dir + seq![c, '/'] + tail,
        joined(dir + seq!['/'], tail) == dir + seq!['/'] + tail,
        joined(Seq::empty(), tail) == tail,
        joined(dir, seq!['/'] + tail) == seq!['/'] + tail,
{
    assert(joined(dir + seq![c], tail) =~= dir + seq![c, '/'] + tail);
    assert(joined(dir + seq!['/'], tail) =~= dir + seq!['/'] + tail);
    assert(joined(Seq::empty(), tail) =~= tail);
}

} // verus!
