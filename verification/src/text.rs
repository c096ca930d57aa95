//! Text primitives: suffixes, substitution, positions, trimming.
//!
//! A string is modelled by its view, the sequence of its characters.

use vstd::prelude::*;
use vstd::string::*;

verus! {

broadcast use vstd::string::group_string_axioms;

/// Appends one character (`String::push`).
pub assume_specification[ String::push ](s: &mut String, c: char)
    ensures
        final(s)@ == old(s)@.push(c),
;

/// The texts of a sequence of strings.
pub open spec fn texts(v: Seq<String>) -> Seq<Seq<char>> {
    Seq::new(v.len(), |i: int| v[i]@)
}

/// The text of an optional string.
pub open spec fn text_option(s: Option<String>) -> Option<Seq<char>> {
    match s {
        Some(t) => Some(t@),
        None => None,
    }
}

/// The text of an optional string slice.
pub open spec fn slice_option(s: Option<&str>) -> Option<Seq<char>> {
    match s {
        Some(t) => Some(t@),
        None => None,
    }
}

/// The lower-case form of an ASCII letter; any other character is itself.
pub open spec fn lower_char(c: char) -> char {
    if 'A' <= c && c <= 'Z' {
        (c as u32 + 32) as char
    } else {
        c
    }
}

/// `s` with its ASCII letters in lower case.
pub open spec fn lower(s: Seq<char>) -> Seq<char> {
    Seq::new(s.len(), |i: int| lower_char(s[i]))
}

/// `s` ends with `suffix`.
pub open spec fn ends_with(s: Seq<char>, suffix: Seq<char>) -> bool {
    suffix.len() <= s.len() && s.skip(s.len() - suffix.len()) == suffix
}

/// `s` begins with `head`.
pub open spec fn begins_with(s: Seq<char>, head: Seq<char>) -> bool {
    head.len() <= s.len() && s.take(head.len() as int) == head
}

/// The characters of a string, in order.
pub fn to_chars(s: &str) -> (res: Vec<char>)
    ensures
        res@ == s@,
{
    let mut out: Vec<char> = Vec::new();
    for c in iter: s.chars()
        invariant
            out@ == iter.seq().take(iter.index()),
            iter.seq() == s@,
    {
        out.push(c);
        assert(iter.seq().take(iter.index() + 1) =~= iter.seq().take(iter.index()).push(c));
    }
    assert(s@.take(s@.len() as int) =~= s@);
    out
}

/// The string made of the given characters.
pub fn from_chars(chars: &[char]) -> (res: String)
    ensures
        res@ == chars@,
{
    let mut out = String::new();
    for i in 0..chars.len()
        invariant
            out@ == chars@.take(i as int),
    {
        out.push(chars[i]);
        assert(chars@.take(i + 1) =~= chars@.take(i as int).push(chars@[i as int]));
    }
    assert(chars@.take(chars@.len() as int) =~= chars@);
    out
}

/// A copy of a list of strings.
pub fn clone_texts(v: &[String]) -> (res: Vec<String>)
    ensures
        texts(res@) == texts(v@),
{
    let mut out: Vec<String> = Vec::new();
    append_texts(&mut out, v);
    assert(texts(out@) =~= texts(v@));
    out
}

/// Appends copies of the strings of `v` to `out`.
pub fn append_texts(out: &mut Vec<String>, v: &[String])
    ensures
        texts(final(out)@) == texts(old(out)@) + texts(v@),
{
    let ghost before = texts(out@);
    for i in 0..v.len()
        invariant
            texts(out@) == before + texts(v@).take(i as int),
    {
        let ghost prev = out@;
        out.push(v[i].clone());
        assert(texts(out@) =~= texts(prev).push(v@[i as int]@));
        assert(texts(v@).take(i + 1) =~= texts(v@).take(i as int).push(v@[i as int]@));
        assert(texts(out@) =~= before + texts(v@).take(i + 1));
    }
    assert(texts(v@).take(v@.len() as int) =~= texts(v@));
}

/// Whether two strings hold the same characters.
pub fn same_text(a: &str, b: &str) -> (res: bool)
    ensures
        res == (a@ == b@),
{
    let x = to_chars(a);
    let y = to_chars(b);
    same_chars(x.as_slice(), y.as_slice())
}

pub(crate) fn same_chars(x: &[char], y: &[char]) -> (res: bool)
    ensures
        res == (x@ == y@),
{
    if x.len() != y.len() {
        return false;
    }
    for i in 0..x.len()
        invariant
            x@.len() == y@.len(),
            x@.take(i as int) == y@.take(i as int),
    {
        if x[i] != y[i] {
            return false;
        }
        assert(x@.take(i + 1) =~= x@.take(i as int).push(x@[i as int]));
        assert(y@.take(i + 1) =~= y@.take(i as int).push(y@[i as int]));
    }
    assert(x@.take(x@.len() as int) =~= x@);
    assert(y@.take(y@.len() as int) =~= y@);
    true
}

/// `s` with its ASCII letters in lower case.
pub fn to_lower(s: &str) -> (res: String)
    ensures
        res@ == lower(s@),
{
    let chars = to_chars(s);
    let mut out = String::new();
    for i in 0..chars.len()
        invariant
            chars@ == s@,
            out@ == lower(s@).take(i as int),
    {
        let c = chars[i];
        let l = if 'A' <= c && c <= 'Z' {
            ((c as u8) + 32) as char
        } else {
            c
        };
        out.push(l);
        assert(lower(s@).take(i + 1) =~= lower(s@).take(i as int).push(lower_char(c)));
    }
    assert(lower(s@).take(s@.len() as int) =~= lower(s@));
    out
}

/// Whether `s` ends with `suffix`.
pub fn has_suffix(s: &str, suffix: &str) -> (res: bool)
    ensures
        res == ends_with(s@, suffix@),
{
    strip_suffix(s, suffix).is_some()
}

/// What stands before `suffix` at the end of `s`, if `s` ends with it.
pub fn strip_suffix(s: &str, suffix: &str) -> (res: Option<String>)
    ensures
        res is Some <==> ends_with(s@, suffix@),
        res is Some ==> res->0@ == s@.take(s@.len() - suffix@.len()),
{
    let x = to_chars(s);
    let y = to_chars(suffix);
    if y.len() > x.len() {
        return None;
    }
    let cut = x.len() - y.len();
    let tail = vstd::slice::slice_subrange(x.as_slice(), cut, x.len());
    assert(tail@ =~= s@.skip(cut as int));
    if same_chars(tail, y.as_slice()) {
        let head = vstd::slice::slice_subrange(x.as_slice(), 0, cut);
        assert(head@ =~= s@.take(cut as int));
        Some(from_chars(head))
    } else {
        None
    }
}

/// `s` with every occurrence of `from` replaced by `to`, found from left to right without
/// overlap; what `to` brings in is not searched again.
pub open spec fn replaced(s: Seq<char>, from: Seq<char>, to: Seq<char>) -> Seq<char>
    recommends
        from.len() > 0,
    decreases s.len(),
{
    if s.len() == 0 || from.len() == 0 {
        s
    } else if from.len() <= s.len() && s.take(from.len() as int) == from {
        to + replaced(s.skip(from.len() as int), from, to)
    } else {
        seq![s[0]] + replaced(s.skip(1), from, to)
    }
}

/// Replaces every occurrence of `from` in `s` by `to`.
pub fn replace(s: &str, from: &str, to: &str) -> (res: String)
    requires
        from@.len() > 0,
    ensures
        res@ == replaced(s@, from@, to@),
{
    let x = to_chars(s);
    let y = to_chars(from);
    let mut out = String::new();
    let mut i: usize = 0;
    assert(s@.skip(0) =~= s@);
    assert(out@ + replaced(s@.skip(0), from@, to@) =~= replaced(s@, from@, to@));
    while i < x.len()
        invariant
            x@ == s@,
            y@ == from@,
            y@.len() > 0,
            i <= x@.len(),
            out@ + replaced(s@.skip(i as int), from@, to@) == replaced(s@, from@, to@),
        decreases x.len() - i,
    {
        let ghost rest = s@.skip(i as int);
        let ghost before = out@;
        if y.len() <= x.len() - i && same_chars(
            vstd::slice::slice_subrange(x.as_slice(), i, i + y.len()),
            y.as_slice(),
        ) {
            assert(x@.subrange(i as int, i + y@.len()) =~= rest.take(from@.len() as int));
            out.append(to);
            assert(rest.skip(from@.len() as int) =~= s@.skip(i + y@.len()));
            assert(out@ + replaced(s@.skip(i + y@.len()), from@, to@) =~= before + (to@ + replaced(
                s@.skip(i + y@.len()),
                from@,
                to@,
            )));
            i = i + y.len();
        } else {
            assert(from@.len() <= rest.len() ==> x@.subrange(i as int, i + y@.len()) =~= rest.take(
                from@.len() as int,
            ));
            out.push(x[i]);
            assert(rest.skip(1) =~= s@.skip(i + 1));
            assert(out@ + replaced(s@.skip(i + 1), from@, to@) =~= before + (seq![rest[0]]
                + replaced(s@.skip(i + 1), from@, to@)));
            i = i + 1;
        }
    }
    assert(s@.skip(i as int) =~= Seq::<char>::empty());
    assert(out@ + Seq::<char>::empty() =~= out@);
    out
}

/// The position of the last `c` in `s`, or -1 where there is none.
pub open spec fn last_position(s: Seq<char>, c: char) -> int
    decreases s.len(),
{
    if s.len() == 0 {
        -1
    } else if s.last() == c {
        s.len() - 1
    } else {
        last_position(s.drop_last(), c)
    }
}

/// The position of the last `c`.
pub fn find_last(s: &[char], c: char) -> (res: Option<usize>)
    ensures
        res is Some ==> res->0 == last_position(s@, c) && res->0 < s@.len(),
        res is None ==> last_position(s@, c) == -1,
{
    let mut i: usize = s.len();
    assert(s@.take(i as int) =~= s@);
    while i > 0
        invariant
            i <= s@.len(),
            last_position(s@.take(i as int), c) == last_position(s@, c),
        decreases i,
    {
        if s[i - 1] == c {
            return Some(i - 1);
        }
        assert(s@.take(i as int).drop_last() =~= s@.take(i - 1));
        i = i - 1;
    }
    None
}

/// Where the last `c` of `s` stands: nothing after it is `c`, and -1 says that none is.
pub proof fn lemma_last_position(s: Seq<char>, c: char)
    ensures
        -1 <= last_position(s, c) < s.len(),
        last_position(s, c) >= 0 ==> s[last_position(s, c)] == c,
        forall|i: int| last_position(s, c) < i < s.len() ==> s[i] != c,
    decreases s.len(),
{
    if s.len() > 0 && s.last() != c {
        lemma_last_position(s.drop_last(), c);
        assert forall|i: int| last_position(s, c) < i < s.len() implies s[i] != c by {
            if i < s.len() - 1 {
                assert(s.drop_last()[i] == s[i]);
            }
        }
    }
}

/// A position that holds `c` and has no `c` after it is the last one.
pub proof fn lemma_last_position_unique(s: Seq<char>, c: char, at: int)
    requires
        -1 <= at < s.len(),
        at >= 0 ==> s[at] == c,
        forall|i: int| at < i < s.len() ==> s[i] != c,
    ensures
        last_position(s, c) == at,
{
    lemma_last_position(s, c);
    if last_position(s, c) > at {
        assert(s[last_position(s, c)] == c);
    }
}

/// The character has the Unicode property `White_Space`.
pub open spec fn is_white(c: char) -> bool {
    let n = c as u32;
    ||| 0x9 <= n <= 0xd
    ||| n == 0x20
    ||| n == 0x85
    ||| n == 0xa0
    ||| n == 0x1680
    ||| 0x2000 <= n <= 0x200a
    ||| n == 0x2028
    ||| n == 0x2029
    ||| n == 0x202f
    ||| n == 0x205f
    ||| n == 0x3000
}

/// `s` without the white space at its end.
pub open spec fn trimmed_end(s: Seq<char>) -> Seq<char>
    decreases s.len(),
{
    if s.len() > 0 && is_white(s.last()) {
        trimmed_end(s.drop_last())
    } else {
        s
    }
}

/// Whether the character is white space.
pub fn is_whitespace(c: char) -> (res: bool)
    ensures
        res == is_white(c),
{
    let n = c as u32;
    (0x9 <= n && n <= 0xd) || n == 0x20 || n == 0x85 || n == 0xa0 || n == 0x1680 || (0x2000 <= n
        && n <= 0x200a) || n == 0x2028 || n == 0x2029 || n == 0x202f || n == 0x205f || n == 0x3000
}

/// `s` without the white space at its end.
pub fn trim_end(s: &str) -> (res: String)
    ensures
        res@ == trimmed_end(s@),
{
    let x = to_chars(s);
    let mut n: usize = x.len();
    assert(s@.take(n as int) =~= s@);
    while n > 0 && is_whitespace(x[n - 1])
        invariant
            x@ == s@,
            n <= x@.len(),
            trimmed_end(s@.take(n as int)) == trimmed_end(s@),
        decreases n,
    {
        assert(s@.take(n as int).drop_last() =~= s@.take(n - 1));
        n = n - 1;
    }
    let kept = vstd::slice::slice_subrange(x.as_slice(), 0, n);
    assert(kept@ =~= s@.take(n as int));
    from_chars(kept)
}

/// Trimming takes characters from the end only, and nothing up to a character that is not white
/// space.
pub proof fn lemma_trimmed_end(s: Seq<char>)
    ensures
        trimmed_end(s).len() <= s.len(),
        trimmed_end(s) == s.take(trimmed_end(s).len() as int),
        forall|j: int| 0 <= j < s.len() && !is_white(#[trigger] s[j]) ==> j < trimmed_end(s).len(),
        forall|j: int| trimmed_end(s).len() <= j < s.len() ==> is_white(#[trigger] s[j]),
    decreases s.len(),
{
    if s.len() > 0 && is_white(s.last()) {
        let t = s.drop_last();
        lemma_trimmed_end(t);
        assert(t.take(trimmed_end(t).len() as int) =~= s.take(trimmed_end(s).len() as int));
        assert forall|j: int| 0 <= j < s.len() && !is_white(#[trigger] s[j]) implies j
            < trimmed_end(s).len() by {
            assert(j < t.len());
            assert(t[j] == s[j]);
        }
        assert forall|j: int| trimmed_end(s).len() <= j < s.len() implies is_white(
            #[trigger] s[j],
        ) by {
            if j < t.len() {
                assert(t[j] == s[j]);
            }
        }
    } else {
        assert(s.take(s.len() as int) =~= s);
    }
}

/// `part` stands in `s` from position `i` on.
pub open spec fn occurs_at(s: Seq<char>, part: Seq<char>, i: int) -> bool {
    0 <= i && i + part.len() <= s.len() && s.subrange(i, i + part.len()) == part
}

/// Where nothing is to be replaced, nothing changes.
pub proof fn law_nothing_to_replace(s: Seq<char>, from: Seq<char>, to: Seq<char>)
    requires
        forall|i: int| !occurs_at(s, from, i),
    ensures
        replaced(s, from, to) == s,
    decreases s.len(),
{
    if s.len() > 0 && from.len() > 0 {
        if from.len() <= s.len() && s.take(from.len() as int) == from {
            assert(s.subrange(0, from.len() as int) =~= s.take(from.len() as int));
            assert(occurs_at(s, from, 0));
        }
        let rest = s.skip(1);
        assert forall|i: int| !occurs_at(rest, from, i) by {
            if occurs_at(rest, from, i) {
                assert(s.subrange(i + 1, i + 1 + from.len()) =~= rest.subrange(i, i + from.len()));
                assert(occurs_at(s, from, i + 1));
            }
        }
        law_nothing_to_replace(rest, from, to);
        assert(seq![s[0]] + rest =~= s);
    }
}

/// The first occurrence is replaced, what precedes it stays, and what follows it is treated in the
/// same way.
pub proof fn law_first_occurrence_is_replaced(a: Seq<char>, from: Seq<char>, b: Seq<char>, to: Seq<char>)
    requires
        from.len() > 0,
        forall|i: int| i < a.len() ==> !occurs_at(a + from + b, from, i),
    ensures
        replaced(a + from + b, from, to) == a + to + replaced(b, from, to),
    decreases a.len(),
{
    let s = a + from + b;
    let n = from.len() as int;
    if a.len() == 0 {
        assert(s.take(n) =~= from);
        assert(s.skip(n) =~= b);
        assert(a + to + replaced(b, from, to) =~= to + replaced(b, from, to));
    } else {
        assert(s.subrange(0, n) =~= s.take(n));
        assert(!occurs_at(s, from, 0));
        let c = a.skip(1);
        assert(s.skip(1) =~= c + from + b);
        assert forall|i: int| i < c.len() implies !occurs_at(c + from + b, from, i) by {
            if occurs_at(c + from + b, from, i) {
                assert(s.subrange(i + 1, i + 1 + n) =~= (c + from + b).subrange(i, i + n));
                assert(occurs_at(s, from, i + 1));
            }
        }
        law_first_occurrence_is_replaced(c, from, b, to);
        assert(seq![s[0]] + (c + to + replaced(b, from, to)) =~= a + to + replaced(b, from, to));
    }
}

/// What does not hold the first character of what is replaced stays.
pub proof fn lemma_replaced_after(a: Seq<char>, s: Seq<char>, from: Seq<char>, to: Seq<char>)
    requires
        from.len() > 0,
        !a.contains(from[0]),
    ensures
        replaced(a + s, from, to) == a + replaced(s, from, to),
    decreases a.len(),
{
    let all = a + s;
    if a.len() == 0 {
        assert(all =~= s);
        assert(a + replaced(s, from, to) =~= replaced(s, from, to));
    } else {
        let b = a.skip(1);
        assert(a[0] != from[0]);
        if from.len() <= all.len() {
            assert(all.take(from.len() as int)[0] == a[0]);
        }
        assert(all.skip(1) =~= b + s);
        assert forall|i: int| 0 <= i < b.len() implies b[i] != from[0] by {
            assert(b[i] == a[i + 1]);
        }
        lemma_replaced_after(b, s, from, to);
        assert(seq![all[0]] + (b + replaced(s, from, to)) =~= a + replaced(s, from, to));
    }
}

/// Case is folded for the letters of ASCII and for nothing else, character by character.
pub proof fn law_lower_case(s: Seq<char>, i: int)
    requires
        0 <= i < s.len(),
    ensures
        lower(s).len() == s.len(),
        lower(lower(s)) == lower(s),
        !('A' <= lower(s)[i] && lower(s)[i] <= 'Z'),
        !('A' <= s[i] && s[i] <= 'Z') ==> lower(s)[i] == s[i],
        'A' <= s[i] && s[i] <= 'Z' ==> lower(s)[i] as u32 == s[i] as u32 + 32,
{
    assert(lower(lower(s)) =~= lower(s));
}

/// A text ends with whatever was appended to it, and only with such texts.
pub proof fn law_ends_with(s: Seq<char>, suffix: Seq<char>)
    ensures
        ends_with(s, suffix) <==> exists|head: Seq<char>| s == #[trigger] (head + suffix),
{
    if ends_with(s, suffix) {
        let head = s.take(s.len() - suffix.len());
        assert(s =~= head + suffix);
    }
    if exists|head: Seq<char>| s == #[trigger] (head + suffix) {
        let head = choose|head: Seq<char>| s == #[trigger] (head + suffix);
        assert(s.skip(s.len() - suffix.len()) =~= suffix);
    }
}

/// Trimming takes the white space at the end, all of it, and nothing else.
pub proof fn law_trimming_takes_the_end(kept: Seq<char>, white: Seq<char>)
    requires
        kept.len() == 0 || !is_white(kept.last()),
        forall|i: int| 0 <= i < white.len() ==> is_white(#[trigger] white[i]),
    ensures
        trimmed_end(kept + white) == kept,
    decreases white.len(),
{
    let s = kept + white;
    if white.len() > 0 {
        assert(s.last() == white[white.len() - 1]);
        assert(s.drop_last() =~= kept + white.drop_last());
        law_trimming_takes_the_end(kept, white.drop_last());
    } else {
        assert(s =~= kept);
    }
}

/// Of the characters of ASCII the blank and the controls from tab to carriage return are white
/// space, and no letter, digit or sign is.
pub proof fn law_white_space_of_ascii(c: char)
    requires
        c as u32 <= 0x7f,
    ensures
        is_white(c) <==> c == ' ' || ('\t' <= c && c <= '\r'),
        '!' <= c && c <= '~' ==> !is_white(c),
        is_white('\n'),
{
}

} // verus!
