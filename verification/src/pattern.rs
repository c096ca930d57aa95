//! File name patterns: globs, with alternatives in braces.

use crate::text::{ends_with, find_last, from_chars, last_position, lemma_last_position,
    lemma_last_position_unique, to_chars};
use vstd::prelude::*;
use vstd::slice::slice_subrange;
use vstd::string::*;

verus! {

/// What the `glob` crate says of a pattern and a text: whether the text matches, or nothing
/// where the pattern is not valid. Braces mean nothing to it.
pub uninterp spec fn glob_verdict(pattern: Seq<char>, text: Seq<char>) -> Option<bool>;

/// The pattern holds none of the characters that have a meaning of their own.
pub open spec fn is_literal(pattern: Seq<char>) -> bool {
    !pattern.contains('?') && !pattern.contains('*') && !pattern.contains('[')
}

/// What a simple pattern says of a text: one that is literal matches itself alone, and one that is
/// literal after a `*` matches the texts that end with it. Nothing where the pattern is not simple.
pub open spec fn simple_verdict(pattern: Seq<char>, text: Seq<char>) -> Option<bool> {
    if is_literal(pattern) {
        Some(text == pattern)
    } else if pattern.len() > 0 && pattern[0] == '*' && is_literal(pattern.skip(1)) {
        Some(ends_with(text, pattern.skip(1)))
    } else {
        None
    }
}

/// Compiles the pattern with `glob::Pattern::new` and matches the text with
/// `glob::Pattern::matches`, which distinguishes upper and lower case and lets `*` stand for
/// separators too. The result depends on the two texts alone (on Unix, where `/` is the only
/// separator). A pattern without `?`, `*` and `[` matches itself alone; such a pattern after one
/// `*` matches the texts that end with it.
#[verifier::external_body]
fn glob_outcome(pattern: &str, text: &str) -> (res: Option<bool>)
    ensures
        res == glob_verdict(pattern@, text@),
        is_literal(pattern@) ==> res == Some(text@ == pattern@),
        pattern@.len() > 0 && pattern@[0] == '*' && is_literal(pattern@.skip(1)) ==> res == Some(
            ends_with(text@, pattern@.skip(1)),
        ),
{
    match glob::Pattern::new(pattern) {
        Ok(p) => Some(p.matches(text)),
        Err(_) => None,
    }
}

/// Where the last `{` before `j` stands, or -1.
pub open spec fn open_before(p: Seq<char>, j: int) -> int {
    last_position(p.take(j), '{')
}

/// The `}` at `j` closes a group of alternatives: since the last `{`, there is a comma and no
/// other `}`.
pub open spec fn closes_group(p: Seq<char>, j: int) -> bool {
    &&& 0 <= j < p.len()
    &&& p[j] == '}'
    &&& 0 <= open_before(p, j) < j
    &&& last_position(p.take(j), '}') < open_before(p, j) < last_position(p.take(j), ',')
}

/// The position from `from` on that closes a group first, or -1.
pub open spec fn first_close(p: Seq<char>, from: int) -> int
    decreases p.len() - from,
{
    if from >= p.len() {
        -1
    } else if closes_group(p, from) {
        from
    } else {
        first_close(p, from + 1)
    }
}

/// The patterns that result where one alternative is chosen from each group of braces, as in
/// `*.{jpg,png}`. Groups inside others are taken first; braces without a comma stand for
/// themselves.
pub open spec fn alternatives(p: Seq<char>) -> Seq<Seq<char>>
    decreases p.len(),
{
    let j = first_close(p, 0);
    let i = open_before(p, j);
    if closes_group(p, j) {
        chosen(p.take(i), p.subrange(i + 1, j), p.skip(j + 1))
    } else {
        seq![p]
    }
}

/// The patterns that result where one of the texts between the commas of `group` is put between
/// `head` and `tail`.
pub open spec fn chosen(head: Seq<char>, group: Seq<char>, tail: Seq<char>) -> Seq<Seq<char>>
    decreases head.len() + group.len() + tail.len() + 1,
{
    let k = last_position(group, ',');
    if 0 <= k < group.len() {
        chosen(head, group.take(k), tail) + alternatives(head + group.skip(k + 1) + tail)
    } else {
        alternatives(head + group + tail)
    }
}

/// The text matches one of the patterns.
pub open spec fn any_accepts(patterns: Seq<Seq<char>>, text: Seq<char>) -> bool {
    exists|i: int| 0 <= i < patterns.len() && glob_verdict(#[trigger] patterns[i], text) == Some(true)
}

/// The text matches the pattern as it stands, or with one alternative chosen from each group of
/// braces.
pub open spec fn glob_matches(pattern: Seq<char>, text: Seq<char>) -> bool {
    glob_verdict(pattern, text) == Some(true) || any_accepts(alternatives(pattern), text)
}

/// A verdict on several patterns agrees with what the simple ones among them say: one that accepts
/// is enough, and where all are simple and none accepts, the text does not match.
pub open spec fn agrees(patterns: Seq<Seq<char>>, text: Seq<char>, verdict: bool) -> bool {
    &&& (exists|i: int|
        0 <= i < patterns.len() && simple_verdict(#[trigger] patterns[i], text) == Some(true))
        ==> verdict
    &&& (forall|i: int|
        0 <= i < patterns.len() ==> simple_verdict(#[trigger] patterns[i], text) == Some(false))
        ==> !verdict
}

proof fn lemma_join(a: Seq<Seq<char>>, b: Seq<Seq<char>>, text: Seq<char>, va: bool, vb: bool)
    requires
        va == any_accepts(a, text),
        agrees(a, text, va),
        vb == any_accepts(b, text),
        agrees(b, text, vb),
    ensures
        (va || vb) == any_accepts(a + b, text),
        agrees(a + b, text, va || vb),
{
    let ab = a + b;
    assert forall|i: int| 0 <= i < a.len() implies #[trigger] a[i] == ab[i] by {}
    assert forall|i: int| 0 <= i < b.len() implies #[trigger] b[i] == ab[i + a.len()] by {}
    assert forall|i: int| 0 <= i < ab.len() implies #[trigger] ab[i] == if i < a.len() {
        a[i]
    } else {
        b[i - a.len()]
    } by {}
}

proof fn lemma_join_accepted(a: Seq<Seq<char>>, b: Seq<Seq<char>>, text: Seq<char>)
    requires
        any_accepts(a, text),
        agrees(a, text, true),
    ensures
        any_accepts(a + b, text),
        agrees(a + b, text, true),
{
    let ab = a + b;
    assert forall|i: int| 0 <= i < a.len() implies #[trigger] a[i] == ab[i] by {}
}

fn accepts(pattern: &str, text: &str) -> (res: bool)
    ensures
        res == any_accepts(seq![pattern@], text@),
        agrees(seq![pattern@], text@, res),
        res == (glob_verdict(pattern@, text@) == Some(true)),
{
    let res = match glob_outcome(pattern, text) {
        Some(found) => found,
        None => false,
    };
    assert(seq![pattern@][0] == pattern@);
    res
}

/// The group that is closed first: where it opens and where it closes.
fn find_group(p: &[char]) -> (res: Option<(usize, usize)>)
    ensures
        match res {
            Some(g) => {
                &&& g.1 == first_close(p@, 0)
                &&& closes_group(p@, g.1 as int)
                &&& g.0 == open_before(p@, g.1 as int)
                &&& g.0 < g.1 < p@.len()
            },
            None => !closes_group(p@, first_close(p@, 0)),
        },
{
    for j in 0..p.len()
        invariant
            first_close(p@, 0) == first_close(p@, j as int),
    {
        if p[j] == '}' {
            let before = slice_subrange(p, 0, j);
            assert(before@ =~= p@.take(j as int));
            proof {
                lemma_last_position(before@, '{');
                lemma_last_position(before@, '}');
                lemma_last_position(before@, ',');
            }
            if let Some(i) = find_last(before, '{') {
                let closed = match find_last(before, '}') {
                    Some(k) => k > i,
                    None => false,
                };
                let comma = match find_last(before, ',') {
                    Some(k) => k > i,
                    None => false,
                };
                if !closed && comma {
                    assert(before@[i as int] == '{');
                    return Some((i, j));
                }
            }
        }
    }
    None
}

fn joined_text(head: &[char], mid: &[char], tail: &[char]) -> (res: String)
    ensures
        res@ == head@ + mid@ + tail@,
{
    let mut out = from_chars(head);
    out.append(from_chars(mid).as_str());
    out.append(from_chars(tail).as_str());
    out
}

fn any_alternative(pattern: &str, text: &str) -> (res: bool)
    ensures
        res == any_accepts(alternatives(pattern@), text@),
        agrees(alternatives(pattern@), text@, res),
    decreases pattern@.len(),
{
    let p = to_chars(pattern);
    let n = p.len();
    match find_group(p.as_slice()) {
        Some((i, j)) => {
            let head = slice_subrange(p.as_slice(), 0, i);
            let group = slice_subrange(p.as_slice(), i + 1, j);
            let tail = slice_subrange(p.as_slice(), j + 1, n);
            assert(head@ =~= pattern@.take(i as int));
            assert(group@ =~= pattern@.subrange(i + 1, j as int));
            assert(tail@ =~= pattern@.skip(j + 1));
            any_choice(head, group, tail, text)
        },
        None => accepts(pattern, text),
    }
}

fn any_choice(head: &[char], group: &[char], tail: &[char], text: &str) -> (res: bool)
    ensures
        res == any_accepts(chosen(head@, group@, tail@), text@),
        agrees(chosen(head@, group@, tail@), text@, res),
    decreases head@.len() + group@.len() + tail@.len() + 1,
{
    let n = group.len();
    match find_last(group, ',') {
        Some(k) => {
            let front = slice_subrange(group, 0, k);
            let last = slice_subrange(group, k + 1, n);
            assert(front@ =~= group@.take(k as int));
            assert(last@ =~= group@.skip(k + 1));
            let ghost a = chosen(head@, front@, tail@);
            let ghost b = alternatives(head@ + last@ + tail@);
            if any_choice(head, front, tail, text) {
                proof {
                    lemma_join_accepted(a, b, text@);
                }
                return true;
            }
            let found = any_alternative(joined_text(head, last, tail).as_str(), text);
            proof {
                lemma_join(a, b, text@, false, found);
            }
            found
        },
        None => any_alternative(joined_text(head, group, tail).as_str(), text),
    }
}

/// Whether the text matches the pattern, as it stands or with one alternative chosen from each
/// group of braces; a pattern that is not valid matches nothing.
pub fn glob_match(pattern: &str, text: &str) -> (res: bool)
    ensures
        res == glob_matches(pattern@, text@),
        agrees(seq![pattern@] + alternatives(pattern@), text@, res),
{
    if accepts(pattern, text) {
        proof {
            lemma_join_accepted(seq![pattern@], alternatives(pattern@), text@);
        }
        return true;
    }
    let found = any_alternative(pattern, text);
    proof {
        lemma_join(seq![pattern@], alternatives(pattern@), text@, false, found);
    }
    found
}

proof fn lemma_no_close(p: Seq<char>, from: int)
    requires
        0 <= from,
        forall|j: int| from <= j < p.len() ==> !closes_group(p, j),
    ensures
        first_close(p, from) == -1,
    decreases p.len() - from,
{
    if from < p.len() {
        lemma_no_close(p, from + 1);
    }
}

proof fn lemma_first_close(p: Seq<char>, from: int, at: int)
    requires
        0 <= from <= at,
        closes_group(p, at),
        forall|j: int| from <= j < at ==> !closes_group(p, j),
    ensures
        first_close(p, from) == at,
    decreases at - from,
{
    if from < at {
        lemma_first_close(p, from + 1, at);
    }
}

/// A pattern without `}` is its own only alternative: it means what the glob means.
pub proof fn law_without_braces_is_a_glob(pattern: Seq<char>, text: Seq<char>)
    requires
        !pattern.contains('}'),
    ensures
        alternatives(pattern) == seq![pattern],
        glob_matches(pattern, text) == (glob_verdict(pattern, text) == Some(true)),
{
    lemma_no_close(pattern, 0);
    if any_accepts(seq![pattern], text) {
        assert(seq![pattern][0] == pattern);
    }
}

/// No character of the text is a brace.
pub open spec fn braceless(s: Seq<char>) -> bool {
    !s.contains('{') && !s.contains('}')
}

/// Alternatives in braces: a text matches `head{a,b}tail` exactly if it matches `head`, then `a` or
/// `b`, then `tail`, or the pattern as it stands.
pub proof fn law_either_alternative_matches(
    head: Seq<char>,
    a: Seq<char>,
    b: Seq<char>,
    tail: Seq<char>,
    text: Seq<char>,
)
    requires
        braceless(head),
        braceless(a),
        braceless(b),
        braceless(tail),
        !a.contains(','),
        !b.contains(','),
    ensures
        ({
            let pattern = head + seq!['{'] + a + seq![','] + b + seq!['}'] + tail;
            &&& alternatives(pattern) == seq![head + a + tail, head + b + tail]
            &&& glob_matches(pattern, text) <==> {
                ||| glob_verdict(pattern, text) == Some(true)
                ||| glob_verdict(head + a + tail, text) == Some(true)
                ||| glob_verdict(head + b + tail, text) == Some(true)
            }
        }),
{
    let p = head + seq!['{'] + a + seq![','] + b + seq!['}'] + tail;
    let i = head.len() as int;
    let c = i + 1 + a.len();
    let j = c + 1 + b.len();
    assert(p[i] == '{' && p[c] == ',' && p[j] == '}');
    assert forall|x: int| 0 <= x < p.len() && x != i implies p[x] != '{' by {
        lemma_part(head, a, b, tail, x);
    }
    assert forall|x: int| 0 <= x < p.len() && x != j implies p[x] != '}' by {
        lemma_part(head, a, b, tail, x);
    }
    let before = p.take(j);
    lemma_last_position_unique(before, '{', i);
    lemma_last_position_unique(before, '}', -1);
    lemma_last_position(before, ',');
    assert(before[c] == ',');
    assert(closes_group(p, j));
    lemma_first_close(p, 0, j);
    let group = p.subrange(i + 1, j);
    assert(p.take(i) =~= head);
    assert(group =~= a + seq![','] + b);
    assert(p.skip(j + 1) =~= tail);
    let k = a.len() as int;
    assert forall|x: int| k < x < group.len() implies group[x] != ',' by {
        assert(group[x] == b[x - k - 1]);
    }
    lemma_last_position_unique(group, ',', k);
    assert(group.take(k) =~= a);
    assert(group.skip(k + 1) =~= b);
    lemma_last_position(a, ',');
    lemma_three_braceless(head, a, tail);
    lemma_three_braceless(head, b, tail);
    law_without_braces_is_a_glob(head + a + tail, text);
    law_without_braces_is_a_glob(head + b + tail, text);
    let both = seq![head + a + tail, head + b + tail];
    assert(chosen(head, a, tail) == alternatives(head + a + tail));
    assert(chosen(head, group, tail) == chosen(head, a, tail) + alternatives(head + b + tail));
    assert(alternatives(p) =~= both);
    assert(both[0] == head + a + tail && both[1] == head + b + tail);
}

proof fn lemma_part(head: Seq<char>, a: Seq<char>, b: Seq<char>, tail: Seq<char>, x: int)
    requires
        braceless(head),
        braceless(a),
        braceless(b),
        braceless(tail),
    ensures
        ({
            let p = head + seq!['{'] + a + seq![','] + b + seq!['}'] + tail;
            let i = head.len() as int;
            let j = i + 2 + a.len() + b.len();
            &&& 0 <= x < p.len() && x != i ==> p[x] != '{'
            &&& 0 <= x < p.len() && x != j ==> p[x] != '}'
        }),
{
    let p = head + seq!['{'] + a + seq![','] + b + seq!['}'] + tail;
    let i = head.len() as int;
    let c = i + 1 + a.len();
    let j = c + 1 + b.len();
    if 0 <= x < i {
        assert(p[x] == head[x]);
    } else if i < x < c {
        assert(p[x] == a[x - i - 1]);
    } else if c < x < j {
        assert(p[x] == b[x - c - 1]);
    } else if j < x < p.len() {
        assert(p[x] == tail[x - j - 1]);
    }
}

proof fn lemma_three_braceless(a: Seq<char>, b: Seq<char>, c: Seq<char>)
    requires
        braceless(a),
        braceless(b),
        braceless(c),
    ensures
        !(a + b + c).contains('}'),
{
    let s = a + b + c;
    assert forall|x: int| 0 <= x < s.len() implies s[x] != '}' by {
        if x < a.len() {
            assert(s[x] == a[x]);
        } else if x < a.len() + b.len() {
            assert(s[x] == b[x - a.len()]);
        } else {
            assert(s[x] == c[x - a.len() - b.len()]);
        }
    }
}

/// `x` is one of the texts between the commas of `group`.
pub open spec fn is_choice(group: Seq<char>, x: Seq<char>) -> bool {
    &&& !x.contains(',')
    &&& exists|before: Seq<char>, after: Seq<char>|
        #[trigger] stands_between(group, before, x, after)
}

/// `x` stands in `group` between these two parts.
pub open spec fn stands_between(group: Seq<char>, before: Seq<char>, x: Seq<char>, after: Seq<char>) -> bool {
    &&& group == before + x + after
    &&& before.len() == 0 || before.last() == ','
    &&& after.len() == 0 || after[0] == ','
}

proof fn lemma_choice_is_kept(group: Seq<char>, k: int, x: Seq<char>)
    requires
        0 <= k < group.len(),
        group[k] == ',',
        is_choice(group.take(k), x),
    ensures
        is_choice(group, x),
{
    let front = group.take(k);
    let (before, after) = choose|before: Seq<char>, after: Seq<char>|
        #[trigger] stands_between(front, before, x, after);
    let rest = after + group.skip(k);
    assert(group =~= front + group.skip(k));
    assert(front + group.skip(k) =~= before + x + rest);
    assert(rest[0] == ',');
    assert(stands_between(group, before, x, rest));
}

proof fn lemma_last_choice(group: Seq<char>, k: int)
    requires
        -1 <= k < group.len(),
        k >= 0 ==> group[k] == ',',
        forall|i: int| k < i < group.len() ==> group[i] != ',',
    ensures
        is_choice(group, group.skip(k + 1)),
{
    let last = group.skip(k + 1);
    assert(group =~= group.take(k + 1) + last + Seq::<char>::empty());
    assert forall|i: int| 0 <= i < last.len() implies last[i] != ',' by {
        assert(last[i] == group[k + 1 + i]);
    }
    assert(stands_between(group, group.take(k + 1), last, Seq::empty()));
}

proof fn lemma_no_other_choice(group: Seq<char>, k: int, x: Seq<char>)
    requires
        -1 <= k < group.len(),
        k >= 0 ==> group[k] == ',',
        forall|i: int| k < i < group.len() ==> group[i] != ',',
        is_choice(group, x),
    ensures
        x == group.skip(k + 1) || (k >= 0 && is_choice(group.take(k), x)),
{
    let (before, after) = choose|before: Seq<char>, after: Seq<char>|
        #[trigger] stands_between(group, before, x, after);
    let end = before.len() + x.len();
    if after.len() == 0 {
        if before.len() > 0 {
            assert(group[before.len() - 1] == ',');
            assert(k >= before.len() - 1);
        }
        if k >= before.len() {
            assert(x[k - before.len()] == group[k]);
        }
        assert(k == before.len() - 1);
        assert(group.skip(k + 1) =~= x);
    } else {
        assert(group[end as int] == ',');
        assert(k >= end);
        let rest = after.take(k - end);
        assert(group.take(k) =~= before + x + rest);
        assert(rest.len() == 0 || rest[0] == after[0]);
        assert(stands_between(group.take(k), before, x, rest));
    }
}

proof fn lemma_chosen(head: Seq<char>, group: Seq<char>, tail: Seq<char>, r: Seq<char>)
    ensures
        chosen(head, group, tail).contains(r) <==> exists|x: Seq<char>|
            #[trigger] is_choice(group, x) && alternatives(head + x + tail).contains(r),
    decreases group.len(),
{
    let k = last_position(group, ',');
    lemma_last_position(group, ',');
    lemma_last_choice(group, k);
    let last = group.skip(k + 1);
    let all = chosen(head, group, tail);
    let b = alternatives(head + last + tail);
    if k < 0 {
        assert(last =~= group);
        assert(all == b);
        assert forall|x: Seq<char>| is_choice(group, x) implies x == group by {
            lemma_no_other_choice(group, k, x);
        }
    } else {
        let front = group.take(k);
        let a = chosen(head, front, tail);
        lemma_chosen(head, front, tail, r);
        assert(all == a + b);
        assert(all.contains(r) <==> a.contains(r) || b.contains(r)) by {
            lemma_contains_joined(a, b, r);
        }
        if a.contains(r) {
            let x = choose|x: Seq<char>|
                #[trigger] is_choice(front, x) && alternatives(head + x + tail).contains(r);
            lemma_choice_is_kept(group, k, x);
        }
        if exists|x: Seq<char>|
            #[trigger] is_choice(group, x) && alternatives(head + x + tail).contains(r) {
            let x = choose|x: Seq<char>|
                #[trigger] is_choice(group, x) && alternatives(head + x + tail).contains(r);
            lemma_no_other_choice(group, k, x);
        }
    }
}

proof fn lemma_contains_joined(a: Seq<Seq<char>>, b: Seq<Seq<char>>, r: Seq<char>)
    ensures
        (a + b).contains(r) <==> a.contains(r) || b.contains(r),
{
    let all = a + b;
    if all.contains(r) {
        let i = choose|i: int| 0 <= i < all.len() && all[i] == r;
        if i < a.len() {
            assert(a[i] == r);
        } else {
            assert(b[i - a.len()] == r);
        }
    }
    if a.contains(r) {
        let i = choose|i: int| 0 <= i < a.len() && a[i] == r;
        assert(all[i] == r);
    }
    if b.contains(r) {
        let i = choose|i: int| 0 <= i < b.len() && b[i] == r;
        assert(all[a.len() + i] == r);
    }
}

/// The `{` at `i` and the `}` at `j` enclose a choice: a comma stands between them, and no brace.
pub open spec fn is_group(p: Seq<char>, i: int, j: int) -> bool {
    &&& 0 <= i < j < p.len()
    &&& p[i] == '{'
    &&& p[j] == '}'
    &&& braceless(p.subrange(i + 1, j))
    &&& p.subrange(i + 1, j).contains(',')
}

proof fn lemma_closing(p: Seq<char>, j: int)
    ensures
        closes_group(p, j) ==> is_group(p, open_before(p, j), j),
        forall|i: int| #[trigger] is_group(p, i, j) ==> closes_group(p, j) && open_before(p, j) == i,
{
    if 0 <= j < p.len() {
        let before = p.take(j);
        lemma_last_position(before, '{');
        lemma_last_position(before, '}');
        lemma_last_position(before, ',');
        if closes_group(p, j) {
            let i = open_before(p, j);
            let group = p.subrange(i + 1, j);
            assert forall|x: int| 0 <= x < group.len() implies group[x] != '{' && group[x] != '}' by {
                assert(group[x] == before[i + 1 + x]);
            }
            let k = last_position(before, ',');
            assert(group[k - i - 1] == ',');
        }
        assert forall|i: int| #[trigger] is_group(p, i, j) implies closes_group(p, j) && open_before(
            p,
            j,
        ) == i by {
            let group = p.subrange(i + 1, j);
            assert forall|x: int| i < x < j implies before[x] != '{' && before[x] != '}' by {
                assert(group[x - i - 1] == before[x]);
            }
            lemma_last_position_unique(before, '{', i);
            let k = choose|k: int| 0 <= k < group.len() && group[k] == ',';
            assert(before[i + 1 + k] == ',');
            assert(before[i] == '{');
        }
    }
}

/// A group of braces stands for each of the texts between its commas, however many there are: the
/// alternatives of `head{group}tail` are those of `head`, one of these texts and `tail`. All that
/// is asked of `head` is that it holds no group itself; it may hold other braces, such as the
/// beginning of a group around this one, and `tail` may hold anything. So this says what any
/// pattern with a group stands for.
pub proof fn law_group_stands_for_each_choice(
    head: Seq<char>,
    group: Seq<char>,
    tail: Seq<char>,
    r: Seq<char>,
)
    requires
        forall|i: int, j: int| !is_group(head, i, j),
        braceless(group),
        group.contains(','),
    ensures
        alternatives(head + seq!['{'] + group + seq!['}'] + tail).contains(r) <==> exists|x: Seq<char>|
            #[trigger] is_choice(group, x) && alternatives(head + x + tail).contains(r),
{
    let p = head + seq!['{'] + group + seq!['}'] + tail;
    let i = head.len() as int;
    let j = i + 1 + group.len();
    assert(p.subrange(i + 1, j) =~= group);
    assert(is_group(p, i, j));
    lemma_closing(p, j);
    assert forall|x: int| 0 <= x < j implies !closes_group(p, x) by {
        lemma_closing(p, x);
        if closes_group(p, x) {
            let o = open_before(p, x);
            let inner = p.subrange(o + 1, x);
            if x < i {
                assert(head.subrange(o + 1, x) =~= inner);
                assert(is_group(head, o, x));
            } else if x > i {
                assert(group[x - i - 1] == '}');
            }
        }
    }
    lemma_first_close(p, 0, j);
    assert(p.take(i) =~= head);
    assert(p.skip(j + 1) =~= tail);
    lemma_chosen(head, group, tail, r);
}

/// The meaning of a pattern is that of its alternatives: a text matches if and only if the glob
/// accepts it for the pattern as it stands or for one of its alternatives.
pub proof fn law_one_alternative_is_enough(pattern: Seq<char>, text: Seq<char>)
    ensures
        glob_matches(pattern, text) <==> glob_verdict(pattern, text) == Some(true) || exists|q: Seq<char>|
            #[trigger] alternatives(pattern).contains(q) && glob_verdict(q, text) == Some(true),
{
    let list = alternatives(pattern);
    if any_accepts(list, text) {
        let i = choose|i: int|
            0 <= i < list.len() && glob_verdict(#[trigger] list[i], text) == Some(true);
        assert(list.contains(list[i]));
    }
    if exists|q: Seq<char>|
        #[trigger] list.contains(q) && glob_verdict(q, text) == Some(true) {
        let q = choose|q: Seq<char>|
            #[trigger] list.contains(q) && glob_verdict(q, text) == Some(true);
        let i = choose|i: int| 0 <= i < list.len() && list[i] == q;
        assert(glob_verdict(list[i], text) == Some(true));
    }
}

/// Braces stand for themselves where nothing is to be chosen: a pattern that holds no group is its
/// own only alternative, whatever braces and commas it holds.
pub proof fn law_braces_without_a_choice(pattern: Seq<char>, text: Seq<char>)
    requires
        forall|i: int, j: int| !is_group(pattern, i, j),
    ensures
        alternatives(pattern) == seq![pattern],
        glob_matches(pattern, text) <==> glob_verdict(pattern, text) == Some(true),
{
    assert forall|j: int| 0 <= j < pattern.len() implies !closes_group(pattern, j) by {
        lemma_closing(pattern, j);
    }
    lemma_no_close(pattern, 0);
    assert(alternatives(pattern) == seq![pattern]);
    assert(seq![pattern][0] == pattern);
}

} // verus!
