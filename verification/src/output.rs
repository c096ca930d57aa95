//! Where a repacked archive goes when no output path is given.

use crate::archive::{archive_stem, law_zip_is_repacked_in_place, lemma_stem_is_plain, name_or_empty,
    repack_output_name, stem_of_archive, zip_name_of};
use crate::number::{decimal, format_number, lemma_decimal, lemma_decimal_parses, parse_u32, parsed_u32};
use crate::path::{file_name, lemma_name_of_is_plain, lemma_name_of_sibling, name_of, sibling,
    with_file_name};
use crate::text::{begins_with, ends_with, find_last, from_chars, last_position, lemma_last_position,
    lemma_last_position_unique, same_text, to_chars};
use vstd::prelude::*;
use vstd::string::*;

verus! {

/// The stem ends with a dot and a version number.
pub open spec fn version_of(stem: Seq<char>) -> Option<u32> {
    let i = last_position(stem, '.');
    if i >= 0 {
        parsed_u32(stem.skip(i + 1))
    } else {
        None
    }
}

/// The stem without its version number, if it has one.
pub open spec fn base_of(stem: Seq<char>) -> Seq<char> {
    if version_of(stem) is Some {
        stem.take(last_position(stem, '.'))
    } else {
        stem
    }
}

/// The first version to try: one more than that of the stem, or 2.
pub open spec fn first_version(stem: Seq<char>) -> int {
    match version_of(stem) {
        Some(n) => n + 1,
        None => 2,
    }
}

/// The file name of version `n`.
pub open spec fn versioned_name(base: Seq<char>, n: nat) -> Seq<char> {
    base + "."@ + decimal(n) + ".zip"@
}

/// The ZIP made from the file `name` would replace that very file.
pub open spec fn collides(name: Seq<char>) -> bool {
    zip_name_of(name) == name
}

/// `probe`, asked about the text, can have answered `answer`.
pub open spec fn answered<F: Fn(&str) -> bool>(probe: &F, text: Seq<char>, answer: bool) -> bool {
    exists|s: &str| s@ == text && call_ensures(*probe, (s,), answer)
}

/// The stem without its version, and the first version to try, if there is one left.
fn split_version(stem: &str) -> (res: Option<(String, u32)>)
    ensures
        res is Some <==> first_version(stem@) <= u32::MAX,
        res matches Some(r) ==> r.0@ == base_of(stem@) && r.1 == first_version(stem@),
{
    let x = to_chars(stem);
    let len = x.len();
    if let Some(i) = find_last(x.as_slice(), '.') {
        let tail = vstd::slice::slice_subrange(x.as_slice(), i + 1, len);
        assert(tail@ =~= stem@.skip(i + 1));
        if let Some(n) = parse_u32(from_chars(tail).as_str()) {
            let head = vstd::slice::slice_subrange(x.as_slice(), 0, i);
            assert(head@ =~= stem@.take(i as int));
            if n == u32::MAX {
                return None;
            }
            return Some((from_chars(head), n + 1));
        }
    }
    Some((stem.to_owned(), 2))
}

fn version_name(base: &str, n: u32) -> (res: String)
    ensures
        res@ == versioned_name(base@, n as nat),
{
    let mut out = base.to_owned();
    out.append(".");
    out.append(format_number(n as u64).as_str());
    out.append(".zip");
    out
}

/// The file name of the output for the archive `name`: the archive's name with `.zip`, or, where
/// that is the archive itself, the first version that is not taken. `None` if no version is left.
pub fn output_name<F: Fn(&str) -> bool>(name: &str, taken: F) -> (res: Option<String>)
    requires
        forall|s: &str| call_requires(taken, (s,)),
    ensures
        !collides(name@) ==> res is Some && res->0@ == zip_name_of(name@),
        collides(name@) && res is Some ==> exists|n: nat|
            {
                &&& first_version(stem_of_archive(name@)) <= n <= u32::MAX
                &&& res->0@ == #[trigger] versioned_name(base_of(stem_of_archive(name@)), n)
                &&& answered(&taken, res->0@, false)
                &&& forall|m: nat|
                    first_version(stem_of_archive(name@)) <= m < n ==> answered(
                        &taken,
                        #[trigger] versioned_name(base_of(stem_of_archive(name@)), m),
                        true,
                    )
            },
        collides(name@) && res is None ==> forall|m: nat|
            first_version(stem_of_archive(name@)) <= m <= u32::MAX ==> answered(
                &taken,
                #[trigger] versioned_name(base_of(stem_of_archive(name@)), m),
                true,
            ),
{
    let candidate = repack_output_name(name);
    if !same_text(candidate.as_str(), name) {
        return Some(candidate);
    }
    let stem = archive_stem(name);
    let (base, start) = match split_version(stem.as_str()) {
        Some(split) => split,
        None => {
            return None;
        },
    };
    let mut n: u32 = start;
    loop
        invariant
            stem@ == stem_of_archive(name@),
            base@ == base_of(stem@),
            start == first_version(stem@),
            start <= n,
            collides(name@),
            forall|s: &str| call_requires(taken, (s,)),
            forall|m: nat|
                start <= m < n ==> answered(&taken, #[trigger] versioned_name(base@, m), true),
        decreases u32::MAX - n,
    {
        let versioned = version_name(base.as_str(), n);
        let used = taken(versioned.as_str());
        assert(answered(&taken, versioned@, used));
        if !used {
            assert(versioned@ == versioned_name(base@, n as nat));
            return Some(versioned);
        }
        if n == u32::MAX {
            assert forall|m: nat| start <= m <= u32::MAX implies answered(
                &taken,
                #[trigger] versioned_name(base@, m),
                true,
            ) by {
                if m == n {
                    assert(versioned_name(base@, m) == versioned@);
                }
            }
            return None;
        }
        assert forall|m: nat| start <= m < n + 1 implies answered(
            &taken,
            #[trigger] versioned_name(base@, m),
            true,
        ) by {
            if m == n {
                assert(versioned_name(base@, m) == versioned@);
            }
        }
        n = n + 1;
    }
}

/// The stem of the archive at `p`.
pub open spec fn input_stem(p: Seq<char>) -> Seq<char> {
    stem_of_archive(name_or_empty(p))
}

/// The path of the output for the archive at `input`: the given path, or else, beside the input,
/// the name that [`output_name`] picks among those that `present` does not report.
pub fn output_path<F: Fn(&str) -> bool>(input: &str, output: Option<&str>, present: F) -> (res:
    Option<String>)
    requires
        forall|s: &str| call_requires(present, (s,)),
    ensures
        output is Some ==> res is Some && res->0@ == output->0@,
        output is None && !collides(name_or_empty(input@)) ==> res is Some && res->0@ == sibling(
            input@,
            zip_name_of(name_or_empty(input@)),
        ),
        output is None && collides(name_or_empty(input@)) && res is Some ==> exists|n: nat|
            {
                &&& first_version(input_stem(input@)) <= n <= u32::MAX
                &&& res->0@ == sibling(input@, #[trigger] versioned_name(base_of(input_stem(input@)), n))
                &&& answered(&present, res->0@, false)
                &&& forall|m: nat|
                    first_version(input_stem(input@)) <= m < n ==> answered(
                        &present,
                        sibling(input@, #[trigger] versioned_name(base_of(input_stem(input@)), m)),
                        true,
                    )
            },
        output is None && collides(name_or_empty(input@)) && res is None ==> forall|m: nat|
            first_version(input_stem(input@)) <= m <= u32::MAX ==> answered(
                &present,
                sibling(
                    input@,
                    #[trigger] versioned_name(
                        base_of(input_stem(input@)),
                        m,
                    ),
                ),
                true,
            ),
{
    if let Some(o) = output {
        return Some(o.to_owned());
    }
    let name = match file_name(input) {
        Some(n) => n,
        None => String::new(),
    };
    assert(name@ == name_or_empty(input@));
    let taken = |n: &str| -> (used: bool)
        ensures
            answered(&present, sibling(input@, n@), used),
        {
            let p = with_file_name(input, n);
            let used = present(p.as_str());
            used
        };
    match output_name(name.as_str(), taken) {
        Some(o) => {
            let res = with_file_name(input, o.as_str());
            proof {
                if collides(name@) {
                    let base = base_of(input_stem(input@));
                    let first = first_version(input_stem(input@));
                    let n = choose|n: nat|
                        {
                            &&& first <= n <= u32::MAX
                            &&& o@ == #[trigger] versioned_name(base, n)
                            &&& answered(&taken, o@, false)
                            &&& forall|m: nat|
                                first <= m < n ==> answered(
                                    &taken,
                                    #[trigger] versioned_name(base, m),
                                    true,
                                )
                        };
                    assert(res@ == sibling(input@, versioned_name(base, n)));
                    assert(answered(&present, res@, false));
                    assert forall|m: nat| first <= m < n implies answered(
                        &present,
                        sibling(input@, #[trigger] versioned_name(base, m)),
                        true,
                    ) by {
                        assert(answered(&taken, versioned_name(base, m), true));
                    }
                }
            }
            Some(res)
        },
        None => None,
    }
}

/// The last dot of `base.tail` is the one before a dotless tail.
proof fn lemma_split_at_dot(base: Seq<char>, tail: Seq<char>)
    requires
        !tail.contains('.'),
    ensures
        last_position(base + "."@ + tail, '.') == base.len(),
        (base + "."@ + tail).skip(base.len() as int + 1) == tail,
        (base + "."@ + tail).take(base.len() as int) == base,
{
    reveal_strlit(".");
    let s = base + "."@ + tail;
    assert(s[base.len() as int] == '.');
    assert forall|i: int| base.len() < i < s.len() implies s[i] != '.' by {
        assert(s[i] == tail[i - base.len() - 1]);
        if s[i] == '.' {
            assert(tail.contains('.'));
        }
    }
    lemma_last_position_unique(s, '.', base.len() as int);
    assert(s.skip(base.len() as int + 1) =~= tail);
    assert(s.take(base.len() as int) =~= base);
}

proof fn lemma_decimal_has_no(n: nat, c: char)
    requires
        c == '.' || c == '/',
    ensures
        !decimal(n).contains(c),
{
    lemma_decimal(n);
    if decimal(n).contains(c) {
        let i = choose|i: int| 0 <= i < decimal(n).len() && decimal(n)[i] == c;
        assert(crate::number::is_digit(decimal(n)[i]));
    }
}

/// The name of a version collides, and from it the version counts up by one on the same base:
/// after `foo.2.zip` comes `foo.3.zip`, never `foo.2.2.zip`.
pub proof fn law_versions_count_up(base: Seq<char>, n: u32)
    requires
        !base.contains('/'),
    ensures
        collides(versioned_name(base, n as nat)),
        base_of(stem_of_archive(versioned_name(base, n as nat))) == base,
        first_version(stem_of_archive(versioned_name(base, n as nat))) == n + 1,
{
    let digits = decimal(n as nat);
    let stem = base + "."@ + digits;
    reveal_strlit(".");
    lemma_decimal(n as nat);
    lemma_decimal_has_no(n as nat, '.');
    lemma_decimal_has_no(n as nat, '/');
    assert(!stem.contains('/')) by {
        if stem.contains('/') {
            let i = choose|i: int| 0 <= i < stem.len() && stem[i] == '/';
            if i < base.len() {
                assert(base[i] == '/');
            } else if i > base.len() {
                assert(digits[i - base.len() - 1] == '/');
            }
        }
    }
    law_zip_is_repacked_in_place(stem);
    let name = versioned_name(base, n as nat);
    assert(name =~= stem + ".zip"@);
    assert(stem_of_archive(name) =~= stem) by {
        assert(stem_of_archive(name) + ".zip"@ == stem + ".zip"@);
        lemma_append_cancels(stem_of_archive(name), stem, ".zip"@);
    }
    lemma_split_at_dot(base, digits);
    lemma_decimal_parses(n);
}

/// Two texts that agree once the same text is appended agree.
proof fn lemma_append_cancels(a: Seq<char>, b: Seq<char>, tail: Seq<char>)
    requires
        a + tail == b + tail,
    ensures
        a == b,
{
    assert((a + tail).len() == a.len() + tail.len());
    assert((b + tail).len() == b.len() + tail.len());
    assert(a =~= (a + tail).take(a.len() as int));
    assert(b =~= (b + tail).take(a.len() as int));
}

/// A file that collides and bears no version gets version 2 of its whole stem first.
pub proof fn law_versions_start_at_two(stem: Seq<char>)
    requires
        version_of(stem) is None,
    ensures
        base_of(stem) == stem,
        first_version(stem) == 2,
{
}

/// The output picked by default is never the input: no version that is tried has the name of the
/// file that it is made from.
pub proof fn law_output_is_not_input(name: Seq<char>, n: nat)
    requires
        collides(name),
        first_version(stem_of_archive(name)) <= n <= u32::MAX,
    ensures
        versioned_name(base_of(stem_of_archive(name)), n) != name,
{
    let stem = stem_of_archive(name);
    let base = base_of(stem);
    reveal_strlit(".");
    lemma_decimal(n);
    if versioned_name(base, n) == name {
        assert(versioned_name(base, n) =~= (base + "."@ + decimal(n)) + ".zip"@);
        lemma_append_cancels(base + "."@ + decimal(n), stem, ".zip"@);
        lemma_last_position(stem, '.');
        if version_of(stem) is Some {
            lemma_decimal_has_no(n, '.');
            lemma_split_at_dot(base, decimal(n));
            lemma_decimal_parses(n as u32);
        }
    }
}

proof fn lemma_no_separator(a: Seq<char>, b: Seq<char>)
    requires
        !a.contains('/'),
        !b.contains('/'),
    ensures
        !(a + b).contains('/'),
{
    let ab = a + b;
    assert forall|i: int| 0 <= i < ab.len() implies ab[i] != '/' by {
        if i < a.len() {
            assert(ab[i] == a[i]);
        } else {
            assert(ab[i] == b[i - a.len()]);
        }
    }
}

/// Without an explicit output, the input is never overwritten: neither the ZIP beside it nor any
/// version that is tried has the path of the input.
pub proof fn law_default_output_spares_input(input: Seq<char>)
    requires
        name_of(input) is Some,
    ensures
        !collides(name_or_empty(input)) ==> sibling(input, zip_name_of(name_or_empty(input)))
            != input,
        collides(name_or_empty(input)) ==> forall|n: nat|
            first_version(input_stem(input)) <= n <= u32::MAX ==> sibling(
                input,
                #[trigger] versioned_name(base_of(input_stem(input)), n),
            ) != input,
{
    let name = name_of(input)->0;
    let stem = stem_of_archive(name);
    let base = base_of(stem);
    reveal_strlit(".");
    reveal_strlit(".zip");
    lemma_name_of_is_plain(input);
    lemma_stem_is_plain(name);
    lemma_last_position(stem, '.');
    lemma_no_separator(stem, ".zip"@);
    lemma_name_of_sibling(input, stem + ".zip"@);
    assert(!base.contains('/')) by {
        assert forall|i: int| 0 <= i < base.len() implies base[i] != '/' by {
            assert(base[i] == stem[i]);
        }
    }
    assert forall|n: nat|
        collides(name) && first_version(stem) <= n <= u32::MAX implies sibling(
        input,
        #[trigger] versioned_name(base, n),
    ) != input by {
        law_output_is_not_input(name, n);
        lemma_decimal_has_no(n, '/');
        lemma_no_separator(base, "."@);
        lemma_no_separator(base + "."@, decimal(n));
        lemma_no_separator(base + "."@ + decimal(n), ".zip"@);
        lemma_name_of_sibling(input, versioned_name(base, n));
    }
}

/// What counts as a version: a stem that ends with a dot and a number, however it is written, is a
/// version of what precedes the dot, and the next version is one more; any other stem is no
/// version, and its first version is 2.
pub proof fn law_version_is_the_number_at_the_end(base: Seq<char>, tail: Seq<char>)
    requires
        !tail.contains('.'),
    ensures
        match parsed_u32(tail) {
            Some(n) => base_of(base + "."@ + tail) == base && first_version(base + "."@ + tail) == n + 1,
            None => base_of(base + "."@ + tail) == base + "."@ + tail && first_version(
                base + "."@ + tail,
            ) == 2,
        },
        base_of(tail) == tail,
        first_version(tail) == 2,
{
    lemma_split_at_dot(base, tail);
    lemma_last_position(tail, '.');
}

/// The name of a version is the base, a dot, the number in decimal and `.zip`; different versions
/// have different names.
pub proof fn law_versions_are_told_apart(base: Seq<char>, n: u32, m: u32)
    ensures
        ends_with(versioned_name(base, n as nat), ".zip"@),
        begins_with(versioned_name(base, n as nat), base + "."@),
        parsed_u32(
            versioned_name(base, n as nat).subrange(
                base.len() as int + 1,
                versioned_name(base, n as nat).len() - 4,
            ),
        ) == Some(n),
        n != m ==> versioned_name(base, n as nat) != versioned_name(base, m as nat),
{
    reveal_strlit(".");
    reveal_strlit(".zip");
    let a = versioned_name(base, n as nat);
    let b = versioned_name(base, m as nat);
    lemma_decimal_parses(n);
    lemma_decimal_parses(m);
    assert(a.skip(a.len() - 4) =~= ".zip"@);
    assert(a.take(base.len() as int + 1) =~= base + "."@);
    assert(a.subrange(base.len() as int + 1, a.len() - 4) =~= decimal(n as nat));
    assert(b.subrange(base.len() as int + 1, b.len() - 4) =~= decimal(m as nat));
}

/// Only an archive whose name is its stem and `.zip` is in the way of its own output.
pub proof fn law_only_zips_collide(name: Seq<char>)
    ensures
        collides(name) <==> name == stem_of_archive(name) + ".zip"@,
        !ends_with(name, ".zip"@) ==> !collides(name),
{
    if collides(name) {
        let k = ".zip"@.len() as int;
        assert(zip_name_of(name).skip(name.len() - k) =~= ".zip"@);
    }
}

} // verus!
