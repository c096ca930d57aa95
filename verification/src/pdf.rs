//! Cheap checks that tell whether a PDF needs processing at all.

use crate::text::{ends_with, has_suffix, lower, to_chars, to_lower};
use vstd::prelude::*;
use vstd::string::*;

verus! {

/// How much of the end of a PDF is searched for an encryption dictionary.
pub const ENCRYPT_TAIL: usize = 65536;

/// The lower-case form of a byte that is an ASCII letter; any other byte is itself.
pub open spec fn lower_byte(b: u8) -> u8 {
    if 65 <= b && b <= 90 {
        (b + 32) as u8
    } else {
        b
    }
}

/// The bytes of `data` from `at` on spell `word`; with `fold`, in upper or lower case.
pub open spec fn spells(data: Seq<u8>, at: int, word: Seq<char>, fold: bool) -> bool {
    &&& 0 <= at
    &&& at + word.len() <= data.len()
    &&& forall|k: int|
        0 <= k < word.len() ==> (if fold {
            lower_byte(data[at + k])
        } else {
            data[at + k]
        }) as char == #[trigger] word[k]
}

/// `word` stands somewhere in `data`, beginning at `from` or later.
pub open spec fn spelled_from(data: Seq<u8>, from: int, word: Seq<char>, fold: bool) -> bool {
    exists|at: int| from <= at && #[trigger] spells(data, at, word, fold)
}

/// The name ends with `.pdf`, in any case.
pub open spec fn names_pdf(name: Seq<char>) -> bool {
    ends_with(lower(name), ".pdf"@)
}

/// The data names the OCR tool, in any case: the tool has left its stamp.
pub open spec fn is_stamped(data: Seq<u8>) -> bool {
    spelled_from(data, 0, "ocrmypdf"@, true)
}

/// Where the part that is searched for an encryption dictionary begins.
pub open spec fn tail_start(data: Seq<u8>) -> int {
    if data.len() > ENCRYPT_TAIL {
        data.len() - ENCRYPT_TAIL
    } else {
        0
    }
}

/// The end of the data names an encryption dictionary.
pub open spec fn is_encrypted(data: Seq<u8>) -> bool {
    spelled_from(data, tail_start(data), "/Encrypt"@, false)
}

/// An ASCII space, tab, line feed, form feed or carriage return.
pub open spec fn is_blank_byte(b: u8) -> bool {
    b == 32 || b == 9 || b == 10 || b == 12 || b == 13
}

/// Some byte is not blank.
pub open spec fn has_ink(text: Seq<u8>) -> bool {
    exists|i: int| 0 <= i < text.len() && !is_blank_byte(#[trigger] text[i])
}

fn word_at(data: &[u8], at: usize, word: &[char], fold: bool) -> (res: bool)
    requires
        at + word@.len() <= data@.len(),
    ensures
        res == spells(data@, at as int, word@, fold),
{
    let size = data.len();
    for k in 0..word.len()
        invariant
            size == data@.len(),
            at + word@.len() <= size,
            forall|j: int|
                0 <= j < k ==> (if fold {
                    lower_byte(data@[at + j])
                } else {
                    data@[at + j]
                }) as char == #[trigger] word@[j],
    {
        let b = data[at + k];
        let c = if fold && 65 <= b && b <= 90 {
            b + 32
        } else {
            b
        };
        if c as char != word[k] {
            assert((if fold {
                lower_byte(data@[at + k])
            } else {
                data@[at + k]
            }) as char != word@[k as int]);
            return false;
        }
    }
    true
}

fn find_word(data: &[u8], from: usize, word: &str, fold: bool) -> (res: bool)
    requires
        word@.len() > 0,
    ensures
        res == spelled_from(data@, from as int, word@, fold),
{
    let w = to_chars(word);
    if w.len() > data.len() {
        return false;
    }
    let last = data.len() - w.len();
    let mut at: usize = from;
    while at <= last
        invariant
            w@ == word@,
            w@.len() > 0,
            last == data@.len() - w@.len(),
            last < usize::MAX,
            from <= at,
            forall|j: int| from <= j < at ==> !(#[trigger] spells(data@, j, word@, fold)),
        decreases last + 1 - at,
    {
        if word_at(data, at, w.as_slice(), fold) {
            assert(spells(data@, at as int, word@, fold));
            return true;
        }
        at = at + 1;
    }
    false
}

/// Whether a file of that name is a PDF.
pub fn is_pdf_name(name: &str) -> (res: bool)
    ensures
        res == names_pdf(name@),
{
    has_suffix(to_lower(name).as_str(), ".pdf")
}

/// Whether the data bears the stamp of the OCR tool (`OCRmyPDF`, in any case). Metadata is stored
/// uncompressed, so a search through the bytes finds it.
pub fn pdf_has_ocrmypdf_stamp(data: &[u8]) -> (res: bool)
    ensures
        res == is_stamped(data@),
{
    proof {
        reveal_strlit("ocrmypdf");
    }
    find_word(data, 0, "ocrmypdf", true)
}

/// Whether the last 64 KB of the data name an encryption dictionary (`/Encrypt`). An encrypted
/// PDF cannot be processed.
pub fn pdf_is_encrypted(data: &[u8]) -> (res: bool)
    ensures
        res == is_encrypted(data@),
{
    proof {
        reveal_strlit("/Encrypt");
    }
    let from: usize = if data.len() > ENCRYPT_TAIL {
        data.len() - ENCRYPT_TAIL
    } else {
        0
    };
    find_word(data, from, "/Encrypt", false)
}

/// Whether the text extracted from a PDF holds anything but blanks.
pub fn pdf_has_text(extracted: &[u8]) -> (res: bool)
    ensures
        res == has_ink(extracted@),
{
    for i in 0..extracted.len()
        invariant
            forall|j: int| 0 <= j < i ==> is_blank_byte(#[trigger] extracted@[j]),
    {
        let b = extracted[i];
        if !(b == 32 || b == 9 || b == 10 || b == 12 || b == 13) {
            assert(!is_blank_byte(extracted@[i as int]));
            return true;
        }
    }
    false
}

/// Reading the last 64 KB of a file is enough to tell whether it is encrypted.
pub proof fn law_tail_decides_encryption(data: Seq<u8>)
    ensures
        is_encrypted(data) == is_encrypted(data.skip(tail_start(data))),
{
    let start = tail_start(data);
    let tail = data.skip(start);
    let word = "/Encrypt"@;
    if is_encrypted(data) {
        let at = choose|at: int| start <= at && #[trigger] spells(data, at, word, false);
        assert forall|k: int| 0 <= k < word.len() implies tail[at - start + k] as char
            == #[trigger] word[k] by {
            assert(data[at + k] as char == word[k]);
        }
        assert(spells(tail, at - start, word, false));
    }
    if is_encrypted(tail) {
        let at = choose|at: int| 0 <= at && #[trigger] spells(tail, at, word, false);
        assert forall|k: int| 0 <= k < word.len() implies data[at + start + k] as char
            == #[trigger] word[k] by {
            assert(tail[at + k] as char == word[k]);
        }
        assert(spells(data, at + start, word, false));
    }
}

/// A stamp stays found whatever is put before or after the data that bears it.
pub proof fn law_stamp_is_found_anywhere(before: Seq<u8>, data: Seq<u8>, after: Seq<u8>)
    requires
        is_stamped(data),
    ensures
        is_stamped(before + data + after),
{
    let word = "ocrmypdf"@;
    let at = choose|at: int| 0 <= at && #[trigger] spells(data, at, word, true);
    let all = before + data + after;
    assert forall|k: int| 0 <= k < word.len() implies lower_byte(all[before.len() + at + k]) as char
        == #[trigger] word[k] by {
        assert(all[before.len() + at + k] == data[at + k]);
        assert(lower_byte(data[at + k]) as char == word[k]);
    }
    assert(spells(all, before.len() + at, word, true));
}

/// The bytes from `at` on are these lower-case letters, each as it is or in upper case.
pub open spec fn letters_at(data: Seq<u8>, at: int, letters: Seq<u8>) -> bool {
    &&& 0 <= at
    &&& at + letters.len() <= data.len()
    &&& forall|k: int|
        0 <= k < letters.len() ==> data[at + k] == letters[k] || data[at + k] + 32 == #[trigger] letters[k]
}

/// The stamp is the name of the tool, `ocrmypdf`, letter by letter in upper or lower case, anywhere
/// in the data.
pub proof fn law_stamp_is_the_name_of_the_tool(data: Seq<u8>, letters: Seq<u8>)
    requires
        letters == seq![0x6fu8, 0x63u8, 0x72u8, 0x6du8, 0x79u8, 0x70u8, 0x64u8, 0x66u8],
    ensures
        is_stamped(data) <==> exists|at: int| #[trigger] letters_at(data, at, letters),
{
    reveal_strlit("ocrmypdf");
    let word = "ocrmypdf"@;
    assert(forall|k: int| 0 <= k < 8 ==> letters[k] as char == #[trigger] word[k]);
    assert(forall|k: int| 0 <= k < 8 ==> 97 <= #[trigger] letters[k] <= 122);
    if is_stamped(data) {
        let at = choose|at: int| 0 <= at && #[trigger] spells(data, at, word, true);
        assert forall|k: int| 0 <= k < letters.len() implies data[at + k] == letters[k] || data[at + k]
            + 32 == #[trigger] letters[k] by {
            assert(lower_byte(data[at + k]) as char == word[k]);
        }
        assert(letters_at(data, at, letters));
    }
    if exists|at: int| #[trigger] letters_at(data, at, letters) {
        let at = choose|at: int| #[trigger] letters_at(data, at, letters);
        assert forall|k: int| 0 <= k < word.len() implies lower_byte(data[at + k]) as char
            == #[trigger] word[k] by {
            assert(data[at + k] == letters[k] || data[at + k] + 32 == letters[k]);
        }
        assert(spells(data, at, word, true));
    }
}

/// A PDF is encrypted if `/Encrypt`, in that case, stands in its last 65536 bytes as a whole, and
/// only then.
pub proof fn law_encryption_is_named_at_the_end(data: Seq<u8>, bytes: Seq<u8>)
    requires
        bytes == seq![0x2fu8, 0x45u8, 0x6eu8, 0x63u8, 0x72u8, 0x79u8, 0x70u8, 0x74u8],
    ensures
        is_encrypted(data) <==> exists|at: int|
            {
                &&& 0 <= at
                &&& data.len() - 65536 <= at
                &&& at + 8 <= data.len()
                &&& #[trigger] data.subrange(at, at + 8) == bytes
            },
{
    reveal_strlit("/Encrypt");
    let word = "/Encrypt"@;
    assert(forall|k: int| 0 <= k < 8 ==> bytes[k] as char == #[trigger] word[k]);
    if is_encrypted(data) {
        let at = choose|at: int| tail_start(data) <= at && #[trigger] spells(data, at, word, false);
        assert forall|k: int| 0 <= k < 8 implies data.subrange(at, at + 8)[k] == bytes[k] by {
            assert(data[at + k] as char == word[k]);
        }
        assert(data.subrange(at, at + 8) =~= bytes);
    }
    if exists|at: int|
        0 <= at && data.len() - 65536 <= at && at + 8 <= data.len() && #[trigger] data.subrange(
            at,
            at + 8,
        ) == bytes {
        let at = choose|at: int|
            0 <= at && data.len() - 65536 <= at && at + 8 <= data.len() && #[trigger] data.subrange(
                at,
                at + 8,
            ) == bytes;
        assert forall|k: int| 0 <= k < word.len() implies data[at + k] as char == #[trigger] word[k] by {
            assert(data.subrange(at, at + 8)[k] == bytes[k]);
        }
        assert(spells(data, at, word, false));
    }
}

/// A PDF is known by its name: one that ends with `.pdf`, in any case, whatever stands before it.
pub proof fn law_pdf_by_suffix(name: Seq<char>)
    ensures
        names_pdf(name) <==> exists|stem: Seq<char>, suffix: Seq<char>|
            name == #[trigger] (stem + suffix) && lower(suffix) == ".pdf"@,
{
    reveal_strlit(".pdf");
    let n = lower(name);
    if names_pdf(name) {
        let k = name.len() - 4;
        let suffix = name.skip(k);
        assert(lower(suffix) =~= n.skip(k));
        assert(name =~= name.take(k) + suffix);
    }
    if exists|stem: Seq<char>, suffix: Seq<char>|
        name == #[trigger] (stem + suffix) && lower(suffix) == ".pdf"@ {
        let (stem, suffix) = choose|stem: Seq<char>, suffix: Seq<char>|
            name == #[trigger] (stem + suffix) && lower(suffix) == ".pdf"@;
        assert(n.skip(n.len() - 4) =~= lower(suffix));
    }
}

/// Extracted text counts if any part of it does; of single bytes, all count but the ASCII space,
/// tab, line feed, form feed and carriage return. Nothing is no text.
pub proof fn law_any_ink_counts(a: Seq<u8>, b: Seq<u8>, byte: u8)
    ensures
        has_ink(a + b) <==> has_ink(a) || has_ink(b),
        has_ink(seq![byte]) <==> !(byte == 0x20 || byte == 0x09 || byte == 0x0a || byte == 0x0c || byte
            == 0x0d),
        !has_ink(Seq::empty()),
{
    let ab = a + b;
    if has_ink(ab) {
        let i = choose|i: int| 0 <= i < ab.len() && !is_blank_byte(#[trigger] ab[i]);
        if i < a.len() {
            assert(ab[i] == a[i]);
        } else {
            assert(ab[i] == b[i - a.len()]);
        }
    }
    if has_ink(a) {
        let i = choose|i: int| 0 <= i < a.len() && !is_blank_byte(#[trigger] a[i]);
        assert(ab[i] == a[i]);
    }
    if has_ink(b) {
        let i = choose|i: int| 0 <= i < b.len() && !is_blank_byte(#[trigger] b[i]);
        assert(ab[a.len() + i] == b[i]);
    }
    assert(seq![byte][0] == byte);
}

} // verus!
