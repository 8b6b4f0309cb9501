use vstd::prelude::*;
use crate::text::{has_prefix, has_suffix};

verus! {

/// The characters that `char::to_uppercase` maps `c` to (one or more).
pub uninterp spec fn uppercase_of(c: char) -> Seq<char>;

/// The characters that `str::to_lowercase` maps `s` to.
pub uninterp spec fn lowercase_of(s: Seq<char>) -> Seq<char>;

/// Relies on std's `char::to_uppercase`, collected into a `String`: the upper-case mapping of
/// `c`, which depends on `c` alone.
#[verifier::external_body]
fn char_to_uppercase(c: char) -> (r: String)
    ensures
        r@ == uppercase_of(c),
{
    c.to_uppercase().collect::<String>()
}

/// Relies on std's `str::to_lowercase`: the lower-case mapping of `s`, which depends on the
/// characters of `s` alone.
#[verifier::external_body]
fn str_to_lowercase(s: &str) -> (r: String)
    ensures
        r@ == lowercase_of(s@),
{
    s.to_lowercase()
}

/// `s` with its first character replaced by `first`; the empty string stays empty.
pub open spec fn with_first(s: Seq<char>, first: Seq<char>) -> Seq<char> {
    if s.len() == 0 {
        Seq::empty()
    } else {
        first + s.subrange(1, s.len() as int)
    }
}

/// `s` with its first character in upper case.
pub open spec fn capitalized(s: Seq<char>) -> Seq<char> {
    if s.len() == 0 {
        Seq::empty()
    } else {
        with_first(s, uppercase_of(s[0]))
    }
}

/// The path of the record of the chapter with lower-case identifier `id`.
pub open spec fn chapter_path(id: Seq<char>) -> Seq<char> {
    "../tableau/chapters/chapter_"@ + id + ".json"@
}

/// The chapter part of a record's file name `chapter_<part>.json`.
pub open spec fn chapter_part(file_name: Seq<char>) -> Seq<char> {
    file_name.subrange(8, file_name.len() - 5)
}

/// Whether `file_name` is a chapter record's name: `chapter_` first, `.json` last.
pub open spec fn is_chapter_file(file_name: Seq<char>) -> bool {
    &&& "chapter_"@.len() <= file_name.len()
    &&& file_name.subrange(0, 8) == "chapter_"@
    &&& ".json"@.len() <= file_name.len()
    &&& file_name.subrange(file_name.len() - 5, file_name.len() as int) == ".json"@
}

/// Replaces the first character of `s` by `first` (typically its upper-case form); an empty
/// `s` gives an empty string.
pub fn capitalize_with(s: &str, first: &str) -> (r: String)
    ensures
        r@ == with_first(s@, first@),
{
    let n = s.unicode_len();
    if n == 0 {
        return String::new();
    }
    let rest = s.substring_char(1, n);
    let out = String::from_str(first);
    out.concat(rest)
}

/// `s` with its first character in upper case.
pub fn capitalize_first_letter(s: &str) -> (r: String)
    ensures
        r@ == capitalized(s@),
{
    let n = s.unicode_len();
    if n == 0 {
        return String::new();
    }
    let first = char_to_uppercase(s.get_char(0));
    capitalize_with(s, first.as_str())
}

/// The path of the record of the chapter whose identifier, already in lower case, is `id`.
pub fn chapter_file_path(id: &str) -> (r: String)
    ensures
        r@ == chapter_path(id@),
{
    let out = String::from_str("../tableau/chapters/chapter_");
    let out = out.concat(id);
    out.concat(".json")
}

/// The path of a chapter's record: `../tableau/chapters/chapter_<id>.json` with the identifier
/// in lower case.
pub fn format_chapter_id(input: &str) -> (r: String)
    ensures
        r@ == chapter_path(lowercase_of(input@)),
{
    let id = str_to_lowercase(input);
    chapter_file_path(id.as_str())
}

/// The display name of a chapter record `chapter_<part>.json`, `Chapter <Part>` with the part's
/// first letter in upper case; `None` for any other file name.
pub fn extract_chapter_name(file_name: &str) -> (r: Option<String>)
    ensures
        r is Some <==> is_chapter_file(file_name@),
        r matches Some(name) ==> name@ == "Chapter "@ + capitalized(chapter_part(file_name@)),
{
    proof {
        reveal_strlit("chapter_");
        reveal_strlit(".json");
    }
    if !(has_prefix(file_name, "chapter_") && has_suffix(file_name, ".json")) {
        return None;
    }
    let n = file_name.unicode_len();
    proof {
        let s = file_name@;
        if s.len() < 13 {
            let k = s.len() - 5;
            assert(s.subrange(s.len() - 5, s.len() as int)[0] == s[k]);
            assert(s.subrange(0, 8)[k] == s[k]);
            assert("chapter_"@[k] != '.');
        }
    }
    let part = file_name.substring_char(8, n - 5);
    let formatted = capitalize_first_letter(part);
    let name = String::from_str("Chapter ");
    Some(name.concat(formatted.as_str()))
}

} // verus!
