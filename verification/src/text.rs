//! Contracts for the string operations of std and of the `slug` crate that
//! the blog relies on, stated over character sequences.

use vstd::prelude::*;
use vstd::utf8::is_ascii_chars;

verus! {

/// The Unicode `White_Space` property, which `char::is_whitespace` and
/// `str::trim` use.
pub open spec fn is_white_space(c: char) -> bool {
    ||| ('\u{9}' <= c && c <= '\u{d}')
    ||| c == ' '
    ||| c == '\u{85}'
    ||| c == '\u{a0}'
    ||| c == '\u{1680}'
    ||| ('\u{2000}' <= c && c <= '\u{200a}')
    ||| c == '\u{2028}'
    ||| c == '\u{2029}'
    ||| c == '\u{202f}'
    ||| c == '\u{205f}'
    ||| c == '\u{3000}'
}

/// `s` without its leading white space.
pub open spec fn trim_front(s: Seq<char>) -> Seq<char>
    decreases s.len(),
{
    if s.len() > 0 && is_white_space(s[0]) {
        trim_front(s.drop_first())
    } else {
        s
    }
}

/// `s` without its trailing white space.
pub open spec fn trim_back(s: Seq<char>) -> Seq<char>
    decreases s.len(),
{
    if s.len() > 0 && is_white_space(s.last()) {
        trim_back(s.drop_last())
    } else {
        s
    }
}

/// `s` without leading and trailing white space.
pub open spec fn trimmed(s: Seq<char>) -> Seq<char> {
    trim_back(trim_front(s))
}

/// `str::trim`: the slice without leading and trailing characters that have
/// the Unicode `White_Space` property.
pub assume_specification<'a>[ str::trim ](s: &'a str) -> (res: &'a str)
    ensures
        res@ == trimmed(s@),
;

/// The lower-case form of an ASCII character.
pub open spec fn ascii_lower(c: char) -> char {
    if 'A' <= c && c <= 'Z' {
        ((c as u32) + 32) as char
    } else {
        c
    }
}

/// What `str::to_lowercase` returns: the Unicode lower-case mapping of the
/// whole string (some characters map to several, and a final capital sigma
/// depends on its neighbours).
pub uninterp spec fn lowercase(s: Seq<char>) -> Seq<char>;

/// `str::to_lowercase`. The result is named by `lowercase`; of an ASCII
/// string it is the ASCII lower-case form, character by character. Nothing
/// more is stated of the Unicode case mapping.
pub assume_specification[ str::to_lowercase ](s: &str) -> (res: String)
    ensures
        res@ == lowercase(s@),
        is_ascii_chars(s@) ==> res@ == s@.map_values(|c: char| ascii_lower(c)),
;

/// What `slug::slugify` returns for a string.
pub uninterp spec fn slugify_result(s: Seq<char>) -> Seq<char>;

/// A character that may stand in a slug.
pub open spec fn is_slug_char(c: char) -> bool {
    ('a' <= c && c <= 'z') || ('0' <= c && c <= '9') || c == '-'
}

/// A well-formed slug: only `a-z`, `0-9` and `-`, no two dashes in a row,
/// and no dash at either end.
pub open spec fn is_slug(s: Seq<char>) -> bool {
    &&& forall|i: int| 0 <= i < s.len() ==> is_slug_char(#[trigger] s[i])
    &&& forall|i: int| 0 <= i < s.len() - 1 ==> !(#[trigger] s[i] == '-' && s[i + 1] == '-')
    &&& s.len() > 0 ==> s[0] != '-' && s.last() != '-'
}

/// The slug that `slugify` builds from an ASCII string, with the flag that
/// says whether the last character written was a dash (or nothing has been
/// written yet).
pub open spec fn ascii_slug_scan(s: Seq<char>) -> (Seq<char>, bool)
    decreases s.len(),
{
    if s.len() == 0 {
        (Seq::empty(), true)
    } else {
        let (acc, prev_is_dash) = ascii_slug_scan(s.drop_last());
        let c = s.last();
        if ('a' <= c && c <= 'z') || ('0' <= c && c <= '9') {
            (acc.push(c), false)
        } else if 'A' <= c && c <= 'Z' {
            (acc.push(ascii_lower(c)), false)
        } else if !prev_is_dash {
            (acc.push('-'), true)
        } else {
            (acc, prev_is_dash)
        }
    }
}

/// The slug of an ASCII string: alphanumerics lower-cased, every run of
/// other characters turned into one dash, and no dash at either end.
pub open spec fn ascii_slug(s: Seq<char>) -> Seq<char> {
    let acc = ascii_slug_scan(s).0;
    if acc.len() > 0 && acc.last() == '-' {
        acc.drop_last()
    } else {
        acc
    }
}

/// `slug::slugify`: its result is named by `slugify_result`; it is always a
/// well-formed slug, and for an ASCII input it is `ascii_slug` of it (the
/// crate sends non-ASCII characters through `deunicode`, which is not
/// stated here).
#[verifier::external_body]
pub(crate) fn slugify(s: &str) -> (res: String)
    ensures
        res@ == slugify_result(s@),
        is_slug(res@),
        is_ascii_chars(s@) ==> res@ == ascii_slug(s@),
{
    slug::slugify(s)
}

} // verus!
