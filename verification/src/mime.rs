//! Content types, parsed from `type/subtype[;parameters]` strings.
//!
//! A content type must parse from its string form; an unparseable string is a
//! terminal error for the operation that supplied it and is never silently
//! replaced with a default.

use vstd::prelude::*;
use vstd::string::StrSliceExecFns;

use crate::strutil::{find_char, find_char_in, lemma_find_char};

verus! {

/// A character accepted inside the type or subtype token of a content type.
pub open spec fn is_token_char(c: char) -> bool {
    ('a' <= c && c <= 'z') || ('A' <= c && c <= 'Z') || ('0' <= c && c <= '9') || c == '-' || c
        == '+' || c == '.' || c == '_' || c == '*'
}

/// A non-empty run of token characters.
pub open spec fn is_token(s: Seq<char>) -> bool {
    s.len() > 0 && forall|i: int| 0 <= i < s.len() ==> is_token_char(#[trigger] s[i])
}

/// The grammar of an acceptable content-type string: a token, a `/`, a token,
/// and optionally a `;` followed by arbitrary parameter text.
pub open spec fn mime_wf(s: Seq<char>) -> bool {
    let slash = find_char(s, '/');
    0 <= slash && is_token(s.subrange(0, slash)) && {
        let rest = s.subrange(slash + 1, s.len() as int);
        let semi = find_char(rest, ';');
        if semi == -1 {
            is_token(rest)
        } else {
            is_token(rest.subrange(0, semi))
        }
    }
}

/// The type token of a well-formed content-type string.
pub open spec fn spec_main_type(s: Seq<char>) -> Seq<char> {
    s.subrange(0, find_char(s, '/'))
}

/// The text after the type token and its `/`.
pub open spec fn spec_after_slash(s: Seq<char>) -> Seq<char> {
    s.subrange(find_char(s, '/') + 1, s.len() as int)
}

/// The subtype token of a well-formed content-type string.
pub open spec fn spec_sub_type(s: Seq<char>) -> Seq<char> {
    let rest = spec_after_slash(s);
    let semi = find_char(rest, ';');
    if semi == -1 {
        rest
    } else {
        rest.subrange(0, semi)
    }
}

/// The parameter text of a well-formed content-type string, when present.
pub open spec fn spec_parameters(s: Seq<char>) -> Option<Seq<char>> {
    let rest = spec_after_slash(s);
    let semi = find_char(rest, ';');
    if semi == -1 {
        None
    } else {
        Some(rest.subrange(semi + 1, rest.len() as int))
    }
}

/// A parsed content type. `raw` is the string it was parsed from; the other
/// fields are the pieces the resolution logic reads.
#[derive(Clone, Debug)]
pub struct MimeType {
    pub raw: String,
    pub main_type: String,
    pub sub_type: String,
    pub parameters: Option<String>,
}

impl MimeType {
    /// The fields agree with the grammar's reading of `raw`.
    pub open spec fn wf(&self) -> bool {
        &&& mime_wf(self.raw@)
        &&& self.main_type@ == spec_main_type(self.raw@)
        &&& self.sub_type@ == spec_sub_type(self.raw@)
        &&& self.parameters.deep_view() == spec_parameters(self.raw@)
    }

    /// Parses a content-type string. Returns `None` exactly when the string
    /// does not fit the grammar.
    pub fn parse(s: &str) -> (r: Option<MimeType>)
        ensures
            r is Some <==> mime_wf(s@),
            r matches Some(m) ==> m.wf() && m.raw@ == s@,
    {
        let n = s.unicode_len();
        let slash = match find_char_in(s, '/') {
            Some(i) => i,
            None => {
                return None;
            },
        };
        proof {
            lemma_find_char(s@, '/');
        }
        let main = s.substring_char(0, slash);
        if !check_token(main) {
            return None;
        }
        let rest = s.substring_char(slash + 1, n);
        match find_char_in(rest, ';') {
            None => {
                if !check_token(rest) {
                    return None;
                }
                Some(
                    MimeType {
                        raw: s.to_owned(),
                        main_type: main.to_owned(),
                        sub_type: rest.to_owned(),
                        parameters: None,
                    },
                )
            },
            Some(semi) => {
                proof {
                    lemma_find_char(rest@, ';');
                }
                let sub = rest.substring_char(0, semi);
                if !check_token(sub) {
                    return None;
                }
                let params = rest.substring_char(semi + 1, rest.unicode_len());
                Some(
                    MimeType {
                        raw: s.to_owned(),
                        main_type: main.to_owned(),
                        sub_type: sub.to_owned(),
                        parameters: Some(params.to_owned()),
                    },
                )
            },
        }
    }
}

/// Whether every character of `s` is a token character and `s` is non-empty.
fn check_token(s: &str) -> (r: bool)
    ensures
        r == is_token(s@),
{
    let n = s.unicode_len();
    if n == 0 {
        return false;
    }
    let mut i: usize = 0;
    while i < n
        invariant
            i <= n,
            n == s@.len(),
            forall|k: int| 0 <= k < i ==> is_token_char(#[trigger] s@[k]),
        decreases n - i,
    {
        if !token_char(s.get_char(i)) {
            return false;
        }
        i += 1;
    }
    true
}

/// Executable twin of `is_token_char`.
fn token_char(c: char) -> (r: bool)
    ensures
        r == is_token_char(c),
{
    ('a' <= c && c <= 'z') || ('A' <= c && c <= 'Z') || ('0' <= c && c <= '9') || c == '-' || c
        == '+' || c == '.' || c == '_' || c == '*'
}

} // verus!
