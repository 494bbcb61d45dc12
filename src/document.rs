//! The document check a worker applies to the text of a submitted invoice:
//! a Portuguese postal code (`NNNN-NNN`) and an ATCUD (an eight-character
//! series, a hyphen, and a sequence number) must both appear.
use vstd::prelude::*;
use vstd::utf8::encode_utf8;

use crate::decimal::{all_digits, is_ascii_digit};

verus! {

#[derive(Debug)]
pub enum Scope {
    Country,
    City,
}

#[derive(Debug)]
pub enum Country {
    Portugal,
}

/// Which rules a document is checked against.
pub struct Config {
    pub scope: Scope,
    pub country: Country,
}

/// Candidate ATCUDs: eight capitals or digits, a hyphen, then digits.
pub const ATCUD_PATTERN: &'static str = "([A-Z0-9]{8}-\\d+)";

/// Portuguese postal codes: four digits, a hyphen, three digits, as a word.
pub const POSTAL_CODE_PATTERN: &'static str = "\\b\\d{4}-\\d{3}\\b";

/// The text of every match of `pattern` in `text`, leftmost first and
/// without overlap; `None` when `pattern` is not a valid regular expression.
pub uninterp spec fn regex_matches(pattern: Seq<char>, text: Seq<char>) -> Option<Seq<Seq<char>>>;

/// Relies on `regex::Regex::new`, which fails on an invalid pattern, and on
/// `Regex::find_iter`, which yields the successive non-overlapping
/// leftmost-first matches; each match is copied out as a `String`.
#[verifier::external_body]
fn find_matches(pattern: &str, text: &str) -> (r: Option<Vec<String>>)
    ensures
        r is Some <==> regex_matches(pattern@, text@) is Some,
        r matches Some(v) ==> {
            &&& v@.len() == regex_matches(pattern@, text@)->0.len()
            &&& forall|k: int|
                0 <= k < v@.len() ==> #[trigger] v@[k]@ == regex_matches(pattern@, text@)->0[k]
        },
{
    match regex::Regex::new(pattern) {
        Ok(re) => Some(re.find_iter(text).map(|m| m.as_str().to_string()).collect()),
        Err(_) => None,
    }
}

/// `p` is the one position of a hyphen in `s`.
pub open spec fn only_hyphen_at(s: Seq<char>, p: int) -> bool {
    &&& 0 <= p < s.len()
    &&& s[p] == '-'
    &&& forall|i: int| 0 <= i < s.len() && i != p ==> #[trigger] s[i] != '-'
}

/// `s` is an ATCUD split at its only hyphen `p`: the series before it is
/// eight bytes long and the sequence after it is one or more ASCII digits.
pub open spec fn atcud_shape_at(s: Seq<char>, p: int) -> bool {
    &&& only_hyphen_at(s, p)
    &&& encode_utf8(s.subrange(0, p)).len() == 8
    &&& p + 1 < s.len()
    &&& all_digits(s.subrange(p + 1, s.len() as int))
}

/// A candidate is a valid ATCUD when it splits at a hyphen into exactly two
/// parts, an eight-byte series and a sequence of one or more ASCII digits.
pub open spec fn atcud_shape(s: Seq<char>) -> bool {
    exists|p: int| atcud_shape_at(s, p)
}

/// Whether `s` has the shape of an ATCUD.
pub fn is_atcud_shaped(s: &str) -> (r: bool)
    ensures
        r == atcud_shape(s@),
{
    let len = s.unicode_len();
    let mut p: usize = 0;
    while p < len && s.get_char(p) != '-'
        invariant
            p <= len,
            len == s@.len(),
            forall|i: int| 0 <= i < p ==> s@[i] != '-',
        decreases len - p,
    {
        p += 1;
    }
    if p == len {
        assert(!atcud_shape(s@)) by {
            if atcud_shape(s@) {
                let p2 = choose|p2: int| atcud_shape_at(s@, p2);
                assert(s@[p2] == '-');
            }
        }
        return false;
    }
    let mut q: usize = p + 1;
    while q < len
        invariant
            p < q <= len,
            len == s@.len(),
            s@[p as int] == '-',
            forall|i: int| 0 <= i < q && i != p ==> s@[i] != '-',
        decreases len - q,
    {
        if s.get_char(q) == '-' {
            assert(!atcud_shape(s@)) by {
                if atcud_shape(s@) {
                    let p2 = choose|p2: int| atcud_shape_at(s@, p2);
                    assert(s@[p as int] == '-' && s@[q as int] == '-');
                }
            }
            return false;
        }
        q += 1;
    }
    assert(only_hyphen_at(s@, p as int));
    assert(atcud_shape(s@) == atcud_shape_at(s@, p as int)) by {
        if atcud_shape(s@) {
            let p2 = choose|p2: int| atcud_shape_at(s@, p2);
            assert(s@[p2] == '-');
        }
    }
    let series = s.substring_char(0, p);
    let series_bytes = series.as_bytes().len();
    if series_bytes != 8 || p + 1 >= len {
        return false;
    }
    let mut k: usize = p + 1;
    while k < len
        invariant
            p + 1 <= k <= len,
            len == s@.len(),
            atcud_shape(s@) == atcud_shape_at(s@, p as int),
            forall|i: int| p + 1 <= i < k ==> is_ascii_digit(s@[i]),
        decreases len - k,
    {
        let c = s.get_char(k);
        if !('0' <= c && c <= '9') {
            assert(!all_digits(s@.subrange(p + 1, len as int))) by {
                assert(s@.subrange(p + 1, len as int)[k - p - 1] == c);
            }
            return false;
        }
        k += 1;
    }
    assert(all_digits(s@.subrange(p + 1, len as int))) by {
        assert forall|i: int| 0 <= i < s@.subrange(p + 1, len as int).len() implies is_ascii_digit(
            #[trigger] s@.subrange(p + 1, len as int)[i],
        ) by {
            assert(s@.subrange(p + 1, len as int)[i] == s@[p + 1 + i]);
        }
    }
    true
}

/// The first of `candidates` that has the shape of an ATCUD.
pub fn first_valid_atcud(candidates: &Vec<String>) -> (r: Option<String>)
    ensures
        match r {
            Some(a) => exists|k: int|
                0 <= k < candidates@.len() && a@ == candidates@[k]@ && atcud_shape(a@) && (
                forall|j: int| 0 <= j < k ==> !atcud_shape(#[trigger] candidates@[j]@)),
            None => forall|j: int|
                0 <= j < candidates@.len() ==> !atcud_shape(#[trigger] candidates@[j]@),
        },
{
    let mut k: usize = 0;
    while k < candidates.len()
        invariant
            k <= candidates@.len(),
            forall|j: int| 0 <= j < k ==> !atcud_shape(#[trigger] candidates@[j]@),
        decreases candidates@.len() - k,
    {
        if is_atcud_shaped(candidates[k].as_str()) {
            return Some(candidates[k].clone());
        }
        k += 1;
    }
    None
}

/// The first ATCUD in `text`: the first regex candidate that has the shape.
pub fn is_valid_atcud(text: &str) -> (r: Option<String>)
    ensures
        match regex_matches(ATCUD_PATTERN@, text@) {
            None => r is None,
            Some(m) => match r {
                Some(a) => exists|k: int|
                    0 <= k < m.len() && a@ == m[k] && atcud_shape(a@) && (forall|j: int|
                        0 <= j < k ==> !atcud_shape(#[trigger] m[j])),
                None => forall|j: int| 0 <= j < m.len() ==> !atcud_shape(#[trigger] m[j]),
            },
        },
{
    match find_matches(ATCUD_PATTERN, text) {
        None => None,
        Some(candidates) => {
            let r = first_valid_atcud(&candidates);
            proof {
                let m = regex_matches(ATCUD_PATTERN@, text@)->0;
                assert forall|j: int| 0 <= j < m.len() implies m[j] == #[trigger] candidates@[j]@ by {}
                if r is Some {
                    let a = r->0;
                    let k = choose|k: int|
                        0 <= k < candidates@.len() && a@ == candidates@[k]@ && atcud_shape(a@) && (
                        forall|j: int| 0 <= j < k ==> !atcud_shape(#[trigger] candidates@[j]@));
                    assert(a@ == m[k]);
                    assert forall|j: int| 0 <= j < k implies !atcud_shape(#[trigger] m[j]) by {
                        assert(m[j] == candidates@[j]@);
                    }
                } else {
                    assert forall|j: int| 0 <= j < m.len() implies !atcud_shape(#[trigger] m[j]) by {
                        assert(m[j] == candidates@[j]@);
                    }
                }
            }
            r
        },
    }
}

/// The first postal code in `text`.
pub fn extract_postal_code(text: &str) -> (r: Option<String>)
    ensures
        match regex_matches(POSTAL_CODE_PATTERN@, text@) {
            Some(m) if m.len() > 0 => r matches Some(c) && c@ == m[0],
            _ => r is None,
        },
{
    match find_matches(POSTAL_CODE_PATTERN, text) {
        Some(codes) => {
            if codes.len() > 0 {
                Some(codes[0].clone())
            } else {
                None
            }
        },
        None => None,
    }
}

/// Whether the text has an ATCUD candidate of the right shape and a postal
/// code.
pub open spec fn document_passes(text: Seq<char>) -> bool {
    &&& regex_matches(ATCUD_PATTERN@, text) matches Some(m) && exists|k: int|
        0 <= k < m.len() && atcud_shape(#[trigger] m[k])
    &&& regex_matches(POSTAL_CODE_PATTERN@, text) matches Some(c) && c.len() > 0
}

/// Checks the text of a document against the Portuguese rules.
pub fn validate(pdf_text: String) -> (r: bool)
    ensures
        r == document_passes(pdf_text@),
{
    let postal_code = extract_postal_code(pdf_text.as_str());
    let atcud = is_valid_atcud(pdf_text.as_str());
    atcud.is_some() && postal_code.is_some()
}

/// Checks the text of a document against the rules that `config` selects.
pub fn run_on_text(text: String, config: Config) -> (r: bool)
    ensures
        r == match config.country {
            Country::Portugal => document_passes(text@),
        },
{
    match config.country {
        Country::Portugal => validate(text),
    }
}

} // verus!
