//! Request-language negotiation over a cookie and the accept-language
//! header.

use vstd::prelude::*;

use crate::util::str_eq;

verus! {

/// The language chosen for one request.
pub struct Language {
    pub language: String,
}

/// Whether this crate carries translations for the language.
pub open spec fn spec_is_supported(s: Seq<char>) -> bool {
    s == "de"@ || s == "en"@
}

/// Decides `spec_is_supported`.
pub fn is_supported_language(lang: &str) -> (r: bool)
    ensures
        r == spec_is_supported(lang@),
{
    str_eq(lang, "de") || str_eq(lang, "en")
}

/// The supported languages, most preferred default first.
pub fn supported_languages() -> (r: Vec<String>)
    ensures
        r@.len() == 2,
        r@[0]@ == "de"@,
        r@[1]@ == "en"@,
{
    let mut r: Vec<String> = Vec::new();
    r.push("de".to_owned());
    r.push("en".to_owned());
    r
}

/// A character a quality value may consist of.
pub open spec fn is_q_value_char(c: char) -> bool {
    ('0' <= c && c <= '9') || c == '.'
}

/// A header-list separator.
pub open spec fn is_q_separator(c: char) -> bool {
    c == ';' || c == ','
}

/// Every run of characters that follows an `=` up to the next separator
/// consists of digits and dots. Quality tags are parsed as floating-point
/// numbers by the negotiation call below; a header that satisfies this
/// predicate can only yield plain non-negative qualities, never a NaN that
/// would hand the call's sort a non-total order.
pub open spec fn spec_plain_q_values(s: Seq<char>) -> bool {
    forall|i: int, j: int|
        #![trigger s[i], s[j]]
        0 <= i < j < s.len() && s[i] == '=' && !is_q_separator(s[j]) && (forall|k: int|
            i < k < j ==> !is_q_separator(#[trigger] s[k])) ==> is_q_value_char(s[j])
}

/// Decides `spec_plain_q_values` in one pass.
#[verifier::loop_isolation(false)]
pub fn has_plain_q_values(s: &str) -> (r: bool)
    ensures
        r == spec_plain_q_values(s@),
{
    let len = s.unicode_len();
    let mut in_value: bool = false;
    let ghost mut eq_pos: int = 0;
    let mut p: usize = 0;
    while p < len
        invariant
            p <= len,
            len == s@.len(),
            in_value ==> 0 <= eq_pos < p && s@[eq_pos] == '=' && forall|k: int|
                eq_pos < k < p ==> !is_q_separator(#[trigger] s@[k]),
            !in_value ==> forall|i2: int|
                0 <= i2 < p && #[trigger] s@[i2] == '=' ==> exists|k: int|
                    i2 < k < p && is_q_separator(#[trigger] s@[k]),
            forall|i2: int, j2: int|
                #![trigger s@[i2], s@[j2]]
                0 <= i2 < j2 < p && s@[i2] == '=' && !is_q_separator(s@[j2]) && (forall|k: int|
                    i2 < k < j2 ==> !is_q_separator(#[trigger] s@[k])) ==> is_q_value_char(
                    s@[j2],
                ),
        decreases len - p,
    {
        let c = s.get_char(p);
        if in_value {
            if c == ';' || c == ',' {
                in_value = false;
                proof {
                    assert forall|i2: int|
                        0 <= i2 < p + 1 && #[trigger] s@[i2] == '=' implies exists|k: int|
                        i2 < k < p + 1 && is_q_separator(#[trigger] s@[k]) by {
                        assert(is_q_separator(s@[p as int]));
                    }
                }
            } else if !(('0' <= c && c <= '9') || c == '.') {
                proof {
                    assert(s@[eq_pos] == '=' && !is_q_separator(s@[p as int])
                        && !is_q_value_char(s@[p as int]));
                }
                return false;
            }
        } else {
            if c == '=' {
                in_value = true;
                proof {
                    eq_pos = p as int;
                }
            } else if c == ';' || c == ',' {
                proof {
                    assert forall|i2: int|
                        0 <= i2 < p + 1 && #[trigger] s@[i2] == '=' implies exists|k: int|
                        i2 < k < p + 1 && is_q_separator(#[trigger] s@[k]) by {
                        assert(is_q_separator(s@[p as int]));
                    }
                }
            }
        }
        proof {
            assert forall|i2: int, j2: int|
                #![trigger s@[i2], s@[j2]]
                0 <= i2 < j2 < p + 1 && s@[i2] == '=' && !is_q_separator(s@[j2]) && (forall|k: int|
                    i2 < k < j2 ==> !is_q_separator(#[trigger] s@[k])) implies is_q_value_char(
                s@[j2],
            ) by {
                if j2 == p as int && !is_q_separator(s@[p as int]) && !in_value {
                    // A separator already stands between any earlier `=`
                    // and this position, against the hypothesis that the
                    // run reaches it.
                    assert(s@[i2] == '=');
                }
            }
        }
        p += 1;
    }
    true
}

/// What `accept_language::intersection` returns for a header and a
/// supported list.
pub uninterp spec fn accept_language_common(header: Seq<char>, supported: Seq<Seq<char>>) -> Seq<
    Seq<char>,
>;

/// Relies on accept_language::intersection: the languages of the header
/// that stand in `supported`, best first. Every element of the result is
/// drawn from `supported`, and for the admitted headers the result depends
/// on the arguments alone. The call parses each `;q=` tag as a
/// floating-point number and sorts by it; headers are admitted only with
/// plain digits-and-dots quality values, so no quality is a NaN, the sort's
/// order is total, and the call neither panics nor sorts unspecified.
#[verifier::external_body]
fn intersect_accept_language(header: &str, supported: &Vec<String>) -> (r: Vec<String>)
    requires
        spec_plain_q_values(header@),
    ensures
        r.deep_view() == accept_language_common(header@, supported.deep_view()),
        forall|i: int|
            #![trigger r@[i]]
            0 <= i < r@.len() ==> exists|j: int|
                0 <= j < supported@.len() && r@[i]@ == #[trigger] supported@[j]@,
{
    let refs: Vec<&str> = supported.iter().map(|s| s.as_str()).collect();
    accept_language::intersection(header, &refs)
}

/// The language choice for a request: a supported cookie wins; otherwise
/// the best supported language of the header; otherwise German without a
/// header and English with one that matches nothing or whose quality tags
/// are not plain numbers.
pub open spec fn spec_language_choice(cookie: Option<&str>, header: Option<&str>) -> Seq<char> {
    match cookie {
        Some(c) if spec_is_supported(c@) => c@,
        _ => match header {
            None => "de"@,
            Some(h) => {
                if spec_plain_q_values(h@) {
                    let common = accept_language_common(h@, seq!["de"@, "en"@]);
                    if common.len() > 0 {
                        common[0]
                    } else {
                        "en"@
                    }
                } else {
                    "en"@
                }
            },
        },
    }
}

impl Language {
    /// Hands the chosen language out as a plain string.
    pub fn into_string(self) -> (r: String)
        ensures
            r == self.language,
    {
        self.language
    }

    /// Chooses the language from a cookie and an accept-language header.
    pub fn from_preferences(cookie: Option<&str>, accept_header: Option<&str>) -> (r: Language)
        ensures
            r.language@ == spec_language_choice(cookie, accept_header),
    {
        let from_cookie = match cookie {
            Some(c) => if is_supported_language(c) {
                Some(c)
            } else {
                None
            },
            None => None,
        };
        match from_cookie {
            Some(c) => Language { language: c.to_owned() },
            None => match accept_header {
                None => Language { language: "de".to_owned() },
                Some(h) => {
                    if !has_plain_q_values(h) {
                        return Language { language: "en".to_owned() };
                    }
                    let supported = supported_languages();
                    proof {
                        assert(supported.deep_view() =~= seq!["de"@, "en"@]);
                    }
                    let common = intersect_accept_language(h, &supported);
                    if common.len() > 0 {
                        proof {
                            assert(common.deep_view()[0] == common@[0]@);
                        }
                        Language { language: common[0].clone() }
                    } else {
                        Language { language: "en".to_owned() }
                    }
                },
            },
        }
    }
}

} // verus!
