//! Automatic replies to regex-matched text. Matching is case-insensitive:
//! pattern and content are both lower-cased before the regex engine sees
//! them. The engine itself is outside code; what it decides is named here
//! and trusted, and everything around it is verified.

use vstd::prelude::*;

use crate::config::Config;
use crate::text::{chars_to_string, lower_chars, str_to_chars, to_lower_chars};

verus! {

/// Whether a pattern is a well-formed regular expression — the result of
/// `regex::Regex::new`, a function of the pattern alone.
pub uninterp spec fn regex_valid(pattern: Seq<char>) -> bool;

/// Whether a pattern matches somewhere in a text — the result of
/// `regex::Regex::is_match`, a function of pattern and text alone.
pub uninterp spec fn regex_match(pattern: Seq<char>, text: Seq<char>) -> bool;

/// The text with every non-overlapping match of a pattern deleted — the
/// result of `regex::Regex::replace_all` with an empty replacement, a
/// function of pattern and text alone.
pub uninterp spec fn regex_stripped(pattern: Seq<char>, text: Seq<char>) -> Seq<char>;

/// Relies on `regex::Regex::new`: compilation succeeds or fails on the
/// pattern alone.
#[verifier::external_body]
pub fn regex_compiles(pattern: &str) -> (r: bool)
    ensures
        r == regex_valid(pattern@),
{
    regex::Regex::new(pattern).is_ok()
}

/// Relies on `regex::Regex::new` and `regex::Regex::is_match`: `None`
/// exactly for patterns that do not compile, otherwise whether the pattern
/// matches somewhere in the text.
#[verifier::external_body]
pub fn try_is_match(pattern: &str, text: &str) -> (r: Option<bool>)
    ensures
        r is Some <==> regex_valid(pattern@),
        r matches Some(m) ==> m == regex_match(pattern@, text@),
{
    match regex::Regex::new(pattern) {
        Ok(re) => Some(re.is_match(text)),
        Err(_) => None,
    }
}

/// Relies on `regex::Regex::new` and `regex::Regex::replace_all`: `None`
/// exactly for patterns that do not compile, otherwise the text with every
/// match deleted.
#[verifier::external_body]
pub fn try_strip_matches(pattern: &str, text: &str) -> (r: Option<String>)
    ensures
        r is Some <==> regex_valid(pattern@),
        r matches Some(s) ==> s@ == regex_stripped(pattern@, text@),
{
    match regex::Regex::new(pattern) {
        Ok(re) => Some(re.replace_all(text, "").into_owned()),
        Err(_) => None,
    }
}

/// Every configured reply pattern compiles, after lower-casing. Checked
/// when a configuration is validated; the scan assumes it.
pub open spec fn reply_patterns_ok(table: Seq<(Seq<char>, Seq<char>)>) -> bool {
    forall|i: int|
        0 <= i < table.len() ==> regex_valid(lower_chars((#[trigger] table[i]).0))
}

/// The reply and pattern of the first configured pattern whose
/// case-insensitive match against the content succeeds.
pub open spec fn regexresponse_spec(
    table: Seq<(Seq<char>, Seq<char>)>,
    content: Seq<char>,
) -> Option<(Seq<char>, Seq<char>)>
    decreases table.len(),
{
    if table.len() == 0 {
        None
    } else if regex_match(lower_chars(table[0].0), lower_chars(content)) {
        Some((table[0].1, table[0].0))
    } else {
        regexresponse_spec(table.drop_first(), content)
    }
}

proof fn lemma_regexresponse_skip(
    table: Seq<(Seq<char>, Seq<char>)>,
    content: Seq<char>,
    i: int,
)
    requires
        0 <= i <= table.len(),
        forall|j: int|
            0 <= j < i ==> !regex_match(lower_chars((#[trigger] table[j]).0), lower_chars(content)),
    ensures
        regexresponse_spec(table, content) == regexresponse_spec(table.skip(i), content),
    decreases i,
{
    if i == 0 {
        assert(table.skip(0) =~= table);
    } else {
        assert forall|j: int|
            0 <= j < i - 1 implies !regex_match(
            lower_chars((#[trigger] table.drop_first()[j]).0),
            lower_chars(content),
        ) by {
            assert(table.drop_first()[j] == table[j + 1]);
        }
        lemma_regexresponse_skip(table.drop_first(), content, i - 1);
        assert(table.drop_first().skip(i - 1) =~= table.skip(i));
    }
}

/// Scans the configured reply patterns in order and returns the reply and
/// pattern of the first case-insensitive match, if any.
pub fn regexresponse(config: &Config, content: String) -> (r: Option<(String, String)>)
    requires
        reply_patterns_ok(config@.regex_responses),
    ensures
        match r {
            Some(p) => regexresponse_spec(config@.regex_responses, content@) == Some((p.0@, p.1@)),
            None => regexresponse_spec(config@.regex_responses, content@) is None,
        },
{
    let ghost table = config@.regex_responses;
    let content_lower = chars_to_string(&to_lower_chars(&str_to_chars(content.as_str())));
    let mut i: usize = 0;
    while i < config.regex_responses.len()
        invariant
            table == config@.regex_responses,
            table.len() == config.regex_responses.len(),
            reply_patterns_ok(table),
            content_lower@ == lower_chars(content@),
            i <= config.regex_responses.len(),
            forall|j: int|
                0 <= j < i ==> !regex_match(
                    lower_chars((#[trigger] table[j]).0),
                    lower_chars(content@),
                ),
        decreases config.regex_responses.len() - i,
    {
        proof {
            let iv = i as int;
            assert(table[iv] == (config.regex_responses@[iv].0@, config.regex_responses@[iv].1@));
        }
        let pattern_lower = chars_to_string(
            &to_lower_chars(&str_to_chars(config.regex_responses[i].0.as_str())),
        );
        match try_is_match(pattern_lower.as_str(), content_lower.as_str()) {
            Some(true) => {
                proof {
                    lemma_regexresponse_skip(table, content@, i as int);
                    assert(table.skip(i as int)[0] == table[i as int]);
                }
                return Some(
                    (config.regex_responses[i].1.clone(), config.regex_responses[i].0.clone()),
                );
            },
            Some(false) => {
            },
            None => {
                proof {
                    assert(false);
                }
            },
        }
        i += 1;
    }
    proof {
        lemma_regexresponse_skip(table, content@, table.len() as int);
        assert(table.skip(table.len() as int) =~= Seq::<(Seq<char>, Seq<char>)>::empty());
    }
    None
}

} // verus!
