//! Time and timezone conversion. The calendar work — parsing a clock time,
//! resolving a zone name, finding today's date in a zone — is done by the
//! chrono crates behind trusted wrappers; reading the message, fixing the
//! capitalisation of a zone name and assembling the reply are verified.

use std::str::FromStr;

use chrono::Timelike;
use vstd::prelude::*;

use crate::commands::{Command, CommandError, CommandErrorView};
use crate::config::{Config, ConfigView, Role, RoleView};
use crate::text::{
    append_chars, chars_to_string, dec_str_signed, i64_to_chars, index_of, lemma_index_of,
    padded_str, str_to_chars, subvec, to_upper_char, u128_to_padded_chars, upper_char,
};
use crate::util::perms::{check_permission, has_perm};

verus! {

/// The hour and minute a time string parses to under a chrono format — the
/// result of `chrono::NaiveTime::parse_from_str`, a function of format and
/// input alone.
pub uninterp spec fn naive_time_hm(fmt: Seq<char>, s: Seq<char>) -> Option<(u8, u8)>;

/// The canonical IANA name a string resolves to — the result of
/// `chrono_tz::Tz::from_str` followed by `Tz::name`, a function of the
/// string alone.
pub uninterp spec fn tz_name_of(s: Seq<char>) -> Option<Seq<char>>;

/// Relies on `chrono::NaiveTime::parse_from_str`: success and the parsed
/// hour and minute depend on format and input alone, and
/// `chrono::Timelike::hour` and `minute` stay below 24 and 60.
#[verifier::external_body]
fn parse_naive_time(fmt: &str, s: &str) -> (r: Option<(u8, u8)>)
    ensures
        r == naive_time_hm(fmt@, s@),
        r matches Some(t) ==> t.0 < 24 && t.1 < 60,
{
    chrono::NaiveTime::parse_from_str(s, fmt).ok().map(|t| (t.hour() as u8, t.minute() as u8))
}

/// Relies on `chrono_tz::Tz::from_str` and `Tz::name`: both look the string
/// up in a fixed table, so the outcome depends on the string alone.
#[verifier::external_body]
fn tz_canonical_name(s: &str) -> (r: Option<String>)
    ensures
        r is Some <==> tz_name_of(s@) is Some,
        r matches Some(n) ==> tz_name_of(s@) == Some(n@),
{
    chrono_tz::Tz::from_str(s).ok().map(|t| t.name().to_string())
}

/// Relies on `chrono::Utc::today`, `Date::with_timezone`, `Date::and_time`
/// and `DateTime::timestamp`: the timestamp of the given wall-clock time on
/// today's date in the zone. It depends on the moment of the call, so
/// nothing is promised of the value.
#[verifier::external_body]
#[allow(deprecated)]
fn tz_unix_today(tz_name: &str, hour: u8, minute: u8) -> Option<i64> {
    let tz = chrono_tz::Tz::from_str(tz_name).ok()?;
    let time = chrono::NaiveTime::from_hms_opt(hour as u32, minute as u32, 0)?;
    let today = chrono::Utc::today().with_timezone(&tz);
    today.and_time(time).map(|dt| dt.timestamp())
}

/// Relies on the same chrono calls plus `DateTime::with_timezone`: the
/// wall-clock time in the second zone of the given time on today's date in
/// the first. It depends on the moment of the call; only the documented
/// hour and minute ranges are stated.
#[verifier::external_body]
#[allow(deprecated)]
fn tz_convert_today(from_name: &str, to_name: &str, hour: u8, minute: u8) -> (r: Option<(u8, u8)>)
    ensures
        r matches Some(t) ==> t.0 < 24 && t.1 < 60,
{
    let from = chrono_tz::Tz::from_str(from_name).ok()?;
    let to = chrono_tz::Tz::from_str(to_name).ok()?;
    let time = chrono::NaiveTime::from_hms_opt(hour as u32, minute as u32, 0)?;
    let today = chrono::Utc::today().with_timezone(&from);
    let there = today.and_time(time)?.with_timezone(&to);
    Some((there.hour() as u8, there.minute() as u8))
}

/// What one pass of the capitalisation loop appends for index `i`: the
/// first character upper-cased together with its successor, the character
/// after a slash or underscore upper-cased, otherwise the successor as it
/// is — and nothing for the final index.
pub open spec fn cap_step(s: Seq<char>, i: int) -> Seq<char> {
    if i == 0 {
        seq![upper_char(s[0])] + seq![
            if s.len() > 1 {
                s[1]
            } else {
                ' '
            },
        ]
    } else if s[i] == '/' || s[i] == '_' {
        seq![
            upper_char(
                if i + 1 < s.len() {
                    s[i + 1]
                } else {
                    ' '
                },
            ),
        ]
    } else if i < s.len() - 1 {
        seq![s[i + 1]]
    } else {
        Seq::<char>::empty()
    }
}

pub open spec fn cap_concat(s: Seq<char>, n: int) -> Seq<char>
    decreases n,
{
    if n <= 0 {
        Seq::<char>::empty()
    } else {
        cap_concat(s, n - 1) + cap_step(s, n - 1)
    }
}

/// What `capitalise_timezone` returns: with a slash in the string, the
/// shifted-index walk that upper-cases the start and every character after
/// a slash or underscore; without one, the whole string upper-cased.
pub open spec fn capitalise_tz_spec(s: Seq<char>) -> Seq<char> {
    if index_of(s, '/') < s.len() {
        cap_concat(s, s.len() as int)
    } else {
        crate::text::upper_chars(s)
    }
}

/// Fixes the capitalisation of a typed zone name so that it can be looked
/// up: `europe/berlin` becomes `Europe/Berlin`, `utc` becomes `UTC`.
pub fn capitalise_timezone(input_str: String) -> (r: String)
    ensures
        r@ == capitalise_tz_spec(input_str@),
{
    let chars = str_to_chars(input_str.as_str());
    let slash = crate::text::find_char(&chars, '/');
    proof {
        lemma_index_of(chars@, '/');
    }
    if slash < chars.len() {
        let mut out: Vec<char> = Vec::new();
        let mut i: usize = 0;
        while i < chars.len()
            invariant
                i <= chars.len(),
                chars@.len() > 0,
                out@ == cap_concat(chars@, i as int),
            decreases chars.len() - i,
        {
            if i == 0 {
                out.push(to_upper_char(chars[0]));
                if chars.len() > 1 {
                    out.push(chars[1]);
                } else {
                    out.push(' ');
                }
            } else {
                let c = chars[i];
                if c == '/' || c == '_' {
                    if i + 1 < chars.len() {
                        out.push(to_upper_char(chars[i + 1]));
                    } else {
                        out.push(to_upper_char(' '));
                    }
                } else if i < chars.len() - 1 {
                    out.push(chars[i + 1]);
                }
            }
            i += 1;
            proof {
                assert(out@ =~= cap_concat(chars@, i as int));
            }
        }
        chars_to_string(&out)
    } else {
        let mut out: Vec<char> = Vec::new();
        let mut i: usize = 0;
        while i < chars.len()
            invariant
                i <= chars.len(),
                out@ == crate::text::upper_chars(chars@.subrange(0, i as int)),
            decreases chars.len() - i,
        {
            out.push(to_upper_char(chars[i]));
            i += 1;
            proof {
                assert(out@ =~= crate::text::upper_chars(chars@.subrange(0, i as int)));
            }
        }
        proof {
            assert(chars@.subrange(0, chars@.len() as int) =~= chars@);
        }
        chars_to_string(&out)
    }
}

/// The `k`-th space-separated token, counting empty tokens between
/// consecutive spaces, and empty past the last token.
pub open spec fn nth_token(s: Seq<char>, k: int) -> Seq<char>
    decreases k,
{
    let sp = index_of(s, ' ');
    if k <= 0 {
        s.subrange(0, sp)
    } else if sp < s.len() {
        nth_token(s.subrange(sp + 1, s.len() as int), k - 1)
    } else {
        Seq::<char>::empty()
    }
}

fn nth_token_chars(v: &Vec<char>, k: usize) -> (r: Vec<char>)
    ensures
        r@ == nth_token(v@, k as int),
    decreases k,
{
    let sp = crate::text::find_char(v, ' ');
    proof {
        lemma_index_of(v@, ' ');
    }
    if k == 0 {
        subvec(v, 0, sp)
    } else if sp < v.len() {
        let rest = subvec(v, sp + 1, v.len());
        nth_token_chars(&rest, k - 1)
    } else {
        Vec::new()
    }
}

/// A clock-time character: a digit or a colon.
pub open spec fn is_time_char(c: char) -> bool {
    crate::text::is_digit_char(c) || c == ':'
}

/// The digits and colons of `s`, in order.
pub open spec fn time_chars_of(s: Seq<char>) -> Seq<char>
    decreases s.len(),
{
    if s.len() == 0 {
        Seq::<char>::empty()
    } else {
        time_chars_of(s.drop_last()) + (if is_time_char(s.last()) {
            seq![s.last()]
        } else {
            Seq::<char>::empty()
        })
    }
}

fn filter_time_chars(v: &Vec<char>) -> (r: Vec<char>)
    ensures
        r@ == time_chars_of(v@),
{
    let mut r: Vec<char> = Vec::new();
    let mut i: usize = 0;
    proof {
        assert(v@.subrange(0, 0) =~= Seq::<char>::empty());
    }
    while i < v.len()
        invariant
            i <= v.len(),
            r@ == time_chars_of(v@.subrange(0, i as int)),
        decreases v.len() - i,
    {
        let c = v[i];
        if ('0' <= c && c <= '9') || c == ':' {
            r.push(c);
        }
        i += 1;
        proof {
            let t = v@.subrange(0, i as int);
            assert(t.drop_last() =~= v@.subrange(0, i - 1));
            assert(t.last() == v@[i - 1]);
            if is_time_char(t.last()) {
                assert(r@ =~= time_chars_of(t.drop_last()) + seq![t.last()]);
            } else {
                assert(r@ =~= time_chars_of(t.drop_last()) + Seq::<char>::empty());
            }
        }
    }
    proof {
        assert(v@.subrange(0, v@.len() as int) =~= v@);
    }
    r
}

/// The meridiem letters of `s`: each character whose upper-case image is
/// `A`, `P` or `M`, upper-cased, in order.
pub open spec fn meridiem_of(s: Seq<char>) -> Seq<char>
    decreases s.len(),
{
    if s.len() == 0 {
        Seq::<char>::empty()
    } else {
        meridiem_of(s.drop_last()) + (if upper_char(s.last()) == 'A' || upper_char(s.last()) == 'P'
            || upper_char(s.last()) == 'M' {
            seq![upper_char(s.last())]
        } else {
            Seq::<char>::empty()
        })
    }
}

fn filter_meridiem(v: &Vec<char>) -> (r: Vec<char>)
    ensures
        r@ == meridiem_of(v@),
{
    let mut r: Vec<char> = Vec::new();
    let mut i: usize = 0;
    proof {
        assert(v@.subrange(0, 0) =~= Seq::<char>::empty());
    }
    while i < v.len()
        invariant
            i <= v.len(),
            r@ == meridiem_of(v@.subrange(0, i as int)),
        decreases v.len() - i,
    {
        let u = to_upper_char(v[i]);
        if u == 'A' || u == 'P' || u == 'M' {
            r.push(u);
        }
        i += 1;
        proof {
            let t = v@.subrange(0, i as int);
            assert(t.drop_last() =~= v@.subrange(0, i - 1));
            assert(t.last() == v@[i - 1]);
            if upper_char(t.last()) == 'A' || upper_char(t.last()) == 'P' || upper_char(t.last())
                == 'M' {
                assert(r@ =~= meridiem_of(t.drop_last()) + seq![upper_char(t.last())]);
            } else {
                assert(r@ =~= meridiem_of(t.drop_last()) + Seq::<char>::empty());
            }
        }
    }
    proof {
        assert(v@.subrange(0, v@.len() as int) =~= v@);
    }
    r
}

/// A zone-name character: a slash, an underscore or an ASCII letter.
pub open spec fn is_tz_char(c: char) -> bool {
    c == '/' || c == '_' || ('a' <= c && c <= 'z') || ('A' <= c && c <= 'Z')
}

/// The zone-name characters of `s`, in order.
pub open spec fn tz_chars_of(s: Seq<char>) -> Seq<char>
    decreases s.len(),
{
    if s.len() == 0 {
        Seq::<char>::empty()
    } else {
        tz_chars_of(s.drop_last()) + (if is_tz_char(s.last()) {
            seq![s.last()]
        } else {
            Seq::<char>::empty()
        })
    }
}

fn filter_tz_chars(v: &Vec<char>) -> (r: Vec<char>)
    ensures
        r@ == tz_chars_of(v@),
{
    let mut r: Vec<char> = Vec::new();
    let mut i: usize = 0;
    proof {
        assert(v@.subrange(0, 0) =~= Seq::<char>::empty());
    }
    while i < v.len()
        invariant
            i <= v.len(),
            r@ == tz_chars_of(v@.subrange(0, i as int)),
        decreases v.len() - i,
    {
        let c = v[i];
        if c == '/' || c == '_' || ('a' <= c && c <= 'z') || ('A' <= c && c <= 'Z') {
            r.push(c);
        }
        i += 1;
        proof {
            let t = v@.subrange(0, i as int);
            assert(t.drop_last() =~= v@.subrange(0, i - 1));
            assert(t.last() == v@[i - 1]);
            if is_tz_char(t.last()) {
                assert(r@ =~= tz_chars_of(t.drop_last()) + seq![t.last()]);
            } else {
                assert(r@ =~= tz_chars_of(t.drop_last()) + Seq::<char>::empty());
            }
        }
    }
    proof {
        assert(v@.subrange(0, v@.len() as int) =~= v@);
    }
    r
}

/// The part of a zone name after its final slash.
pub open spec fn last_segment(s: Seq<char>) -> Seq<char>
    decreases s.len(),
{
    let i = index_of(s, '/');
    if 0 <= i < s.len() {
        last_segment(s.subrange(i + 1, s.len() as int))
    } else {
        s
    }
}

fn last_segment_chars(v: &Vec<char>) -> (r: Vec<char>)
    ensures
        r@ == last_segment(v@),
    decreases v@.len(),
{
    let i = crate::text::find_char(v, '/');
    proof {
        lemma_index_of(v@, '/');
    }
    if i >= v.len() {
        subvec(v, 0, v.len())
    } else {
        let rest = subvec(v, i + 1, v.len());
        last_segment_chars(&rest)
    }
}

/// `HH:MM`, zero-padded.
pub open spec fn hm_text(h: u8, m: u8) -> Seq<char> {
    padded_str(h as nat, 2) + seq![':'] + padded_str(m as nat, 2)
}

/// `HHMM`, zero-padded.
pub open spec fn hhmm_text(h: u8, m: u8) -> Seq<char> {
    padded_str(h as nat, 2) + padded_str(m as nat, 2)
}

/// The reply when only one zone is given: the time, the zone, a Discord
/// timestamp embed, and a comparison link.
pub open spec fn single_tz_text(h: u8, m: u8, name: Seq<char>, ts: i64) -> Seq<char> {
    hm_text(h, m) + " "@ + name + " today in your local timezone is <t:"@ + dec_str_signed(
        ts as int,
    ) + ">, more at https://time.is/compare/"@ + hhmm_text(h, m) + "_in_"@ + last_segment(name)
}

/// The reply when a second zone is given: the converted wall-clock time and
/// a comparison link over both zones.
pub open spec fn double_tz_text(
    h: u8,
    m: u8,
    name: Seq<char>,
    to_name: Seq<char>,
    h2: u8,
    m2: u8,
) -> Seq<char> {
    hm_text(h, m) + " "@ + name + " today in "@ + to_name + " is "@ + hm_text(h2, m2)
        + ", more at https://time.is/compare/"@ + hhmm_text(h, m) + "_in_"@ + last_segment(name)
        + "/"@ + last_segment(to_name)
}

/// The time string handed to the parsers: the clock characters of the first
/// token, `:00` appended when no colon is present, then the meridiem
/// letters of the same token.
pub open spec fn time_string_of(input: Seq<char>) -> Seq<char> {
    let t0 = nth_token(input, 0);
    let base = time_chars_of(t0);
    let with_minutes = if index_of(base, ':') < base.len() {
        base
    } else {
        base + ":00"@
    };
    with_minutes + meridiem_of(t0)
}

/// The parsed hour and minute: the twelve-hour reading when the string
/// parses that way, otherwise the twenty-four-hour reading.
pub open spec fn parsed_hm_of(input: Seq<char>) -> Option<(u8, u8)> {
    let ts = time_string_of(input);
    match naive_time_hm("%-I:%M%p"@, ts) {
        Some(t) => Some(t),
        None => naive_time_hm("%H:%M"@, ts),
    }
}

/// The typed first zone, lower-cased, filtered and re-capitalised.
pub open spec fn tz_request_of(input: Seq<char>) -> Seq<char> {
    capitalise_tz_spec(tz_chars_of(nth_token(crate::text::lower_chars(input), 1)))
}

/// The typed second zone, likewise.
pub open spec fn to_tz_request_of(input: Seq<char>) -> Seq<char> {
    capitalise_tz_spec(tz_chars_of(nth_token(crate::text::lower_chars(input), 2)))
}

/// What `timezone` may reply for permitted callers. The deterministic part
/// — reading the tokens, resolving the zone names, parsing the clock time —
/// is pinned exactly; today's date in the zone is not a function of the
/// input, so the timestamp and the converted time are only bounded, and a
/// reply is owed only when the calendar lookup succeeds.
pub open spec fn timezone_rel(input: Seq<char>, r: Result<Seq<char>, CommandErrorView>) -> bool {
    let usage = CommandErrorView::InvalidSyntax("Usage: <HH:MM(AM/PM)> <TZ> (TZ)"@);
    let tz_typed = tz_chars_of(nth_token(crate::text::lower_chars(input), 1));
    let to_typed = tz_chars_of(nth_token(crate::text::lower_chars(input), 2));
    if tz_typed.len() == 0 {
        r == Err::<Seq<char>, CommandErrorView>(usage)
    } else {
        match tz_name_of(capitalise_tz_spec(tz_typed)) {
            None => r == Err::<Seq<char>, CommandErrorView>(usage),
            Some(name) => match parsed_hm_of(input) {
                None => r == Err::<Seq<char>, CommandErrorView>(usage),
                Some(t) => {
                    if to_typed.len() > 0 {
                        match tz_name_of(capitalise_tz_spec(to_typed)) {
                            None => r == Err::<Seq<char>, CommandErrorView>(usage),
                            Some(to_name) => (exists|h2: u8, m2: u8|
                                h2 < 24 && m2 < 60 && r == Ok::<Seq<char>, CommandErrorView>(
                                    double_tz_text(t.0, t.1, name, to_name, h2, m2),
                                )) || r == Err::<Seq<char>, CommandErrorView>(usage),
                        }
                    } else {
                        (exists|ts: i64|
                            r == Ok::<Seq<char>, CommandErrorView>(
                                single_tz_text(t.0, t.1, name, ts),
                            )) || r == Err::<Seq<char>, CommandErrorView>(usage)
                    }
                },
            },
        }
    }
}

pub struct TimezoneCommand;

impl Command for TimezoneCommand {
    open spec fn name_spec(&self) -> Seq<char> {
        "timezone"@
    }

    open spec fn usage_spec(&self) -> Seq<char> {
        "Usage: <HH:MM(AM/PM)> <TZ> (TZ)"@
    }

    open spec fn execute_ensures(
        &self,
        config: ConfigView,
        role: RoleView,
        input: Seq<char>,
        r: Result<Seq<char>, CommandErrorView>,
    ) -> bool {
        if has_perm(config, "cmd.timezone"@, role, config.roles.len() as nat) {
            timezone_rel(input, r)
        } else {
            r == Err::<Seq<char>, CommandErrorView>(CommandErrorView::NoPerms)
        }
    }

    fn name(&self) -> (r: &'static str) {
        "timezone"
    }

    fn usage(&self) -> (r: &'static str) {
        "Usage: <HH:MM(AM/PM)> <TZ> (TZ)"
    }

    fn about(&self) -> &'static str {
        "Converts a given time and timezone to the unix timestamp, which can be embedded with Discord to the user's local time. Can optionally specify a second timezone to do a direct conversion. This command also links to https://time.is for more information"
    }

    #[verifier::rlimit(100)]
    fn execute(&self, config: &Config, role: &Role, input: &String) -> (r: Result<
        String,
        CommandError,
    >) {
        if !check_permission(config, "cmd.timezone".to_owned(), role) {
            return Err(CommandError::NoPerms);
        }
        let chars = str_to_chars(input.as_str());
        let lowered = crate::text::to_lower_chars(&chars);
        let token0 = nth_token_chars(&chars, 0);
        let tz_typed = filter_tz_chars(&nth_token_chars(&lowered, 1));
        let to_typed = filter_tz_chars(&nth_token_chars(&lowered, 2));
        if tz_typed.len() == 0 {
            return Err(CommandError::InvalidSyntax(self.usage().to_owned()));
        }
        let tz_request = capitalise_timezone(chars_to_string(&tz_typed));
        let name = match tz_canonical_name(tz_request.as_str()) {
            None => {
                return Err(CommandError::InvalidSyntax(self.usage().to_owned()));
            },
            Some(n) => n,
        };
        // Assemble the time string: clock characters, `:00` when minutes
        // are missing, then the meridiem letters.
        let mut time_vec = filter_time_chars(&token0);
        let colon = crate::text::find_char(&time_vec, ':');
        proof {
            lemma_index_of(time_vec@, ':');
        }
        if colon >= time_vec.len() {
            time_vec.push(':');
            time_vec.push('0');
            time_vec.push('0');
            proof {
                reveal_strlit(":00");
                assert(time_vec@ =~= time_chars_of(nth_token(chars@, 0)) + ":00"@);
            }
        }
        append_chars(&mut time_vec, &filter_meridiem(&token0));
        let time_str = chars_to_string(&time_vec);
        proof {
            assert(time_str@ == time_string_of(chars@));
        }
        let hm: (u8, u8) = match parse_naive_time("%-I:%M%p", time_str.as_str()) {
            Some(t) => t,
            None => {
                match parse_naive_time("%H:%M", time_str.as_str()) {
                    Some(t) => t,
                    None => {
                        return Err(CommandError::InvalidSyntax(self.usage().to_owned()));
                    },
                }
            },
        };
        if to_typed.len() > 0 {
            let to_request = capitalise_timezone(chars_to_string(&to_typed));
            let to_name = match tz_canonical_name(to_request.as_str()) {
                None => {
                    return Err(CommandError::InvalidSyntax(self.usage().to_owned()));
                },
                Some(n) => n,
            };
            match tz_convert_today(name.as_str(), to_name.as_str(), hm.0, hm.1) {
                None => Err(CommandError::InvalidSyntax(self.usage().to_owned())),
                Some(conv) => {
                    let mut out: Vec<char> = Vec::new();
                    append_chars(&mut out, &u128_to_padded_chars(hm.0 as u128, 2));
                    out.push(':');
                    append_chars(&mut out, &u128_to_padded_chars(hm.1 as u128, 2));
                    out.push(' ');
                    append_chars(&mut out, &str_to_chars(name.as_str()));
                    append_chars(&mut out, &str_to_chars(" today in "));
                    append_chars(&mut out, &str_to_chars(to_name.as_str()));
                    append_chars(&mut out, &str_to_chars(" is "));
                    append_chars(&mut out, &u128_to_padded_chars(conv.0 as u128, 2));
                    out.push(':');
                    append_chars(&mut out, &u128_to_padded_chars(conv.1 as u128, 2));
                    append_chars(&mut out, &str_to_chars(", more at https://time.is/compare/"));
                    append_chars(&mut out, &u128_to_padded_chars(hm.0 as u128, 2));
                    append_chars(&mut out, &u128_to_padded_chars(hm.1 as u128, 2));
                    append_chars(&mut out, &str_to_chars("_in_"));
                    append_chars(&mut out, &last_segment_chars(&str_to_chars(name.as_str())));
                    out.push('/');
                    append_chars(&mut out, &last_segment_chars(&str_to_chars(to_name.as_str())));
                    proof {
                        reveal_strlit(" ");
                        reveal_strlit("/");
                        assert(out@ =~= double_tz_text(
                            hm.0,
                            hm.1,
                            name@,
                            to_name@,
                            conv.0,
                            conv.1,
                        ));
                        let rv = Ok::<Seq<char>, CommandErrorView>(out@);
                        let tz_t = tz_chars_of(nth_token(crate::text::lower_chars(input@), 1));
                        let to_t = tz_chars_of(nth_token(crate::text::lower_chars(input@), 2));
                        let pt = parsed_hm_of(input@)->0;
                        let pn = tz_name_of(capitalise_tz_spec(tz_t))->0;
                        let pn2 = tz_name_of(capitalise_tz_spec(to_t))->0;
                        assert(pt == hm && pn == name@ && pn2 == to_name@);
                        assert(exists|h2: u8, m2: u8|
                            h2 < 24 && m2 < 60 && rv == Ok::<Seq<char>, CommandErrorView>(
                                double_tz_text(pt.0, pt.1, pn, pn2, h2, m2),
                            )) by {
                            assert(conv.0 < 24 && conv.1 < 60 && rv == Ok::<
                                Seq<char>,
                                CommandErrorView,
                            >(double_tz_text(pt.0, pt.1, pn, pn2, conv.0, conv.1)));
                        }
                        assert(timezone_rel(input@, rv));
                    }
                    Ok(chars_to_string(&out))
                },
            }
        } else {
            match tz_unix_today(name.as_str(), hm.0, hm.1) {
                None => Err(CommandError::InvalidSyntax(self.usage().to_owned())),
                Some(ts) => {
                    let mut out: Vec<char> = Vec::new();
                    append_chars(&mut out, &u128_to_padded_chars(hm.0 as u128, 2));
                    out.push(':');
                    append_chars(&mut out, &u128_to_padded_chars(hm.1 as u128, 2));
                    out.push(' ');
                    append_chars(&mut out, &str_to_chars(name.as_str()));
                    append_chars(
                        &mut out,
                        &str_to_chars(" today in your local timezone is <t:"),
                    );
                    append_chars(&mut out, &i64_to_chars(ts));
                    append_chars(&mut out, &str_to_chars(">, more at https://time.is/compare/"));
                    append_chars(&mut out, &u128_to_padded_chars(hm.0 as u128, 2));
                    append_chars(&mut out, &u128_to_padded_chars(hm.1 as u128, 2));
                    append_chars(&mut out, &str_to_chars("_in_"));
                    append_chars(&mut out, &last_segment_chars(&str_to_chars(name.as_str())));
                    proof {
                        reveal_strlit(" ");
                        assert(out@ =~= single_tz_text(hm.0, hm.1, name@, ts));
                        assert(exists|t0: i64|
                            Ok::<Seq<char>, CommandErrorView>(out@) == Ok::<
                                Seq<char>,
                                CommandErrorView,
                            >(single_tz_text(hm.0, hm.1, name@, t0))) by {
                            assert(Ok::<Seq<char>, CommandErrorView>(out@) == Ok::<
                                Seq<char>,
                                CommandErrorView,
                            >(single_tz_text(hm.0, hm.1, name@, ts)));
                        }
                        let rv = Ok::<Seq<char>, CommandErrorView>(out@);
                        let tz_t = tz_chars_of(nth_token(crate::text::lower_chars(input@), 1));
                        let pt = parsed_hm_of(input@)->0;
                        let pn = tz_name_of(capitalise_tz_spec(tz_t))->0;
                        assert(pt == hm && pn == name@);
                        assert(exists|t0: i64|
                            rv == Ok::<Seq<char>, CommandErrorView>(
                                single_tz_text(pt.0, pt.1, pn, t0),
                            )) by {
                            assert(rv == Ok::<Seq<char>, CommandErrorView>(
                                single_tz_text(pt.0, pt.1, pn, ts),
                            ));
                        }
                        assert(timezone_rel(input@, rv));
                    }
                    Ok(chars_to_string(&out))
                },
            }
        }
    }
}

} // verus!
