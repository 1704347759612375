//! Display names of drafts and the `<number> <unit>` time expressions of filters.
use crate::text::{split_acc, split_on, blank_line, decimal, is_blank, lines_of, push_decimal, split_lines, views_of, chars_of, equals_str, is_white, is_white_char, push_all, push_str_chars, string_of, trim, trimmed};
use core::cmp::Ordering;
use vstd::prelude::*;

verus! {

/// What `str::to_lowercase` gives for a text.
pub uninterp spec fn lower_of(s: Seq<char>) -> Seq<char>;

/// What `char::to_uppercase` gives for a character.
pub uninterp spec fn upper_of(c: char) -> Seq<char>;

/// Relies on `str::to_lowercase`: the result depends on the characters alone,
/// and an empty text stays empty.
#[verifier::external_body]
fn lowercase(s: &str) -> (r: String)
    ensures
        r@ == lower_of(s@),
        s@.len() == 0 ==> r@.len() == 0,
{
    s.to_lowercase()
}

/// Relies on `char::to_uppercase`, collected into a `String`: it depends on
/// the character alone.
#[verifier::external_body]
fn uppercase_char(c: char) -> (r: String)
    ensures
        r@ == upper_of(c),
{
    c.to_uppercase().collect()
}

/// The later words, lowercased, each after a space.
pub open spec fn rest_words(ws: Seq<Seq<char>>) -> Seq<char>
    decreases ws.len(),
{
    if ws.len() == 0 {
        Seq::empty()
    } else {
        rest_words(ws.drop_last()) + " "@ + lower_of(ws.last())
    }
}

/// A dashed name as a sentence: first letter uppercased, the rest of the first
/// word lowercased, later words lowercased and separated by spaces.
pub open spec fn display_name(name: Seq<char>) -> Seq<char> {
    let ws = split_on(name, '-');
    upper_of(ws[0][0]) + lower_of(ws[0].drop_first()) + rest_words(ws.drop_first())
}

fn split_words(cs: &Vec<char>, sep: char) -> (r: Vec<Vec<char>>)
    ensures
        r@.map_values(|w: Vec<char>| w@) == split_on(cs@, sep),
{
    let mut out: Vec<Vec<char>> = Vec::new();
    let mut cur: Vec<char> = Vec::new();
    let mut i: usize = 0;
    while i < cs.len()
        invariant
            i <= cs@.len(),
            (out@.map_values(|w: Vec<char>| w@), cur@) == split_acc(cs@, sep, i as nat),
        decreases cs.len() - i,
    {
        let ghost prev = out@;
        if cs[i] == sep {
            let ghost c = cur@;
            out.push(cur);
            cur = Vec::new();
            assert(out@.map_values(|w: Vec<char>| w@) =~= prev.map_values(|w: Vec<char>| w@).push(c));
        } else {
            cur.push(cs[i]);
        }
        i += 1;
    }
    let ghost prev = out@;
    let ghost c = cur@;
    out.push(cur);
    assert(out@.map_values(|w: Vec<char>| w@) =~= prev.map_values(|w: Vec<char>| w@).push(c));
    out
}

/// Turns `recently-modified-pr` into `Recently modified pr`. The name must start
/// with an ASCII character other than `-`.
pub fn format_name_for_display(name: &str) -> (r: String)
    requires
        name@.len() > 0,
        name@[0] != '-',
        (name@[0] as u32) < 128,
    ensures
        r@ == display_name(name@),
{
    let cs = chars_of(name);
    let words = split_words(&cs, '-');
    let ghost ws = words@.map_values(|w: Vec<char>| w@);
    proof {
        lemma_first_piece(cs@, '-');
    }
    assert(ws.len() == words@.len());
    assert(ws.len() > 0);
    assert(ws[0] == words@[0]@);
    let first = &words[0];
    let mut out: Vec<char> = Vec::new();
    let up = uppercase_char(first[0]);
    push_str_chars(&mut out, up.as_str());
    let tail = string_of(crate::text::suffix_from(first.as_slice(), 1).as_slice());
    assert(tail@ =~= ws[0].drop_first());
    let low = lowercase(tail.as_str());
    push_str_chars(&mut out, low.as_str());
    let ghost head = out@;
    let mut k: usize = 1;
    while k < words.len()
        invariant
            1 <= k <= words@.len(),
            ws == words@.map_values(|w: Vec<char>| w@),
            out@ == head + rest_words(ws.drop_first().subrange(0, k - 1)),
        decreases words.len() - k,
    {
        let w = string_of(words[k].as_slice());
        push_str_chars(&mut out, " ");
        let lw = lowercase(w.as_str());
        push_str_chars(&mut out, lw.as_str());
        assert(ws.drop_first().subrange(0, k as int).drop_last() =~= ws.drop_first().subrange(0, k - 1));
        assert(ws.drop_first().subrange(0, k as int).last() == w@);
        assert(out@ =~= head + rest_words(ws.drop_first().subrange(0, k as int)));
        k += 1;
    }
    assert(ws.drop_first().subrange(0, words@.len() - 1) =~= ws.drop_first());
    string_of(out.as_slice())
}

/// The first piece of a split starts with the text's first character, unless
/// that character is the separator.
proof fn lemma_first_piece(s: Seq<char>, sep: char)
    requires
        s.len() > 0,
        s[0] != sep,
    ensures
        split_on(s, sep)[0].len() > 0,
        split_on(s, sep)[0][0] == s[0],
{
    lemma_split_acc_first(s, sep, s.len());
}

proof fn lemma_split_acc_first(s: Seq<char>, sep: char, i: nat)
    requires
        s.len() > 0,
        s[0] != sep,
        1 <= i <= s.len(),
    ensures
        split_acc(s, sep, i).0.len() > 0 ==> split_acc(s, sep, i).0[0].len() > 0 && split_acc(s, sep, i).0[0][0] == s[0],
        split_acc(s, sep, i).0.len() == 0 ==> split_acc(s, sep, i).1.len() > 0 && split_acc(s, sep, i).1[0] == s[0],
    decreases i,
{
    if i == 1 {
        let (d0, c0) = split_acc(s, sep, 0);
        assert(d0.len() == 0 && c0.len() == 0);
        assert(c0.push(s[0])[0] == s[0]);
    } else {
        lemma_split_acc_first(s, sep, (i - 1) as nat);
        let (done, cur) = split_acc(s, sep, (i - 1) as nat);
        if s[i - 1] == sep {
            if done.len() > 0 {
                assert(done.push(cur)[0] == done[0]);
            } else {
                assert(done.push(cur)[0] == cur);
            }
        } else {
            if done.len() == 0 {
                assert(cur.push(s[i - 1])[0] == cur[0]);
            }
        }
    }
}

/// Why a time expression was refused.
#[derive(Debug)]
pub enum TimeExprError {
    InvalidFormat,
    InvalidNumber,
    UnknownUnit(String),
    TooLarge,
}

impl TimeExprError {
    /// The message shown for the error.
    pub fn to_string(&self) -> (r: String)
        ensures
            r@ == match self {
                TimeExprError::InvalidFormat => "Invalid time expression format. Expected '<number> <unit>' (e.g., '2 days', '1 week')"@,
                TimeExprError::InvalidNumber => "Invalid number in time expression"@,
                TimeExprError::UnknownUnit(u) => "Unknown time unit '"@ + u@ + "'. Supported units: seconds, minutes, hours, days, weeks, months (30 days), years (365 days)"@,
                TimeExprError::TooLarge => "Time duration value too large"@,
            },
    {
        let mut out: Vec<char> = Vec::new();
        match self {
            TimeExprError::InvalidFormat => push_str_chars(&mut out, "Invalid time expression format. Expected '<number> <unit>' (e.g., '2 days', '1 week')"),
            TimeExprError::InvalidNumber => push_str_chars(&mut out, "Invalid number in time expression"),
            TimeExprError::UnknownUnit(u) => {
                push_str_chars(&mut out, "Unknown time unit '");
                push_str_chars(&mut out, u.as_str());
                push_str_chars(&mut out, "'. Supported units: seconds, minutes, hours, days, weeks, months (30 days), years (365 days)");
            },
            TimeExprError::TooLarge => push_str_chars(&mut out, "Time duration value too large"),
        }
        assert(out@ =~= match self {
            TimeExprError::InvalidFormat => "Invalid time expression format. Expected '<number> <unit>' (e.g., '2 days', '1 week')"@,
            TimeExprError::InvalidNumber => "Invalid number in time expression"@,
            TimeExprError::UnknownUnit(u) => "Unknown time unit '"@ + u@ + "'. Supported units: seconds, minutes, hours, days, weeks, months (30 days), years (365 days)"@,
            TimeExprError::TooLarge => "Time duration value too large"@,
        });
        string_of(out.as_slice())
    }
}

/// Whitespace-separated words after the first `i` characters, as
/// `str::split_whitespace` gives them.
pub open spec fn ws_acc(s: Seq<char>, i: nat) -> (Seq<Seq<char>>, Seq<char>)
    decreases i,
{
    if i == 0 || i > s.len() {
        (Seq::empty(), Seq::empty())
    } else {
        let (done, cur) = ws_acc(s, (i - 1) as nat);
        if is_white(s[i - 1]) {
            if cur.len() > 0 {
                (done.push(cur), Seq::empty())
            } else {
                (done, cur)
            }
        } else {
            (done, cur.push(s[i - 1]))
        }
    }
}

pub open spec fn ws_words(s: Seq<char>) -> Seq<Seq<char>> {
    let (done, cur) = ws_acc(s, s.len());
    if cur.len() > 0 {
        done.push(cur)
    } else {
        done
    }
}

pub open spec fn is_digit(c: char) -> bool {
    '0' <= c <= '9'
}

/// The value of a string of decimal digits.
pub open spec fn digits_value(s: Seq<char>) -> nat
    decreases s.len(),
{
    if s.len() == 0 {
        0
    } else {
        digits_value(s.drop_last()) * 10 + ((s.last() as u32 - 48) as nat)
    }
}

/// What `u64::from_str` accepts: an optional `+`, then one or more digits
/// whose value fits in 64 bits.
pub open spec fn unsigned_digits(s: Seq<char>) -> Seq<char> {
    if s.len() > 0 && s[0] == '+' {
        s.drop_first()
    } else {
        s
    }
}

pub open spec fn parsed_u64(s: Seq<char>) -> Option<u64> {
    let d = unsigned_digits(s);
    if d.len() > 0 && (forall|k: int| 0 <= k < d.len() ==> is_digit(#[trigger] d[k]))
        && digits_value(d) <= u64::MAX {
        Some(digits_value(d) as u64)
    } else {
        None
    }
}

proof fn lemma_digits_grow(d: Seq<char>, k: nat)
    requires
        k <= d.len(),
        forall|j: int| 0 <= j < d.len() ==> is_digit(#[trigger] d[j]),
    ensures
        digits_value(d.subrange(0, k as int)) <= digits_value(d),
    decreases d.len() - k,
{
    if k < d.len() {
        lemma_digits_grow(d, k + 1);
        let p = d.subrange(0, (k + 1) as int);
        assert(p.drop_last() =~= d.subrange(0, k as int));
    } else {
        assert(d.subrange(0, k as int) =~= d);
    }
}

/// Reads an unsigned 64-bit number as `u64::from_str` does.
pub fn parse_u64(s: &Vec<char>) -> (r: Option<u64>)
    ensures
        r == parsed_u64(s@),
{
    let start: usize = if s.len() > 0 && s[0] == '+' {
        1
    } else {
        0
    };
    let ghost d = unsigned_digits(s@);
    assert(d =~= s@.subrange(start as int, s@.len() as int));
    if start >= s.len() {
        return None;
    }
    let mut v: u64 = 0;
    let mut i: usize = start;
    while i < s.len()
        invariant
            start <= i <= s@.len(),
            d == unsigned_digits(s@),
            d =~= s@.subrange(start as int, s@.len() as int),
            v as nat == digits_value(d.subrange(0, i - start)),
            forall|k: int| 0 <= k < i - start ==> is_digit(#[trigger] d[k]),
        decreases s.len() - i,
    {
        let c = s[i];
        if !('0' <= c && c <= '9') {
            assert(d[i - start] == c);
            assert(!is_digit(d[i - start]));
            assert(!(forall|k: int| 0 <= k < d.len() ==> is_digit(#[trigger] d[k])));
            return None;
        }
        let digit = (c as u32 - 48) as u64;
        assert(d.subrange(0, i - start + 1).drop_last() =~= d.subrange(0, i - start));
        assert(d[i - start] == c);
        if v > (u64::MAX - digit) / 10 {
            proof {
                assert(digits_value(d.subrange(0, i - start + 1)) == v * 10 + digit);
                assert(v * 10 + digit > u64::MAX) by (nonlinear_arith)
                    requires v > (u64::MAX - digit) / 10, digit <= 9;
                if forall|k: int| 0 <= k < d.len() ==> is_digit(#[trigger] d[k]) {
                    lemma_digits_grow(d, (i - start + 1) as nat);
                    assert(digits_value(d) > u64::MAX);
                }
            }
            return None;
        }
        v = v * 10 + digit;
        i += 1;
    }
    assert(d.subrange(0, s@.len() - start) =~= d);
    Some(v)
}

/// Seconds per unit name; months are 30 days and years 365.
pub open spec fn unit_seconds(u: Seq<char>) -> Option<u64> {
    if u == "second"@ || u == "seconds"@ || u == "sec"@ || u == "secs"@ || u == "s"@ {
        Some(1)
    } else if u == "minute"@ || u == "minutes"@ || u == "min"@ || u == "mins"@ || u == "m"@ {
        Some(60)
    } else if u == "hour"@ || u == "hours"@ || u == "hr"@ || u == "hrs"@ || u == "h"@ {
        Some(3600)
    } else if u == "day"@ || u == "days"@ || u == "d"@ {
        Some(86400)
    } else if u == "week"@ || u == "weeks"@ || u == "w"@ {
        Some(604800)
    } else if u == "month"@ || u == "months"@ {
        Some(2592000)
    } else if u == "year"@ || u == "years"@ || u == "y"@ {
        Some(31536000)
    } else {
        None
    }
}

fn unit_value(u: &Vec<char>) -> (r: Option<u64>)
    ensures
        r == unit_seconds(u@),
{
    let u = u.as_slice();
    if equals_str(u, "second") || equals_str(u, "seconds") || equals_str(u, "sec") || equals_str(u, "secs") || equals_str(u, "s") {
        Some(1)
    } else if equals_str(u, "minute") || equals_str(u, "minutes") || equals_str(u, "min") || equals_str(u, "mins") || equals_str(u, "m") {
        Some(60)
    } else if equals_str(u, "hour") || equals_str(u, "hours") || equals_str(u, "hr") || equals_str(u, "hrs") || equals_str(u, "h") {
        Some(3600)
    } else if equals_str(u, "day") || equals_str(u, "days") || equals_str(u, "d") {
        Some(86400)
    } else if equals_str(u, "week") || equals_str(u, "weeks") || equals_str(u, "w") {
        Some(604800)
    } else if equals_str(u, "month") || equals_str(u, "months") {
        Some(2592000)
    } else if equals_str(u, "year") || equals_str(u, "years") || equals_str(u, "y") {
        Some(31536000)
    } else {
        None
    }
}

/// What a lowercased `<number> <unit>` expression gives: the seconds it
/// stands for, or the first reason it is refused.
pub open spec fn time_result(lowered: Seq<char>, r: Result<u64, TimeExprError>) -> bool {
    let ws = ws_words(lowered);
    match r {
        Ok(n) => ws.len() == 2 && parsed_u64(ws[0]) is Some && unit_seconds(ws[1]) is Some
            && n == parsed_u64(ws[0]).unwrap() * unit_seconds(ws[1]).unwrap(),
        Err(TimeExprError::InvalidFormat) => ws.len() != 2,
        Err(TimeExprError::InvalidNumber) => ws.len() == 2 && parsed_u64(ws[0]) is None,
        Err(TimeExprError::UnknownUnit(u)) => ws.len() == 2 && parsed_u64(ws[0]) is Some
            && unit_seconds(ws[1]) is None && u@ == ws[1],
        Err(TimeExprError::TooLarge) => ws.len() == 2 && parsed_u64(ws[0]) is Some && unit_seconds(
            ws[1],
        ) is Some && parsed_u64(ws[0]).unwrap() * unit_seconds(ws[1]).unwrap() > u64::MAX,
    }
}

fn split_ws(cs: &Vec<char>) -> (r: Vec<Vec<char>>)
    ensures
        r@.map_values(|w: Vec<char>| w@) == ws_words(cs@),
{
    let mut out: Vec<Vec<char>> = Vec::new();
    let mut cur: Vec<char> = Vec::new();
    let mut i: usize = 0;
    while i < cs.len()
        invariant
            i <= cs@.len(),
            (out@.map_values(|w: Vec<char>| w@), cur@) == ws_acc(cs@, i as nat),
        decreases cs.len() - i,
    {
        let ghost prev = out@;
        if is_white_char(cs[i]) {
            if cur.len() > 0 {
                let ghost c = cur@;
                out.push(cur);
                cur = Vec::new();
                assert(out@.map_values(|w: Vec<char>| w@) =~= prev.map_values(|w: Vec<char>| w@).push(c));
            }
        } else {
            cur.push(cs[i]);
        }
        i += 1;
    }
    if cur.len() > 0 {
        let ghost prev = out@;
        let ghost c = cur@;
        out.push(cur);
        assert(out@.map_values(|w: Vec<char>| w@) =~= prev.map_values(|w: Vec<char>| w@).push(c));
    }
    out
}

/// Reads an already lowercased `<number> <unit>` expression into seconds.
pub fn parse_lowered_time_expression(lowered: &str) -> (r: Result<u64, TimeExprError>)
    ensures
        time_result(lowered@, r),
{
    let cs = chars_of(lowered);
    let parts = split_ws(&cs);
    let ghost ws = parts@.map_values(|w: Vec<char>| w@);
    assert(ws.len() == parts@.len());
    if parts.len() != 2 {
        return Err(TimeExprError::InvalidFormat);
    }
    assert(ws[0] == parts@[0]@ && ws[1] == parts@[1]@);
    let number = match parse_u64(&parts[0]) {
        Some(n) => n,
        None => return Err(TimeExprError::InvalidNumber),
    };
    let multiplier = match unit_value(&parts[1]) {
        Some(m) => m,
        None => return Err(TimeExprError::UnknownUnit(string_of(parts[1].as_slice()))),
    };
    match number.checked_mul(multiplier) {
        Some(seconds) => Ok(seconds),
        None => Err(TimeExprError::TooLarge),
    }
}

/// Reads `2 days`, `1 Week`, `3 h` and the like into seconds; surrounding
/// whitespace and letter case do not matter.
pub fn parse_time_expression(expr: &str) -> (r: Result<u64, TimeExprError>)
    ensures
        time_result(lower_of(trim(expr@)), r),
{
    let cs = chars_of(expr);
    let t = trimmed(cs.as_slice(), 0);
    assert(cs@.subrange(0, cs@.len() as int) =~= cs@);
    let lowered = lowercase(string_of(t.as_slice()).as_str());
    parse_lowered_time_expression(lowered.as_str())
}

/// `n` followed by a unit word, or the singular phrase when `n` is one.
pub open spec fn count_phrase(n: int, one: Seq<char>, many: Seq<char>) -> Seq<char> {
    if n == 1 {
        one
    } else {
        decimal(n as nat) + many
    }
}

/// How long ago something happened, given the seconds elapsed since.
pub open spec fn relative_time_text(secs: int) -> Seq<char> {
    let days = secs / 86400;
    if secs < 60 {
        "just now"@
    } else if secs / 60 < 60 {
        decimal((secs / 60) as nat) + "min ago"@
    } else if secs / 3600 < 24 {
        count_phrase(secs / 3600, "1 hour ago"@, " hours ago"@)
    } else if days == 1 {
        "yesterday"@
    } else if days < 7 {
        decimal(days as nat) + " days ago"@
    } else if days < 30 {
        count_phrase(days / 7, "1 week ago"@, " weeks ago"@)
    } else if days < 365 {
        count_phrase(days / 30, "1 month ago"@, " months ago"@)
    } else {
        count_phrase(days / 365, "1 year ago"@, " years ago"@)
    }
}

fn push_count_phrase(out: &mut Vec<char>, n: u64, one: &str, many: &str)
    ensures
        final(out)@ == old(out)@ + count_phrase(n as int, one@, many@),
{
    if n == 1 {
        push_str_chars(out, one);
    } else {
        push_decimal(n, out);
        push_str_chars(out, many);
    }
    assert(final(out)@ =~= old(out)@ + count_phrase(n as int, one@, many@));
}

/// `just now`, `3min ago`, `2 hours ago`, `yesterday`, `5 days ago`, ... for
/// the seconds elapsed since a moment (negative for a moment still to come).
pub fn format_relative_time(elapsed_secs: i64) -> (r: String)
    ensures
        r@ == relative_time_text(elapsed_secs as int),
{
    let mut out: Vec<char> = Vec::new();
    if elapsed_secs < 60 {
        push_str_chars(&mut out, "just now");
    } else {
        let s = elapsed_secs as u64;
        let days = s / 86400;
        if s / 60 < 60 {
            push_decimal(s / 60, &mut out);
            push_str_chars(&mut out, "min ago");
        } else if s / 3600 < 24 {
            push_count_phrase(&mut out, s / 3600, "1 hour ago", " hours ago");
        } else if days == 1 {
            push_str_chars(&mut out, "yesterday");
        } else if days < 7 {
            push_decimal(days, &mut out);
            push_str_chars(&mut out, " days ago");
        } else if days < 30 {
            push_count_phrase(&mut out, days / 7, "1 week ago", " weeks ago");
        } else if days < 365 {
            push_count_phrase(&mut out, days / 30, "1 month ago", " months ago");
        } else {
            push_count_phrase(&mut out, days / 365, "1 year ago", " years ago");
        }
    }
    assert(out@ =~= relative_time_text(elapsed_secs as int));
    string_of(out.as_slice())
}

/// The first `max` non-blank lines among the first `i` lines.
pub open spec fn summary_acc(ls: Seq<Seq<char>>, max: nat, i: nat) -> Seq<Seq<char>>
    decreases i,
{
    if i == 0 || i > ls.len() {
        Seq::empty()
    } else {
        let acc = summary_acc(ls, max, (i - 1) as nat);
        if !is_blank(ls[i - 1]) && acc.len() < max {
            acc.push(ls[i - 1])
        } else {
            acc
        }
    }
}

/// Lines joined with single spaces.
pub open spec fn join_spaced(ls: Seq<Seq<char>>) -> Seq<char>
    decreases ls.len(),
{
    if ls.len() == 0 {
        Seq::empty()
    } else if ls.len() == 1 {
        ls[0]
    } else {
        join_spaced(ls.drop_last()) + " "@ + ls.last()
    }
}

/// The summary of a design document: its first `max_lines` non-blank lines,
/// joined with spaces.
pub fn summarize_design(content: &str, max_lines: usize) -> (r: String)
    ensures
        r@ == join_spaced(summary_acc(lines_of(content@), max_lines as nat, lines_of(content@).len())),
{
    let lines = split_lines(content);
    let ghost ls = views_of(lines@);
    let mut out: Vec<char> = Vec::new();
    let mut taken: usize = 0;
    let mut i: usize = 0;
    while i < lines.len()
        invariant
            i <= lines@.len(),
            ls == views_of(lines@),
            ls == lines_of(content@),
            taken as nat == summary_acc(ls, max_lines as nat, i as nat).len(),
            out@ == join_spaced(summary_acc(ls, max_lines as nat, i as nat)),
        decreases lines.len() - i,
    {
        let line = lines[i].as_slice();
        assert(ls[i as int] == line@);
        let ghost acc = summary_acc(ls, max_lines as nat, i as nat);
        if !blank_line(line) && taken < max_lines {
            if taken > 0 {
                push_str_chars(&mut out, " ");
            }
            push_all(&mut out, line);
            taken += 1;
            assert(acc.push(line@).drop_last() =~= acc);
            assert(out@ =~= join_spaced(acc.push(line@)));
        }
        i += 1;
    }
    string_of(out.as_slice())
}

/// Character-by-character order of two texts, as `Ord` orders `String`s.
pub open spec fn text_order(a: Seq<char>, b: Seq<char>) -> Ordering
    decreases a.len(),
{
    if a.len() == 0 {
        if b.len() == 0 {
            Ordering::Equal
        } else {
            Ordering::Less
        }
    } else if b.len() == 0 {
        Ordering::Greater
    } else if a[0] < b[0] {
        Ordering::Less
    } else if a[0] > b[0] {
        Ordering::Greater
    } else {
        text_order(a.drop_first(), b.drop_first())
    }
}

fn compare_text(a: &Vec<char>, b: &Vec<char>) -> (r: Ordering)
    ensures
        r == text_order(a@, b@),
{
    let mut i: usize = 0;
    proof {
        assert(a@.subrange(0, a@.len() as int) =~= a@);
        assert(b@.subrange(0, b@.len() as int) =~= b@);
    }
    while i < a.len() && i < b.len() && a[i] == b[i]
        invariant
            i <= a@.len(),
            i <= b@.len(),
            text_order(a@, b@) == text_order(a@.subrange(i as int, a@.len() as int), b@.subrange(i as int, b@.len() as int)),
        decreases a.len() - i,
    {
        let ghost x = a@.subrange(i as int, a@.len() as int);
        let ghost y = b@.subrange(i as int, b@.len() as int);
        assert(x.drop_first() =~= a@.subrange(i + 1, a@.len() as int));
        assert(y.drop_first() =~= b@.subrange(i + 1, b@.len() as int));
        i += 1;
    }
    let ghost x = a@.subrange(i as int, a@.len() as int);
    let ghost y = b@.subrange(i as int, b@.len() as int);
    if i == a.len() {
        if i == b.len() {
            Ordering::Equal
        } else {
            Ordering::Less
        }
    } else if i == b.len() {
        Ordering::Greater
    } else {
        assert(x[0] == a@[i as int] && y[0] == b@[i as int]);
        if a[i] < b[i] {
            Ordering::Less
        } else {
            Ordering::Greater
        }
    }
}

/// Order of two modification times, seconds then nanoseconds since the epoch.
pub open spec fn time_order(a: (u64, u32), b: (u64, u32)) -> Ordering {
    if a.0 < b.0 || (a.0 == b.0 && a.1 < b.1) {
        Ordering::Less
    } else if a == b {
        Ordering::Equal
    } else {
        Ordering::Greater
    }
}

/// Most recently modified first, entries without a time last, and by name
/// when neither has a time.
pub open spec fn mtime_order(a: (Seq<char>, Option<(u64, u32)>), b: (Seq<char>, Option<(u64, u32)>)) -> Ordering {
    match (a.1, b.1) {
        (Some(x), Some(y)) => time_order(y, x),
        (Some(_), None) => Ordering::Less,
        (None, Some(_)) => Ordering::Greater,
        (None, None) => text_order(a.0, b.0),
    }
}

/// Orders draft entries `(name, summary, modification time)` for listing.
pub fn compare_by_mtime(a: &(String, String, Option<(u64, u32)>), b: &(String, String, Option<(u64, u32)>)) -> (r: Ordering)
    ensures
        r == mtime_order((a.0@, a.2), (b.0@, b.2)),
{
    match (&a.2, &b.2) {
        (Some(x), Some(y)) => {
            if y.0 < x.0 || (y.0 == x.0 && y.1 < x.1) {
                Ordering::Less
            } else if y.0 == x.0 && y.1 == x.1 {
                Ordering::Equal
            } else {
                Ordering::Greater
            }
        },
        (Some(_), None) => Ordering::Less,
        (None, Some(_)) => Ordering::Greater,
        (None, None) => compare_text(&chars_of(a.0.as_str()), &chars_of(b.0.as_str())),
    }
}

} // verus!
