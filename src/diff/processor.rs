//! Splitting diff text into per-file records and rendering them compactly.
use super::types::{changes_view, ChangeType, FileChange, FileChangeView};
use crate::text::{
    blank_line, chars_of, decimal, has_prefix, is_blank, lines_of, push_all, push_decimal,
    push_str_chars, split_lines, starts_with, string_of, strs_view, views_of,
};
use vstd::prelude::*;

verus! {

/// The regular expression that recognises a file header and captures its two paths.
pub open spec fn header_pattern() -> Seq<char> {
    "^diff --git a/(.*?) b/(.*?)$"@
}

/// First position at or after `k` where `sep` occurs in `s`.
pub open spec fn first_occurrence(s: Seq<char>, sep: Seq<char>, k: nat) -> Option<nat>
    decreases s.len() + 1 - k,
{
    if k + sep.len() > s.len() {
        None
    } else if s.subrange(k as int, (k + sep.len()) as int) == sep {
        Some(k)
    } else {
        first_occurrence(s, sep, k + 1)
    }
}

/// The two paths of a `diff --git a/<old> b/<new>` line: the old path ends at
/// the first ` b/`, the new path is the rest of the line.
pub open spec fn header_split(l: Seq<char>) -> Option<(Seq<char>, Seq<char>)> {
    let pre = "diff --git a/"@;
    let sep = " b/"@;
    if !starts_with(l, pre) {
        None
    } else {
        let rest = l.subrange(pre.len() as int, l.len() as int);
        match first_occurrence(rest, sep, 0) {
            Some(k) => Some((rest.subrange(0, k as int), rest.subrange((k + sep.len()) as int, rest.len() as int))),
            None => None,
        }
    }
}

/// Relies on `regex::Regex::new` and `regex::Regex::captures`: the header pattern
/// compiles, matches a line without a line feed exactly when the line starts with
/// `diff --git a/` and holds ` b/` later, and its lazy first group stops at the
/// first ` b/`.
#[verifier::external_body]
fn capture_header(pattern: &str, line: &str) -> (r: Option<(String, String)>)
    requires
        pattern@ == header_pattern(),
    ensures
        !line@.contains('\n') ==> match (r, header_split(line@)) {
            (Some((a, b)), Some((x, y))) => a@ == x && b@ == y,
            (None, None) => true,
            _ => false,
        },
{
    let re = regex::Regex::new(pattern).unwrap();
    re.captures(line).map(|c| (c[1].to_string(), c[2].to_string()))
}

/// A line that starts the next file's section.
pub open spec fn is_boundary(l: Seq<char>) -> bool {
    starts_with(l, "diff --git"@)
}

/// The change kind that a metadata line announces, if any.
pub open spec fn marker_kind(l: Seq<char>) -> Option<ChangeType> {
    if starts_with(l, "new file mode"@) {
        Some(ChangeType::Added)
    } else if starts_with(l, "deleted file mode"@) {
        Some(ChangeType::Deleted)
    } else if starts_with(l, "rename from"@) || starts_with(l, "rename to"@) {
        Some(ChangeType::Renamed)
    } else {
        None
    }
}

/// An added or removed line, not a `+++`/`---` file marker.
pub open spec fn is_change_line(l: Seq<char>) -> bool {
    (starts_with(l, "+"@) && !starts_with(l, "+++"@)) || (starts_with(l, "-"@) && !starts_with(
        l,
        "---"@,
    ))
}

/// Index of the first line at or after `j` that is a boundary (or the end).
pub open spec fn section_end(ls: Seq<Seq<char>>, j: nat) -> nat
    decreases ls.len() - j,
{
    if j >= ls.len() || is_boundary(ls[j as int]) {
        j
    } else {
        section_end(ls, j + 1)
    }
}

/// The kind set by the first marker line of the section starting at `j`.
pub open spec fn first_kind(ls: Seq<Seq<char>>, j: nat) -> ChangeType
    decreases ls.len() - j,
{
    if j >= ls.len() || is_boundary(ls[j as int]) {
        ChangeType::Modified
    } else {
        match marker_kind(ls[j as int]) {
            Some(k) => k,
            None => first_kind(ls, j + 1),
        }
    }
}

/// Number of change lines in the section starting at `j`.
pub open spec fn change_count(ls: Seq<Seq<char>>, j: nat) -> nat
    decreases ls.len() - j,
{
    if j >= ls.len() || is_boundary(ls[j as int]) {
        0
    } else {
        (if is_change_line(ls[j as int]) {
            1nat
        } else {
            0nat
        }) + change_count(ls, j + 1)
    }
}

pub proof fn lemma_section_end_bounds(ls: Seq<Seq<char>>, j: nat)
    ensures
        j <= ls.len() ==> j <= section_end(ls, j) <= ls.len(),
        j > ls.len() ==> section_end(ls, j) == j,
        change_count(ls, j) <= section_end(ls, j) - j,
    decreases ls.len() - j,
{
    if j >= ls.len() || is_boundary(ls[j as int]) {
    } else {
        lemma_section_end_bounds(ls, j + 1);
    }
}

/// The record for a section whose header (at `i`) named paths `o` and `n`.
/// An added file has no old path and a deleted file no new path.
pub open spec fn section_record(ls: Seq<Seq<char>>, i: nat, o: Seq<char>, n: Seq<char>) -> FileChangeView {
    let e = section_end(ls, i + 1);
    let kind = first_kind(ls, i + 1);
    FileChangeView {
        old_path: if kind == ChangeType::Added {
            None
        } else {
            Some(o)
        },
        new_path: if kind == ChangeType::Deleted {
            None
        } else {
            Some(n)
        },
        change_type: kind,
        content_lines: ls.subrange((i + 1) as int, e as int),
        is_large: change_count(ls, i + 1) > 100 || e - (i + 1) > 500,
    }
}

#[via_fn]
proof fn parse_from_decreases(ls: Seq<Seq<char>>, i: nat) {
    lemma_section_end_bounds(ls, i + 1);
}

/// The records of all sections found from line `i` on; lines outside a
/// recognised section are skipped.
pub open spec fn parse_from(ls: Seq<Seq<char>>, i: nat) -> Seq<FileChangeView>
    decreases ls.len() - i via parse_from_decreases
{
    if i >= ls.len() {
        Seq::empty()
    } else {
        match header_split(ls[i as int]) {
            Some((o, n)) => seq![section_record(ls, i, o, n)] + parse_from(ls, section_end(ls, i + 1)),
            None => parse_from(ls, i + 1),
        }
    }
}

/// The records of a whole diff text.
pub open spec fn parsed(text: Seq<char>) -> Seq<FileChangeView> {
    parse_from(lines_of(text), 0)
}

/// Reads one section whose header is at `i`; returns the record and the index
/// of the line after the section.
fn parse_section(lines: &Vec<Vec<char>>, i: usize, o: String, n: String) -> (r: (FileChange, usize))
    requires
        i < lines@.len(),
    ensures
        r.0@ == section_record(views_of(lines@), i as nat, o@, n@),
        r.1 == section_end(views_of(lines@), (i + 1) as nat),
{
    let ghost ls = views_of(lines@);
    let count = lines.len();
    let mut j: usize = i + 1;
    let mut kind: Option<ChangeType> = None;
    let mut total: usize = 0;
    let mut content: Vec<String> = Vec::new();
    while j < lines.len() && !has_prefix(lines[j].as_slice(), "diff --git")
        invariant
            i < j <= lines@.len(),
            ls == views_of(lines@),
            section_end(ls, (i + 1) as nat) == section_end(ls, j as nat),
            first_kind(ls, (i + 1) as nat) == match kind {
                Some(k) => k,
                None => first_kind(ls, j as nat),
            },
            change_count(ls, (i + 1) as nat) == total + change_count(ls, j as nat),
            total <= j,
            strs_view(content@) =~= ls.subrange(i + 1, j as int),
        decreases lines.len() - j,
    {
        let line = lines[j].as_slice();
        assert(ls[j as int] == line@);
        if kind.is_none() {
            if has_prefix(line, "new file mode") {
                kind = Some(ChangeType::Added);
            } else if has_prefix(line, "deleted file mode") {
                kind = Some(ChangeType::Deleted);
            } else if has_prefix(line, "rename from") || has_prefix(line, "rename to") {
                kind = Some(ChangeType::Renamed);
            }
        }
        if (has_prefix(line, "+") && !has_prefix(line, "+++")) || (has_prefix(line, "-")
            && !has_prefix(line, "---")) {
            total += 1;
        }
        let ghost prev = content@;
        content.push(string_of(line));
        assert(strs_view(content@) =~= strs_view(prev).push(line@));
        j += 1;
    }
    proof {
        lemma_section_end_bounds(ls, (i + 1) as nat);
    }
    let change_type = match kind {
        Some(k) => k,
        None => ChangeType::Modified,
    };
    let is_large = total > 100 || j - (i + 1) > 500;
    let old_path = match change_type {
        ChangeType::Added => None,
        _ => Some(o),
    };
    let new_path = match change_type {
        ChangeType::Deleted => None,
        _ => Some(n),
    };
    let fc = FileChange {
        old_path,
        new_path,
        change_type,
        content_lines: content,
        is_large,
    };
    (fc, j)
}

/// Number of lines from line `i` on that belong to no recognised section.
pub open spec fn skipped_from(ls: Seq<Seq<char>>, i: nat) -> nat
    decreases ls.len() - i via skipped_from_decreases
{
    if i >= ls.len() {
        0
    } else {
        match header_split(ls[i as int]) {
            Some(_) => skipped_from(ls, section_end(ls, i + 1)),
            None => 1 + skipped_from(ls, i + 1),
        }
    }
}

#[via_fn]
proof fn skipped_from_decreases(ls: Seq<Seq<char>>, i: nat) {
    lemma_section_end_bounds(ls, i + 1);
}

/// Splits diff text into one record per file section, in input order, and
/// counts the lines that belonged to no section (they are skipped).
pub fn parse_git_diff_counted(diff_content: &str) -> (r: (Vec<FileChange>, usize))
    ensures
        changes_view(r.0@) == parsed(diff_content@),
        r.1 == skipped_from(lines_of(diff_content@), 0),
{
    let lines = split_lines(diff_content);
    let ghost ls = views_of(lines@);
    proof {
        crate::text::lemma_lines_no_newline(diff_content@);
    }
    let mut changes: Vec<FileChange> = Vec::new();
    let mut skipped: usize = 0;
    let mut i: usize = 0;
    while i < lines.len()
        invariant
            i <= lines@.len(),
            ls == views_of(lines@),
            ls == lines_of(diff_content@),
            forall|k: int| 0 <= k < ls.len() ==> !(#[trigger] ls[k]).contains('\n'),
            parse_from(ls, 0) == changes_view(changes@) + parse_from(ls, i as nat),
            skipped_from(ls, 0) == skipped + skipped_from(ls, i as nat),
            skipped <= i,
        decreases lines.len() - i,
    {
        let line = string_of(lines[i].as_slice());
        assert(ls[i as int] == line@);
        match capture_header("^diff --git a/(.*?) b/(.*?)$", line.as_str()) {
            Some((o, n)) => {
                let (fc, e) = parse_section(&lines, i, o, n);
                proof {
                    lemma_section_end_bounds(ls, (i + 1) as nat);
                }
                let ghost prev = changes@;
                changes.push(fc);
                assert(changes_view(changes@) =~= changes_view(prev).push(fc@));
                assert(changes_view(changes@) + parse_from(ls, e as nat) =~= changes_view(prev) + (
                seq![fc@] + parse_from(ls, e as nat)));
                i = e;
            },
            None => {
                skipped += 1;
                i += 1;
            },
        }
    }
    assert(changes_view(changes@) + parse_from(ls, i as nat) =~= changes_view(changes@));
    (changes, skipped)
}

/// Splits diff text into one record per file section, in input order.
pub fn parse_git_diff(diff_content: &str) -> (r: Vec<FileChange>)
    ensures
        changes_view(r@) == parsed(diff_content@),
{
    parse_git_diff_counted(diff_content).0
}

/// The path that a summary names: the new path, else the old one.
pub open spec fn display_path(fc: FileChangeView) -> Seq<char> {
    match fc.new_path {
        Some(p) => p,
        None => match fc.old_path {
            Some(p) => p,
            None => "unknown"@,
        },
    }
}

/// The path that a deletion summary names: the old path, else the new one.
pub open spec fn deleted_path(fc: FileChangeView) -> Seq<char> {
    match fc.old_path {
        Some(p) => p,
        None => match fc.new_path {
            Some(p) => p,
            None => "unknown"@,
        },
    }
}

/// Summary of a large change: path, kind and number of content lines.
pub open spec fn large_summary(fc: FileChangeView) -> Seq<char> {
    "Large file change: "@ + display_path(fc) + "\n"@ + "Change type: "@ + fc.change_type.name()
        + "\n"@ + "Content lines: "@ + decimal(fc.content_lines.len()) + "\n"@
}

/// Summary of a deleted file.
pub open spec fn deleted_summary(fc: FileChangeView) -> Seq<char> {
    "Deleted file: "@ + deleted_path(fc) + "\n"@
}

/// The `diff --git` header line rebuilt from a record's paths.
pub open spec fn header_line(fc: FileChangeView) -> Seq<char> {
    let p = display_path(fc);
    "diff --git a/"@ + match fc.old_path {
        Some(x) => x,
        None => p,
    } + " b/"@ + match fc.new_path {
        Some(x) => x,
        None => p,
    } + "\n"@
}

/// Lines joined, each followed by a line feed.
pub open spec fn joined(ls: Seq<Seq<char>>) -> Seq<char>
    decreases ls.len(),
{
    if ls.len() == 0 {
        Seq::empty()
    } else {
        joined(ls.drop_last()) + ls.last() + "\n"@
    }
}

/// Blank-line compaction after the first `i` lines: the lines kept, and the
/// length of the blank run in progress.
pub open spec fn compact_acc(ls: Seq<Seq<char>>, i: nat) -> (Seq<Seq<char>>, nat)
    decreases i,
{
    if i == 0 || i > ls.len() {
        (Seq::empty(), 0)
    } else {
        let (out, run) = compact_acc(ls, (i - 1) as nat);
        let l = ls[i - 1];
        if is_blank(l) {
            if run + 1 <= 2 {
                (out.push(l), run + 1)
            } else {
                (out, run + 1)
            }
        } else {
            (out.push(l), 0)
        }
    }
}

/// The lines with every run of blank lines cut to at most two.
pub open spec fn compacted(ls: Seq<Seq<char>>) -> Seq<Seq<char>> {
    compact_acc(ls, ls.len()).0
}

/// The full rendering of a change that is shown as a diff.
pub open spec fn regular_diff(fc: FileChangeView) -> Seq<char> {
    header_line(fc) + joined(compacted(fc.content_lines))
}

/// How one record is rendered in the minimized output.
pub open spec fn render_file(fc: FileChangeView) -> Seq<char> {
    if fc.change_type == ChangeType::Deleted {
        deleted_summary(fc)
    } else if fc.is_large {
        large_summary(fc)
    } else {
        regular_diff(fc)
    }
}

/// All records rendered in order, each followed by a blank separator line.
pub open spec fn render_all(fcs: Seq<FileChangeView>) -> Seq<char>
    decreases fcs.len(),
{
    if fcs.len() == 0 {
        Seq::empty()
    } else {
        render_all(fcs.drop_last()) + render_file(fcs.last()) + "\n"@
    }
}

fn change_path(fc: &FileChange) -> (r: Vec<char>)
    ensures
        r@ == display_path(fc@),
{
    match &fc.new_path {
        Some(p) => chars_of(p.as_str()),
        None => match &fc.old_path {
            Some(p) => chars_of(p.as_str()),
            None => chars_of("unknown"),
        },
    }
}

fn append_large_summary(out: &mut Vec<char>, fc: &FileChange)
    ensures
        final(out)@ == old(out)@ + large_summary(fc@),
{
    let path = change_path(fc);
    push_str_chars(out, "Large file change: ");
    push_all(out, path.as_slice());
    push_str_chars(out, "\n");
    push_str_chars(out, "Change type: ");
    push_str_chars(out, fc.change_type.as_str());
    push_str_chars(out, "\n");
    push_str_chars(out, "Content lines: ");
    push_decimal(fc.content_lines.len() as u64, out);
    push_str_chars(out, "\n");
    assert(fc@.content_lines.len() == fc.content_lines@.len());
    assert(final(out)@ =~= old(out)@ + large_summary(fc@));
}

/// Summary of a large file change: its path, kind and number of content lines.
pub fn format_large_file_summary(file_change: &FileChange) -> (r: String)
    ensures
        r@ == large_summary(file_change@),
{
    let mut out: Vec<char> = Vec::new();
    append_large_summary(&mut out, file_change);
    assert(out@ =~= large_summary(file_change@));
    string_of(out.as_slice())
}

fn append_deleted_summary(out: &mut Vec<char>, fc: &FileChange)
    ensures
        final(out)@ == old(out)@ + deleted_summary(fc@),
{
    let path = match &fc.old_path {
        Some(p) => chars_of(p.as_str()),
        None => match &fc.new_path {
            Some(p) => chars_of(p.as_str()),
            None => chars_of("unknown"),
        },
    };
    push_str_chars(out, "Deleted file: ");
    push_all(out, path.as_slice());
    push_str_chars(out, "\n");
    assert(final(out)@ =~= old(out)@ + deleted_summary(fc@));
}

/// One-line summary of a deleted file.
pub fn format_deleted_file_summary(file_change: &FileChange) -> (r: String)
    ensures
        r@ == deleted_summary(file_change@),
{
    let mut out: Vec<char> = Vec::new();
    append_deleted_summary(&mut out, file_change);
    assert(out@ =~= deleted_summary(file_change@));
    string_of(out.as_slice())
}

/// Appends the rebuilt header line of a record.
pub fn append_header_line(out: &mut Vec<char>, fc: &FileChange)
    ensures
        final(out)@ == old(out)@ + header_line(fc@),
{
    let path = change_path(fc);
    push_str_chars(out, "diff --git a/");
    match &fc.old_path {
        Some(p) => push_str_chars(out, p.as_str()),
        None => push_all(out, path.as_slice()),
    }
    push_str_chars(out, " b/");
    match &fc.new_path {
        Some(p) => push_str_chars(out, p.as_str()),
        None => push_all(out, path.as_slice()),
    }
    push_str_chars(out, "\n");
    assert(final(out)@ =~= old(out)@ + header_line(fc@));
}

/// Appends each line followed by a line feed.
pub fn append_lines(out: &mut Vec<char>, lines: &Vec<String>)
    ensures
        final(out)@ == old(out)@ + joined(strs_view(lines@)),
{
    let ghost start = out@;
    let ghost ls = strs_view(lines@);
    let mut i: usize = 0;
    while i < lines.len()
        invariant
            i <= lines@.len(),
            ls == strs_view(lines@),
            out@ == start + joined(ls.subrange(0, i as int)),
        decreases lines.len() - i,
    {
        push_str_chars(out, lines[i].as_str());
        push_str_chars(out, "\n");
        assert(ls.subrange(0, i + 1).drop_last() =~= ls.subrange(0, i as int));
        assert(out@ =~= start + joined(ls.subrange(0, i + 1)));
        i += 1;
    }
    assert(ls.subrange(0, lines@.len() as int) =~= ls);
}

fn append_regular_diff(out: &mut Vec<char>, fc: &FileChange)
    ensures
        final(out)@ == old(out)@ + regular_diff(fc@),
{
    append_header_line(out, fc);
    let cleaned = remove_excessive_empty_lines(fc.content_lines.as_slice());
    append_lines(out, &cleaned);
    assert(final(out)@ =~= old(out)@ + regular_diff(fc@));
}

/// A record shown as a full diff, with runs of blank lines cut to two.
pub fn format_regular_file_diff(file_change: &FileChange) -> (r: String)
    ensures
        r@ == regular_diff(file_change@),
{
    let mut out: Vec<char> = Vec::new();
    append_regular_diff(&mut out, file_change);
    assert(out@ =~= regular_diff(file_change@));
    string_of(out.as_slice())
}

/// Keeps at most two consecutive blank lines; every other line passes through.
pub fn remove_excessive_empty_lines(lines: &[String]) -> (r: Vec<String>)
    ensures
        strs_view(r@) == compacted(strs_view(lines@)),
{
    let ghost ls = strs_view(lines@);
    let mut result: Vec<String> = Vec::new();
    let mut run: usize = 0;
    let mut i: usize = 0;
    while i < lines.len()
        invariant
            i <= lines@.len(),
            ls == strs_view(lines@),
            (strs_view(result@), run as nat) == compact_acc(ls, i as nat),
            run <= i,
        decreases lines.len() - i,
    {
        let cs = chars_of(lines[i].as_str());
        let ghost prev = result@;
        assert(ls[i as int] == cs@);
        if blank_line(cs.as_slice()) {
            run += 1;
            if run <= 2 {
                result.push(lines[i].clone());
                assert(strs_view(result@) =~= strs_view(prev).push(ls[i as int]));
            }
        } else {
            run = 0;
            result.push(lines[i].clone());
            assert(strs_view(result@) =~= strs_view(prev).push(ls[i as int]));
        }
        i += 1;
    }
    result
}

/// Renders every file section of a diff: deletions and large changes as
/// summaries, the rest as diffs with compacted blank lines.
pub fn minimize_diff(diff_content: &str) -> (r: String)
    ensures
        r@ == render_all(parsed(diff_content@)),
{
    let changes = parse_git_diff(diff_content);
    let ghost fcs = changes_view(changes@);
    let mut out: Vec<char> = Vec::new();
    let mut i: usize = 0;
    while i < changes.len()
        invariant
            i <= changes@.len(),
            fcs == changes_view(changes@),
            out@ == render_all(fcs.subrange(0, i as int)),
        decreases changes.len() - i,
    {
        let fc = &changes[i];
        assert(fcs[i as int] == fc@);
        match fc.change_type {
            ChangeType::Deleted => append_deleted_summary(&mut out, fc),
            _ => {
                if fc.is_large {
                    append_large_summary(&mut out, fc);
                } else {
                    append_regular_diff(&mut out, fc);
                }
            },
        }
        push_str_chars(&mut out, "\n");
        assert(fcs.subrange(0, i + 1).drop_last() =~= fcs.subrange(0, i as int));
        assert(out@ =~= render_all(fcs.subrange(0, i + 1)));
        i += 1;
    }
    assert(fcs.subrange(0, changes@.len() as int) =~= fcs);
    string_of(out.as_slice())
}

/// The lines that hold more than whitespace, in order.
pub open spec fn text_lines(ls: Seq<Seq<char>>) -> Seq<Seq<char>> {
    ls.filter(|l: Seq<char>| !is_blank(l))
}

/// No three consecutive lines are blank.
pub open spec fn no_blank_triple(ls: Seq<Seq<char>>) -> bool {
    forall|k: int|
        0 <= k && k + 2 < ls.len() ==> !(is_blank(#[trigger] ls[k]) && is_blank(ls[k + 1]) && is_blank(
            ls[k + 2],
        ))
}

proof fn lemma_compact_acc(ls: Seq<Seq<char>>, i: nat)
    requires
        i <= ls.len(),
    ensures
        no_blank_triple(compact_acc(ls, i).0),
        compact_acc(ls, i).1 == 0 ==> compact_acc(ls, i).0.len() == 0 || !is_blank(
            compact_acc(ls, i).0.last(),
        ),
        compact_acc(ls, i).1 == 1 ==> compact_acc(ls, i).0.len() >= 1 && (compact_acc(ls, i).0.len()
            == 1 || !is_blank(compact_acc(ls, i).0[compact_acc(ls, i).0.len() - 2])),
        text_lines(compact_acc(ls, i).0) == text_lines(ls.subrange(0, i as int)),
    decreases i,
{
    reveal(Seq::filter);
    if i == 0 {
        assert(ls.subrange(0, 0) =~= Seq::<Seq<char>>::empty());
    } else {
        lemma_compact_acc(ls, (i - 1) as nat);
        let (out, run) = compact_acc(ls, (i - 1) as nat);
        let l = ls[i - 1];
        assert(ls.subrange(0, i as int).drop_last() =~= ls.subrange(0, i - 1));
        assert(ls.subrange(0, i as int).last() == l);
        if is_blank(l) {
            if run + 1 <= 2 {
                let o2 = out.push(l);
                assert(o2.drop_last() =~= out);
                assert forall|k: int| 0 <= k && k + 2 < o2.len() implies !(is_blank(#[trigger] o2[k])
                    && is_blank(o2[k + 1]) && is_blank(o2[k + 2])) by {
                    if k + 2 < out.len() {
                        assert(o2[k] == out[k] && o2[k + 1] == out[k + 1] && o2[k + 2] == out[k + 2]);
                    } else {
                        assert(o2[k + 1] == out[k + 1] && o2[k] == out[k]);
                    }
                }
            }
        } else {
            let o2 = out.push(l);
            assert(o2.drop_last() =~= out);
            assert forall|k: int| 0 <= k && k + 2 < o2.len() implies !(is_blank(#[trigger] o2[k])
                && is_blank(o2[k + 1]) && is_blank(o2[k + 2])) by {
                if k + 2 < out.len() {
                    assert(o2[k] == out[k] && o2[k + 1] == out[k + 1] && o2[k + 2] == out[k + 2]);
                }
            }
        }
    }
}

/// Compaction never leaves more than two blank lines in a row, and keeps every
/// line that holds text, in the order it came in.
pub proof fn lemma_compaction_bound(ls: Seq<Seq<char>>)
    ensures
        no_blank_triple(compacted(ls)),
        text_lines(compacted(ls)) == text_lines(ls),
{
    lemma_compact_acc(ls, ls.len());
    assert(ls.subrange(0, ls.len() as int) =~= ls);
}

/// A large change that is not a deletion renders as its summary, and that
/// rendering depends on its paths, kind and number of lines only, never on
/// what the lines hold.
pub proof fn lemma_large_summary_hides_content(a: FileChangeView, b: FileChangeView)
    requires
        a.is_large,
        b.is_large,
        a.change_type != ChangeType::Deleted,
        a.old_path == b.old_path,
        a.new_path == b.new_path,
        a.change_type == b.change_type,
        a.content_lines.len() == b.content_lines.len(),
    ensures
        render_file(a) == large_summary(a),
        render_file(a) == render_file(b),
{
}

} // verus!
