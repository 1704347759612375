//! Persisting a diff as numbered chunks, and the review ledger that tracks
//! each file's hash, status and comments across runs.
use super::processor::{
    append_header_line, append_lines, display_path, header_line, joined, parse_git_diff, parsed,
};
use super::types::{changes_view, FileChange, FileChangeView};
use crate::text::{
    chars_of, decimal, equals_str, has_prefix, hex, lemma_nl_joined_concat,
    lemma_nl_joined_push, lemma_split_joined, lines_of, nl_joined, push_all, push_decimal,
    push_hex, push_str_chars, split_lines, split_on, starts_with, string_of, trim, trimmed,
    views_of,
};
use std::hash::{Hash, Hasher};
use vstd::prelude::*;

verus! {

/// Review state of one file, as kept in the ledger document.
#[derive(Debug)]
pub struct ReviewEntry {
    pub hash: String,
    pub status: String,
    pub comments: String,
}

pub struct ReviewEntryView {
    pub hash: Seq<char>,
    pub status: Seq<char>,
    pub comments: Seq<char>,
}

impl View for ReviewEntry {
    type V = ReviewEntryView;

    open spec fn view(&self) -> ReviewEntryView {
        ReviewEntryView { hash: self.hash@, status: self.status@, comments: self.comments@ }
    }
}

/// Entries in the order they were read; a later entry for a path replaces an earlier one.
pub open spec fn ledger_map(v: Seq<(Seq<char>, ReviewEntryView)>) -> Map<Seq<char>, ReviewEntryView>
    decreases v.len(),
{
    if v.len() == 0 {
        Map::empty()
    } else {
        ledger_map(v.drop_last()).insert(v.last().0, v.last().1)
    }
}

pub open spec fn entries_view(v: Seq<(String, ReviewEntry)>) -> Seq<(Seq<char>, ReviewEntryView)> {
    v.map_values(|e: (String, ReviewEntry)| (e.0@, e.1@))
}

/// The review state read back from a ledger document, by file path.
pub struct ReviewLedger {
    pub entries: Vec<(String, ReviewEntry)>,
}

impl View for ReviewLedger {
    type V = Map<Seq<char>, ReviewEntryView>;

    open spec fn view(&self) -> Map<Seq<char>, ReviewEntryView> {
        ledger_map(entries_view(self.entries@))
    }
}

impl ReviewLedger {
    /// A ledger with no entries.
    pub fn new() -> (r: ReviewLedger)
        ensures
            r@ == Map::<Seq<char>, ReviewEntryView>::empty(),
    {
        ReviewLedger { entries: Vec::new() }
    }

    /// The entry recorded for `path`, if any.
    pub fn get(&self, path: &str) -> (r: Option<&ReviewEntry>)
        ensures
            match r {
                Some(e) => self@.contains_key(path@) && self@[path@] == e@,
                None => !self@.contains_key(path@),
            },
    {
        let ghost ev = entries_view(self.entries@);
        let target = chars_of(path);
        let mut i: usize = self.entries.len();
        assert(ev.subrange(0, i as int) =~= ev);
        while i > 0
            invariant
                i <= self.entries@.len(),
                ev == entries_view(self.entries@),
                target@ == path@,
                ledger_map(ev).contains_key(path@) == ledger_map(ev.subrange(0, i as int)).contains_key(path@),
                ledger_map(ev).contains_key(path@) ==> ledger_map(ev)[path@] == ledger_map(ev.subrange(0, i as int))[path@],
            decreases i,
        {
            let k = i - 1;
            let key = chars_of(self.entries[k].0.as_str());
            assert(ev.subrange(0, i as int).drop_last() =~= ev.subrange(0, k as int));
            assert(ev[k as int] == (self.entries@[k as int].0@, self.entries@[k as int].1@));
            if equals_str(key.as_slice(), path) {
                return Some(&self.entries[k].1);
            }
            i = k;
        }
        None
    }
}

/// The recognised shapes of a free-form review status.
#[derive(Debug)]
pub enum ReviewStatus {
    Pending,
    Outdated,
    /// `reviewed@<date>`, with the text after the `@`.
    Reviewed(String),
    /// Any other text, kept as written.
    Other(String),
}

impl ReviewStatus {
    /// Reads a status line's value: `pending`, `outdated`, `reviewed@<date>`,
    /// or anything else as it stands.
    pub fn classify(status: &str) -> (r: ReviewStatus)
        ensures
            match r {
                ReviewStatus::Pending => status@ == "pending"@,
                ReviewStatus::Outdated => status@ == "outdated"@,
                ReviewStatus::Reviewed(d) => status@ != "pending"@ && status@ != "outdated"@
                    && starts_with(status@, "reviewed@"@) && d@ == rest_after(status@, "reviewed@"@),
                ReviewStatus::Other(t) => status@ != "pending"@ && status@ != "outdated"@
                    && !starts_with(status@, "reviewed@"@) && t@ == status@,
            },
    {
        let cs = chars_of(status);
        if equals_str(cs.as_slice(), "pending") {
            ReviewStatus::Pending
        } else if equals_str(cs.as_slice(), "outdated") {
            ReviewStatus::Outdated
        } else if has_prefix(cs.as_slice(), "reviewed@") {
            let n = chars_of("reviewed@").len();
            let d = crate::text::suffix_from(cs.as_slice(), n);
            ReviewStatus::Reviewed(string_of(d.as_slice()))
        } else {
            ReviewStatus::Other(string_of(cs.as_slice()))
        }
    }

    /// The status as written in the ledger.
    pub fn as_text(&self) -> (r: String)
        ensures
            r@ == match self {
                ReviewStatus::Pending => "pending"@,
                ReviewStatus::Outdated => "outdated"@,
                ReviewStatus::Reviewed(d) => "reviewed@"@ + d@,
                ReviewStatus::Other(t) => t@,
            },
    {
        match self {
            ReviewStatus::Pending => string_of(chars_of("pending").as_slice()),
            ReviewStatus::Outdated => string_of(chars_of("outdated").as_slice()),
            ReviewStatus::Reviewed(d) => {
                let mut out: Vec<char> = Vec::new();
                push_str_chars(&mut out, "reviewed@");
                push_str_chars(&mut out, d.as_str());
                assert(out@ =~= "reviewed@"@ + d@);
                string_of(out.as_slice())
            },
            ReviewStatus::Other(t) => t.clone(),
        }
    }
}

/// The 64-bit digest that `DefaultHasher::new()` (fixed keys) gives for a text
/// fed through `str::hash`; it depends on the characters alone, for one build of
/// the standard library.
pub uninterp spec fn default_hash_of(s: Seq<char>) -> u64;

/// Relies on `std::hash::DefaultHasher::new`, `<str as Hash>::hash` and
/// `Hasher::finish`: the same text always gives the same digest.
#[verifier::external_body]
fn default_hash(content: &str) -> (r: u64)
    ensures
        r == default_hash_of(content@),
{
    let mut hasher = std::collections::hash_map::DefaultHasher::new();
    content.hash(&mut hasher);
    hasher.finish()
}

/// The fingerprint of a chunk body: its digest in lowercase hexadecimal.
pub open spec fn content_hash(s: Seq<char>) -> Seq<char> {
    hex(default_hash_of(s) as nat)
}

/// A digest written in lowercase hexadecimal, without leading zeros.
pub fn hash_text(digest: u64) -> (r: String)
    ensures
        r@ == hex(digest as nat),
{
    let mut out: Vec<char> = Vec::new();
    push_hex(digest, &mut out);
    assert(out@ =~= hex(digest as nat));
    string_of(out.as_slice())
}

/// Fingerprint of a chunk body.
pub fn compute_file_hash(content: &str) -> (r: String)
    ensures
        r@ == content_hash(content@),
{
    hash_text(default_hash(content))
}

/// The two lowercase letters or four digits that name chunk `i`.
pub open spec fn letter(k: nat) -> char {
    ((97 + k) as u8) as char
}

pub open spec fn pad4(s: Seq<char>) -> Seq<char> {
    if s.len() < 4 {
        Seq::new((4 - s.len()) as nat, |_k: int| '0') + s
    } else {
        s
    }
}

pub open spec fn chunk_suffix(i: nat) -> Seq<char> {
    if i < 676 {
        seq![letter(i / 26), letter(i % 26)]
    } else {
        pad4(decimal((i - 676) as nat))
    }
}

/// Suffix of chunk `index`: `aa` to `zz` for the first 676, then `0000`, `0001`, ...
pub fn generate_chunk_suffix(index: usize) -> (r: String)
    ensures
        r@ == chunk_suffix(index as nat),
{
    let mut out: Vec<char> = Vec::new();
    if index < 676 {
        out.push((97u8 + (index / 26) as u8) as char);
        out.push((97u8 + (index % 26) as u8) as char);
        assert(out@ =~= chunk_suffix(index as nat));
    } else {
        let mut digits: Vec<char> = Vec::new();
        push_decimal((index - 676) as u64, &mut digits);
        let mut k: usize = digits.len();
        while k < 4
            invariant
                digits@.len() <= k <= 4 || (k == digits@.len() && k >= 4),
                out@ =~= Seq::new((k - digits@.len()) as nat, |_j: int| '0'),
            decreases 4 - k,
        {
            out.push('0');
            k += 1;
        }
        push_all(&mut out, digits.as_slice());
        assert(out@ =~= pad4(digits@));
    }
    string_of(out.as_slice())
}

/// File name of chunk `i`.
pub open spec fn chunk_name(i: nat) -> Seq<char> {
    "chunk_"@ + chunk_suffix(i) + ".diff"@
}

/// A chunk body: the rebuilt header line and every content line, uncompacted.
pub open spec fn chunk_body(fc: FileChangeView) -> Seq<char> {
    header_line(fc) + joined(fc.content_lines)
}

/// Status and comments that a file gets on this run, given the prior ledger
/// and the fresh hash of its chunk.
pub open spec fn reconcile(prior: Map<Seq<char>, ReviewEntryView>, path: Seq<char>, hash: Seq<char>) -> (Seq<char>, Seq<char>) {
    if prior.contains_key(path) {
        if prior[path].hash == hash {
            (prior[path].status, prior[path].comments)
        } else {
            ("outdated"@, prior[path].comments)
        }
    } else {
        ("pending"@, Seq::empty())
    }
}

/// The ledger entry written for one parsed file.
pub open spec fn fresh_entry(prior: Map<Seq<char>, ReviewEntryView>, fc: FileChangeView) -> (Seq<char>, ReviewEntryView) {
    let h = content_hash(chunk_body(fc));
    let (status, comments) = reconcile(prior, display_path(fc), h);
    (display_path(fc), ReviewEntryView { hash: h, status, comments })
}

/// The entries of the rewritten ledger, one per parsed file, in order.
pub open spec fn reconciled(prior: Map<Seq<char>, ReviewEntryView>, fcs: Seq<FileChangeView>) -> Seq<(Seq<char>, ReviewEntryView)> {
    fcs.map_values(|fc: FileChangeView| fresh_entry(prior, fc))
}

/// The lines of the fixed guidelines section that opens every ledger document.
pub open spec fn preamble_lines(dir: Seq<char>) -> Seq<Seq<char>> {
    seq![
        "# Code Review Tracking"@,
        Seq::empty(),
        "This file tracks the review status of code changes."@,
        Seq::empty(),
        "## Guidelines"@,
        "- Diff chunks are stored in: "@ + dir + "/"@,
        "- Update `meta:status` after reviewing each file"@,
        "- Status values: `pending`, `reviewed@YYYY-MM-DD`, `outdated`"@,
        "- If file hash changes on subsequent runs, status will be automatically set to `outdated`"@,
        "- Add review comments in the placeholder section below each file"@,
        "- On each run, file sections not present in current diff are removed"@,
        Seq::empty(),
        "---"@,
        Seq::empty(),
    ]
}

/// The guidelines section.
pub open spec fn review_preamble(dir: Seq<char>) -> Seq<char> {
    nl_joined(preamble_lines(dir))
}

/// The comment area of a section: a placeholder when there are no comments.
pub open spec fn comment_lines(comments: Seq<char>) -> Seq<Seq<char>> {
    if comments.len() == 0 {
        seq!["<!-- Review comments go here -->"@, Seq::empty()]
    } else {
        split_on(comments, '\n')
    }
}

/// The lines of one file's section: heading, metadata, comments, separator.
pub open spec fn section_lines(e: (Seq<char>, ReviewEntryView), name: Seq<char>) -> Seq<Seq<char>> {
    seq![
        "## "@ + e.0,
        "- meta:hash: "@ + e.1.hash,
        "- meta:diff_chunk: "@ + name,
        "- meta:status: "@ + e.1.status,
        Seq::empty(),
    ] + comment_lines(e.1.comments) + seq!["---"@, Seq::empty()]
}

/// One file's section of the ledger document.
pub open spec fn review_section(e: (Seq<char>, ReviewEntryView), name: Seq<char>) -> Seq<char> {
    nl_joined(section_lines(e, name))
}

/// The sections of the first `n` entries.
pub open spec fn review_sections(es: Seq<(Seq<char>, ReviewEntryView)>) -> Seq<char>
    decreases es.len(),
{
    if es.len() == 0 {
        Seq::empty()
    } else {
        review_sections(es.drop_last()) + review_section(es.last(), chunk_name((es.len() - 1) as nat))
    }
}

/// The whole ledger document for a run.
pub open spec fn review_document(dir: Seq<char>, es: Seq<(Seq<char>, ReviewEntryView)>) -> Seq<char> {
    review_preamble(dir) + review_sections(es)
}

/// One chunk artifact: its file name and body.
pub struct ChunkFile {
    pub filename: String,
    pub content: String,
}

/// Everything a persist run writes: the chunks in order and the ledger document.
pub struct DiffChunkPlan {
    pub chunks: Vec<ChunkFile>,
    pub review: String,
}

pub open spec fn chunk_ok(c: ChunkFile, i: nat, fc: FileChangeView) -> bool {
    c.filename@ == chunk_name(i) && c.content@ == chunk_body(fc)
}

fn chunk_file_name(index: usize) -> (r: String)
    ensures
        r@ == chunk_name(index as nat),
{
    let mut out: Vec<char> = Vec::new();
    push_str_chars(&mut out, "chunk_");
    let suffix = generate_chunk_suffix(index);
    push_str_chars(&mut out, suffix.as_str());
    push_str_chars(&mut out, ".diff");
    assert(out@ =~= chunk_name(index as nat));
    string_of(out.as_slice())
}

fn chunk_content(fc: &FileChange) -> (r: String)
    ensures
        r@ == chunk_body(fc@),
{
    let mut out: Vec<char> = Vec::new();
    append_header_line(&mut out, fc);
    append_lines(&mut out, &fc.content_lines);
    assert(out@ =~= chunk_body(fc@));
    string_of(out.as_slice())
}

fn path_string(fc: &FileChange) -> (r: String)
    ensures
        r@ == display_path(fc@),
{
    match &fc.new_path {
        Some(p) => p.clone(),
        None => match &fc.old_path {
            Some(p) => p.clone(),
            None => string_of(chars_of("unknown").as_slice()),
        },
    }
}

/// Status and comments for a file whose fresh chunk hash is `hash`.
pub fn reconcile_entry(prior: &ReviewLedger, path: &str, hash: &str) -> (r: (String, String))
    ensures
        (r.0@, r.1@) == reconcile(prior@, path@, hash@),
{
    match prior.get(path) {
        Some(existing) => {
            let stored = chars_of(existing.hash.as_str());
            if equals_str(stored.as_slice(), hash) {
                (existing.status.clone(), existing.comments.clone())
            } else {
                (string_of(chars_of("outdated").as_slice()), existing.comments.clone())
            }
        },
        None => (string_of(chars_of("pending").as_slice()), String::new()),
    }
}

/// Appends `prefix + value` and a line feed, tracking the lines written so far.
fn push_line(
    out: &mut Vec<char>,
    prefix: &str,
    value: &str,
    Ghost(start): Ghost<Seq<char>>,
    Ghost(ls): Ghost<Seq<Seq<char>>>,
)
    requires
        old(out)@ == start + nl_joined(ls),
    ensures
        final(out)@ == start + nl_joined(ls.push(prefix@ + value@)),
{
    push_str_chars(out, prefix);
    push_str_chars(out, value);
    out.push('\n');
    proof {
        lemma_nl_joined_push(ls, prefix@ + value@);
    }
    assert(final(out)@ =~= start + nl_joined(ls.push(prefix@ + value@)));
}

/// Appends `text` and a line feed, tracking the lines written so far.
fn push_text_line(out: &mut Vec<char>, text: &str, Ghost(start): Ghost<Seq<char>>, Ghost(ls): Ghost<Seq<Seq<char>>>)
    requires
        old(out)@ == start + nl_joined(ls),
    ensures
        final(out)@ == start + nl_joined(ls.push(text@)),
{
    push_str_chars(out, text);
    out.push('\n');
    proof {
        lemma_nl_joined_push(ls, text@);
    }
    assert(final(out)@ =~= start + nl_joined(ls.push(text@)));
}

/// Appends an empty line, tracking the lines written so far.
fn push_blank_line(out: &mut Vec<char>, Ghost(start): Ghost<Seq<char>>, Ghost(ls): Ghost<Seq<Seq<char>>>)
    requires
        old(out)@ == start + nl_joined(ls),
    ensures
        final(out)@ == start + nl_joined(ls.push(Seq::empty())),
{
    out.push('\n');
    proof {
        lemma_nl_joined_push(ls, Seq::empty());
    }
    assert(final(out)@ =~= start + nl_joined(ls.push(Seq::empty())));
}

fn append_section(out: &mut Vec<char>, path: &String, entry: &ReviewEntry, name: &String)
    ensures
        final(out)@ == old(out)@ + review_section((path@, entry@), name@),
{
    let ghost start = out@;
    let ghost e = (path@, entry@);
    let ghost ls: Seq<Seq<char>> = Seq::empty();
    assert(out@ =~= start + nl_joined(ls));
    push_line(out, "## ", path.as_str(), Ghost(start), Ghost(ls));
    let ghost ls = ls.push("## "@ + path@);
    push_line(out, "- meta:hash: ", entry.hash.as_str(), Ghost(start), Ghost(ls));
    let ghost ls = ls.push("- meta:hash: "@ + entry.hash@);
    push_line(out, "- meta:diff_chunk: ", name.as_str(), Ghost(start), Ghost(ls));
    let ghost ls = ls.push("- meta:diff_chunk: "@ + name@);
    push_line(out, "- meta:status: ", entry.status.as_str(), Ghost(start), Ghost(ls));
    let ghost ls = ls.push("- meta:status: "@ + entry.status@);
    push_blank_line(out, Ghost(start), Ghost(ls));
    let ghost ls = ls.push(Seq::empty());
    let ghost head = ls;
    let comments = chars_of(entry.comments.as_str());
    if comments.len() == 0 {
        push_text_line(out, "<!-- Review comments go here -->", Ghost(start), Ghost(ls));
        let ghost ls = ls.push("<!-- Review comments go here -->"@);
        push_blank_line(out, Ghost(start), Ghost(ls));
        let ghost ls = ls.push(Seq::empty());
        push_text_line(out, "---", Ghost(start), Ghost(ls));
        let ghost ls = ls.push("---"@);
        push_blank_line(out, Ghost(start), Ghost(ls));
        let ghost ls = ls.push(Seq::empty());
        proof {
            assert(ls =~= section_lines(e, name@));
        }
    } else {
        push_all(out, comments.as_slice());
        out.push('\n');
        proof {
            lemma_split_joined(entry.comments@);
            lemma_nl_joined_concat(head, split_on(entry.comments@, '\n'));
        }
        let ghost ls = head + split_on(entry.comments@, '\n');
        assert(out@ =~= start + nl_joined(ls));
        push_text_line(out, "---", Ghost(start), Ghost(ls));
        let ghost ls = ls.push("---"@);
        push_blank_line(out, Ghost(start), Ghost(ls));
        let ghost ls = ls.push(Seq::empty());
        proof {
            assert(ls =~= section_lines(e, name@));
        }
    }
}

/// Plans a persist run: one chunk per parsed file, and the rewritten ledger
/// reconciled against the prior one. `dir` is the resolved output directory.
pub fn plan_diff_chunks(diff_content: &str, dir: &str, prior: &ReviewLedger) -> (r: DiffChunkPlan)
    ensures
        r.chunks@.len() == parsed(diff_content@).len(),
        forall|i: int|
            0 <= i < r.chunks@.len() ==> chunk_ok(#[trigger] r.chunks@[i], i as nat, parsed(diff_content@)[i]),
        r.review@ == review_document(dir@, reconciled(prior@, parsed(diff_content@))),
{
    let changes = parse_git_diff(diff_content);
    let ghost fcs = changes_view(changes@);
    let ghost es = reconciled(prior@, fcs);
    let mut chunks: Vec<ChunkFile> = Vec::new();
    let mut out: Vec<char> = Vec::new();
    let ghost ls: Seq<Seq<char>> = Seq::empty();
    let ghost e0 = out@;
    assert(out@ =~= e0 + nl_joined(ls));
    push_text_line(&mut out, "# Code Review Tracking", Ghost(e0), Ghost(ls));
    let ghost ls = ls.push("# Code Review Tracking"@);
    push_blank_line(&mut out, Ghost(e0), Ghost(ls));
    let ghost ls = ls.push(Seq::empty());
    push_text_line(&mut out, "This file tracks the review status of code changes.", Ghost(e0), Ghost(ls));
    let ghost ls = ls.push("This file tracks the review status of code changes."@);
    push_blank_line(&mut out, Ghost(e0), Ghost(ls));
    let ghost ls = ls.push(Seq::empty());
    push_text_line(&mut out, "## Guidelines", Ghost(e0), Ghost(ls));
    let ghost ls = ls.push("## Guidelines"@);
    let mut dir_line: Vec<char> = Vec::new();
    push_str_chars(&mut dir_line, dir);
    push_str_chars(&mut dir_line, "/");
    let dir_text = string_of(dir_line.as_slice());
    assert(dir_line@ =~= dir@ + "/"@);
    push_line(&mut out, "- Diff chunks are stored in: ", dir_text.as_str(), Ghost(e0), Ghost(ls));
    let ghost ls = ls.push("- Diff chunks are stored in: "@ + dir_text@);
    push_text_line(&mut out, "- Update `meta:status` after reviewing each file", Ghost(e0), Ghost(ls));
    let ghost ls = ls.push("- Update `meta:status` after reviewing each file"@);
    push_text_line(&mut out, "- Status values: `pending`, `reviewed@YYYY-MM-DD`, `outdated`", Ghost(e0), Ghost(ls));
    let ghost ls = ls.push("- Status values: `pending`, `reviewed@YYYY-MM-DD`, `outdated`"@);
    push_text_line(&mut out, "- If file hash changes on subsequent runs, status will be automatically set to `outdated`", Ghost(e0), Ghost(ls));
    let ghost ls = ls.push("- If file hash changes on subsequent runs, status will be automatically set to `outdated`"@);
    push_text_line(&mut out, "- Add review comments in the placeholder section below each file", Ghost(e0), Ghost(ls));
    let ghost ls = ls.push("- Add review comments in the placeholder section below each file"@);
    push_text_line(&mut out, "- On each run, file sections not present in current diff are removed", Ghost(e0), Ghost(ls));
    let ghost ls = ls.push("- On each run, file sections not present in current diff are removed"@);
    push_blank_line(&mut out, Ghost(e0), Ghost(ls));
    let ghost ls = ls.push(Seq::empty());
    push_text_line(&mut out, "---", Ghost(e0), Ghost(ls));
    let ghost ls = ls.push("---"@);
    push_blank_line(&mut out, Ghost(e0), Ghost(ls));
    let ghost ls = ls.push(Seq::empty());
    proof {
        assert(dir_text@ == dir@ + "/"@);
        assert("- Diff chunks are stored in: "@ + dir_text@ =~= "- Diff chunks are stored in: "@ + dir@ + "/"@);
        assert(ls =~= preamble_lines(dir@));
    }
    let ghost pre = out@;
    assert(pre =~= review_preamble(dir@));
    let mut i: usize = 0;
    while i < changes.len()
        invariant
            i <= changes@.len(),
            fcs == changes_view(changes@),
            es == reconciled(prior@, fcs),
            chunks@.len() == i,
            forall|k: int| 0 <= k < i ==> chunk_ok(#[trigger] chunks@[k], k as nat, fcs[k]),
            out@ == pre + review_sections(es.subrange(0, i as int)),
        decreases changes.len() - i,
    {
        let fc = &changes[i];
        assert(fcs[i as int] == fc@);
        let filename = chunk_file_name(i);
        let content = chunk_content(fc);
        let hash = compute_file_hash(content.as_str());
        let path = path_string(fc);
        let (status, comments) = reconcile_entry(prior, path.as_str(), hash.as_str());
        let entry = ReviewEntry { hash, status, comments };
        assert((path@, entry@) == es[i as int]);
        append_section(&mut out, &path, &entry, &filename);
        assert(es.subrange(0, i + 1).drop_last() =~= es.subrange(0, i as int));
        assert(out@ =~= pre + review_sections(es.subrange(0, i + 1)));
        chunks.push(ChunkFile { filename, content });
        i += 1;
    }
    assert(es.subrange(0, changes@.len() as int) =~= es);
    DiffChunkPlan { chunks, review: string_of(out.as_slice()) }
}

/// Reading state while scanning a ledger document line by line.
pub struct ReviewScan {
    pub entries: Seq<(Seq<char>, ReviewEntryView)>,
    pub file: Option<Seq<char>>,
    pub hash: Option<Seq<char>>,
    pub status: Option<Seq<char>>,
    pub comments: Seq<char>,
    pub in_comments: bool,
    /// Inside the guidelines section, which ends at its first `---` line.
    pub in_guidelines: bool,
    /// The guidelines section has been opened.
    pub guidelines_seen: bool,
}

pub open spec fn scan_start() -> ReviewScan {
    ReviewScan {
        entries: Seq::empty(),
        file: None,
        hash: None,
        status: None,
        comments: Seq::empty(),
        in_comments: false,
        in_guidelines: false,
        guidelines_seen: false,
    }
}

/// Whether the scan holds a path, a hash and a status to record.
pub open spec fn scan_complete(st: ReviewScan) -> bool {
    st.file is Some && st.hash is Some && st.status is Some
}

/// The entry that a complete scan state records.
pub open spec fn scan_entry(st: ReviewScan) -> (Seq<char>, ReviewEntryView) {
    (
        st.file.unwrap(),
        ReviewEntryView { hash: st.hash.unwrap(), status: st.status.unwrap(), comments: trim(st.comments) },
    )
}

pub open spec fn rest_after(l: Seq<char>, p: Seq<char>) -> Seq<char> {
    l.subrange(p.len() as int, l.len() as int)
}

/// One line of a ledger document applied to the scan. A `## Guidelines`
/// heading before any file section opens the guidelines, which run to their
/// first `---` line and are skipped. After that, a `## <path>` heading records
/// the previous entry and opens a new one; inside an entry the hash and status
/// lines are read, and the lines after the status up to `---` are comments.
pub open spec fn scan_line(st: ReviewScan, l: Seq<char>) -> ReviewScan {
    if st.in_guidelines {
        if l == "---"@ {
            ReviewScan { in_guidelines: false, ..st }
        } else {
            st
        }
    } else if st.file is None && !st.guidelines_seen && l == "## Guidelines"@ {
        ReviewScan { in_guidelines: true, guidelines_seen: true, ..st }
    } else if starts_with(l, "## "@) {
        let done = scan_complete(st);
        ReviewScan {
            entries: if done { st.entries.push(scan_entry(st)) } else { st.entries },
            file: Some(trim(rest_after(l, "## "@))),
            hash: None,
            status: None,
            comments: if done { Seq::empty() } else { st.comments },
            in_comments: if done { false } else { st.in_comments },
            in_guidelines: false,
            guidelines_seen: st.guidelines_seen,
        }
    } else if st.file is None {
        st
    } else if starts_with(l, "- meta:hash: "@) {
        ReviewScan { hash: Some(trim(rest_after(l, "- meta:hash: "@))), ..st }
    } else if starts_with(l, "- meta:status: "@) {
        ReviewScan { status: Some(trim(rest_after(l, "- meta:status: "@))), in_comments: true, ..st }
    } else if l == "---"@ {
        ReviewScan { in_comments: false, ..st }
    } else if st.in_comments && !starts_with(l, "- meta:"@) && l != "<!-- Review comments go here -->"@ {
        ReviewScan {
            comments: (if st.comments.len() > 0 { st.comments.push('\n') } else { st.comments }) + l,
            ..st
        }
    } else {
        st
    }
}

/// The scan after the first `i` lines.
pub open spec fn scan_lines(ls: Seq<Seq<char>>, i: nat) -> ReviewScan
    decreases i,
{
    if i == 0 || i > ls.len() {
        scan_start()
    } else {
        scan_line(scan_lines(ls, (i - 1) as nat), ls[i - 1])
    }
}

/// The entries that a ledger document records, in document order.
pub open spec fn review_entries(text: Seq<char>) -> Seq<(Seq<char>, ReviewEntryView)> {
    let ls = lines_of(text);
    let st = scan_lines(ls, ls.len());
    if scan_complete(st) {
        st.entries.push(scan_entry(st))
    } else {
        st.entries
    }
}

pub open spec fn opt_chars(o: Option<Vec<char>>) -> Option<Seq<char>> {
    match o {
        Some(v) => Some(v@),
        None => None,
    }
}

fn text_of(v: &Vec<char>) -> (r: String)
    ensures
        r@ == v@,
{
    string_of(v.as_slice())
}

fn prefix_len(p: &str) -> (r: usize)
    ensures
        r == p@.len(),
{
    chars_of(p).len()
}

fn record_entry(
    entries: &mut Vec<(String, ReviewEntry)>,
    file: &Vec<char>,
    hash: &Vec<char>,
    status: &Vec<char>,
    comments: &Vec<char>,
)
    ensures
        entries_view(final(entries)@) == entries_view(old(entries)@).push(
            (file@, ReviewEntryView { hash: hash@, status: status@, comments: trim(comments@) }),
        ),
{
    let ghost prev = entries@;
    let c = trimmed(comments.as_slice(), 0);
    assert(comments@.subrange(0, comments@.len() as int) =~= comments@);
    let entry = ReviewEntry { hash: text_of(hash), status: text_of(status), comments: text_of(&c) };
    entries.push((text_of(file), entry));
    assert(entries_view(entries@) =~= entries_view(prev).push(
        (file@, ReviewEntryView { hash: hash@, status: status@, comments: trim(comments@) }),
    ));
}

/// Reads the entries of an earlier ledger document. Text that does not form an
/// entry is skipped, so an empty or guidelines-only document gives no entries.
pub fn parse_existing_review(content: &str) -> (r: ReviewLedger)
    ensures
        entries_view(r.entries@) == review_entries(content@),
        r@ == ledger_map(review_entries(content@)),
{
    let lines = split_lines(content);
    let ghost ls = views_of(lines@);
    let mut entries: Vec<(String, ReviewEntry)> = Vec::new();
    let mut file: Option<Vec<char>> = None;
    let mut hash: Option<Vec<char>> = None;
    let mut status: Option<Vec<char>> = None;
    let mut comments: Vec<char> = Vec::new();
    let mut in_comments = false;
    let mut in_guidelines = false;
    let mut guidelines_seen = false;
    let mut i: usize = 0;
    assert(entries_view(entries@) =~= Seq::empty());
    assert(comments@ =~= Seq::empty());
    while i < lines.len()
        invariant
            i <= lines@.len(),
            ls == views_of(lines@),
            ls == lines_of(content@),
            scan_lines(ls, i as nat) == (ReviewScan {
                entries: entries_view(entries@),
                file: opt_chars(file),
                hash: opt_chars(hash),
                status: opt_chars(status),
                comments: comments@,
                in_comments,
                in_guidelines,
                guidelines_seen,
            }),
        decreases lines.len() - i,
    {
        let line = lines[i].as_slice();
        assert(ls[i as int] == line@);
        if in_guidelines {
            if equals_str(line, "---") {
                in_guidelines = false;
            }
        } else if file.is_none() && !guidelines_seen && equals_str(line, "## Guidelines") {
            in_guidelines = true;
            guidelines_seen = true;
        } else if has_prefix(line, "## ") {
            match (&file, &hash, &status) {
                (Some(f), Some(h), Some(s)) => {
                    record_entry(&mut entries, f, h, s, &comments);
                    comments = Vec::new();
                    in_comments = false;
                },
                _ => {},
            }
            file = Some(trimmed(line, prefix_len("## ")));
            hash = None;
            status = None;
        } else if file.is_some() {
            if has_prefix(line, "- meta:hash: ") {
                hash = Some(trimmed(line, prefix_len("- meta:hash: ")));
            } else if has_prefix(line, "- meta:status: ") {
                status = Some(trimmed(line, prefix_len("- meta:status: ")));
                in_comments = true;
            } else if equals_str(line, "---") {
                in_comments = false;
            } else if in_comments && !has_prefix(line, "- meta:") && !equals_str(
                line,
                "<!-- Review comments go here -->",
            ) {
                if comments.len() > 0 {
                    comments.push('\n');
                }
                push_all(&mut comments, line);
            }
        }
        i += 1;
    }
    match (&file, &hash, &status) {
        (Some(f), Some(h), Some(s)) => {
            record_entry(&mut entries, f, h, s, &comments);
        },
        _ => {},
    }
    ReviewLedger { entries }
}

/// The directory that chunks go to: a relative path as given, an absolute one
/// with the project's name appended.
pub open spec fn output_dir_for(output_dir: Seq<char>, project_id: Seq<char>) -> Seq<char> {
    if starts_with(output_dir, "/"@) {
        output_dir + "/"@ + project_id
    } else {
        output_dir
    }
}

pub fn resolve_output_dir(output_dir: &str, project_id: &str) -> (r: String)
    ensures
        r@ == output_dir_for(output_dir@, project_id@),
{
    let dir = chars_of(output_dir);
    let mut out: Vec<char> = Vec::new();
    push_all(&mut out, dir.as_slice());
    if has_prefix(dir.as_slice(), "/") {
        push_str_chars(&mut out, "/");
        push_str_chars(&mut out, project_id);
    }
    assert(out@ =~= output_dir_for(output_dir@, project_id@));
    string_of(out.as_slice())
}

/// The project's name: the repository's directory name, else the working
/// directory's name, else `default-project`.
pub fn project_identifier(repo_name: Option<String>, cwd_name: Option<String>) -> (r: String)
    ensures
        r@ == match repo_name {
            Some(n) => n@,
            None => match cwd_name {
                Some(n) => n@,
                None => "default-project"@,
            },
        },
{
    match repo_name {
        Some(n) => n,
        None => match cwd_name {
            Some(n) => n,
            None => string_of(chars_of("default-project").as_slice()),
        },
    }
}

/// No two entries name the same path.
pub open spec fn distinct_paths(fcs: Seq<FileChangeView>) -> bool {
    forall|a: int, b: int|
        0 <= a < fcs.len() && 0 <= b < fcs.len() && a != b ==> display_path(#[trigger] fcs[a])
            != display_path(#[trigger] fcs[b])
}

proof fn lemma_ledger_map_keys(es: Seq<(Seq<char>, ReviewEntryView)>, p: Seq<char>)
    ensures
        ledger_map(es).contains_key(p) <==> exists|k: int| 0 <= k < es.len() && (#[trigger] es[k]).0 == p,
    decreases es.len(),
{
    if es.len() > 0 {
        lemma_ledger_map_keys(es.drop_last(), p);
        if exists|k: int| 0 <= k < es.len() && (#[trigger] es[k]).0 == p {
            let k = choose|k: int| 0 <= k < es.len() && (#[trigger] es[k]).0 == p;
            if k < es.len() - 1 {
                assert(es.drop_last()[k] == es[k]);
            }
        }
        if exists|k: int| 0 <= k < es.drop_last().len() && (#[trigger] es.drop_last()[k]).0 == p {
            let k = choose|k: int| 0 <= k < es.drop_last().len() && (#[trigger] es.drop_last()[k]).0 == p;
            assert(es[k] == es.drop_last()[k]);
        }
    }
}

pub proof fn lemma_ledger_map_lookup(es: Seq<(Seq<char>, ReviewEntryView)>, k: int)
    requires
        0 <= k < es.len(),
        forall|a: int, b: int| 0 <= a < es.len() && 0 <= b < es.len() && a != b ==> (#[trigger] es[a]).0 != (#[trigger] es[b]).0,
    ensures
        ledger_map(es).contains_key(es[k].0),
        ledger_map(es)[es[k].0] == es[k].1,
    decreases es.len(),
{
    if k < es.len() - 1 {
        let d = es.drop_last();
        assert(d[k] == es[k]);
        assert forall|a: int, b: int| 0 <= a < d.len() && 0 <= b < d.len() && a != b implies (#[trigger] d[a]).0 != (#[trigger] d[b]).0 by {
            assert(d[a] == es[a] && d[b] == es[b]);
        }
        lemma_ledger_map_lookup(d, k);
        assert(es.last().0 != es[k].0);
    }
}

/// Files that leave the diff leave the ledger: after a run, the ledger holds
/// exactly the paths of the files just parsed, whatever the prior ledger held.
pub proof fn lemma_removed_paths_dropped(prior: Map<Seq<char>, ReviewEntryView>, fcs: Seq<FileChangeView>, p: Seq<char>)
    ensures
        ledger_map(reconciled(prior, fcs)).contains_key(p) <==> exists|k: int|
            0 <= k < fcs.len() && display_path(#[trigger] fcs[k]) == p,
{
    let es = reconciled(prior, fcs);
    lemma_ledger_map_keys(es, p);
    if exists|k: int| 0 <= k < fcs.len() && display_path(#[trigger] fcs[k]) == p {
        let k = choose|k: int| 0 <= k < fcs.len() && display_path(#[trigger] fcs[k]) == p;
        assert(es[k].0 == p);
    }
    if exists|k: int| 0 <= k < es.len() && (#[trigger] es[k]).0 == p {
        let k = choose|k: int| 0 <= k < es.len() && (#[trigger] es[k]).0 == p;
        assert(display_path(fcs[k]) == p);
    }
}

/// A file whose chunk changed since its entry was written is marked
/// `outdated`, and its comments are kept.
pub proof fn lemma_changed_file_outdated(prior: Map<Seq<char>, ReviewEntryView>, fc: FileChangeView)
    requires
        prior.contains_key(display_path(fc)),
        prior[display_path(fc)].hash != content_hash(chunk_body(fc)),
    ensures
        fresh_entry(prior, fc).1.status == "outdated"@,
        fresh_entry(prior, fc).1.comments == prior[display_path(fc)].comments,
        fresh_entry(prior, fc).1.hash == content_hash(chunk_body(fc)),
{
}

/// Running twice on the same diff changes nothing: reconciling the parsed files
/// against the ledger that the first run wrote gives that ledger again, every
/// hash, status and comment unchanged (for a diff that names each path once).
pub proof fn lemma_rerun_idempotent(prior: Map<Seq<char>, ReviewEntryView>, fcs: Seq<FileChangeView>)
    requires
        distinct_paths(fcs),
    ensures
        reconciled(ledger_map(reconciled(prior, fcs)), fcs) == reconciled(prior, fcs),
{
    let es = reconciled(prior, fcs);
    let m = ledger_map(es);
    assert forall|a: int, b: int| 0 <= a < es.len() && 0 <= b < es.len() && a != b implies (#[trigger] es[a]).0 != (#[trigger] es[b]).0 by {
        assert(es[a].0 == display_path(fcs[a]) && es[b].0 == display_path(fcs[b]));
    }
    assert forall|k: int| 0 <= k < fcs.len() implies #[trigger] fresh_entry(m, fcs[k]) == es[k] by {
        lemma_ledger_map_lookup(es, k);
    }
    assert(reconciled(m, fcs) =~= es);
}

pub proof fn lemma_decimal_shape(n: nat)
    ensures
        decimal(n).len() >= 1,
        n < 10 <==> decimal(n).len() == 1,
        n < 100 ==> decimal(n).len() <= 2,
        n < 1000 ==> decimal(n).len() <= 3,
        n < 10000 ==> decimal(n).len() <= 4,
        n > 0 ==> decimal(n)[0] != '0',
        decimal(n).last() as u32 == 48 + n % 10,
        forall|k: int| 0 <= k < decimal(n).len() ==> 48 <= #[verifier::truncate] ((#[trigger] decimal(n)[k]) as u32) <= 57,
    decreases n,
{
    if n >= 10 {
        lemma_decimal_shape(n / 10);
        let d = decimal(n / 10);
        assert(decimal(n) == d.push(crate::text::digit_char(n % 10)));
        assert forall|k: int| 0 <= k < decimal(n).len() implies 48 <= #[verifier::truncate] ((#[trigger] decimal(n)[k]) as u32) <= 57 by {
            if k < d.len() {
                assert(decimal(n)[k] == d[k]);
            }
        }
    }
}

proof fn lemma_decimal_injective(a: nat, b: nat)
    requires
        decimal(a) == decimal(b),
    ensures
        a == b,
    decreases a,
{
    lemma_decimal_shape(a);
    lemma_decimal_shape(b);
    assert(a % 10 == b % 10);
    if a >= 10 && b >= 10 {
        assert(decimal(a).drop_last() =~= decimal(a / 10));
        assert(decimal(b).drop_last() =~= decimal(b / 10));
        lemma_decimal_injective(a / 10, b / 10);
    }
}

proof fn lemma_pad4_injective(a: nat, b: nat)
    requires
        pad4(decimal(a)) == pad4(decimal(b)),
    ensures
        a == b,
{
    lemma_decimal_shape(a);
    lemma_decimal_shape(b);
    let da = decimal(a);
    let db = decimal(b);
    if da.len() >= 4 && db.len() >= 4 {
        lemma_decimal_injective(a, b);
    } else if da.len() < 4 && db.len() < 4 {
        if da.len() == db.len() {
            assert(pad4(da).subrange(4 - da.len(), 4) =~= da);
            assert(pad4(db).subrange(4 - db.len(), 4) =~= db);
            lemma_decimal_injective(a, b);
        } else if da.len() < db.len() {
            let j = 4 - db.len();
            assert(pad4(db)[j] == db[0]);
            assert(pad4(da)[j] == '0');
            assert(b > 0);
        } else {
            let j = 4 - da.len();
            assert(pad4(da)[j] == da[0]);
            assert(pad4(db)[j] == '0');
            assert(a > 0);
        }
    } else if da.len() < 4 {
        assert(pad4(da).len() == 4);
        assert(pad4(da)[0] == '0');
        assert(pad4(db) == db);
        assert(b > 0);
    } else {
        assert(pad4(db).len() == 4);
        assert(pad4(db)[0] == '0');
        assert(pad4(da) == da);
        assert(a > 0);
    }
}

/// Chunk suffixes never repeat: `aa` to `zz` for the first 676 chunks, then
/// zero-padded counters, each index with a suffix of its own.
pub proof fn lemma_chunk_suffix_distinct(i: nat, j: nat)
    requires
        i != j,
    ensures
        chunk_suffix(i) != chunk_suffix(j),
{
    if i < 676 && j < 676 {
        if chunk_suffix(i) == chunk_suffix(j) {
            assert(chunk_suffix(i)[0] == letter(i / 26));
            assert(chunk_suffix(j)[0] == letter(j / 26));
            assert(chunk_suffix(i)[1] == letter(i % 26));
            assert(chunk_suffix(j)[1] == letter(j % 26));
        }
    } else if i >= 676 && j >= 676 {
        if chunk_suffix(i) == chunk_suffix(j) {
            lemma_pad4_injective((i - 676) as nat, (j - 676) as nat);
        }
    } else {
        lemma_decimal_shape((i - 676) as nat);
        lemma_decimal_shape((j - 676) as nat);
    }
}


} // verus!
