//! Reading back a ledger document gives the entries it was written from, so a
//! second run on the same diff leaves every entry as the first run wrote it.
use super::save::{
    chunk_name, chunk_suffix, comment_lines, distinct_paths, lemma_decimal_shape,
    lemma_rerun_idempotent, lemma_ledger_map_lookup, lemma_removed_paths_dropped, ledger_map,
    chunk_body, content_hash, letter, preamble_lines, reconciled, rest_after,
    review_document, review_entries, review_sections, scan_complete, scan_entry, scan_line,
    scan_lines, scan_start, section_lines, ReviewEntryView, ReviewScan,
};
use super::processor::display_path;
use super::types::FileChangeView;
use crate::text::{
    decimal, is_white, lead_ws, lemma_lead_ws_bound, lemma_nl_joined_concat,
    lemma_trail_ws_bound, lines_acc, lines_of, nl_joined, split_acc, split_on, starts_with,
    strip_cr, trail_ws, trim,
};
use vstd::prelude::*;

verus! {

/// A line that `str::lines` gives back unchanged once it is ended by `\n`.
pub open spec fn plain_line(l: Seq<char>) -> bool {
    !l.contains('\n') && !(l.len() > 0 && l.last() == '\r')
}

proof fn lemma_lines_acc_prefix(s: Seq<char>, t: Seq<char>, i: nat)
    requires
        i <= s.len(),
        i <= t.len(),
        s.subrange(0, i as int) == t.subrange(0, i as int),
    ensures
        lines_acc(s, i) == lines_acc(t, i),
    decreases i,
{
    if i > 0 {
        assert(s.subrange(0, i - 1) =~= s.subrange(0, i as int).subrange(0, i - 1));
        assert(t.subrange(0, i - 1) =~= t.subrange(0, i as int).subrange(0, i - 1));
        assert(s[i - 1] == s.subrange(0, i as int)[i - 1]);
        assert(t[i - 1] == t.subrange(0, i as int)[i - 1]);
        lemma_lines_acc_prefix(s, t, (i - 1) as nat);
    }
}

proof fn lemma_lines_acc_line(base: Seq<char>, ls: Seq<Seq<char>>, l: Seq<char>, k: nat)
    requires
        lines_acc(base, base.len()) == (ls, Seq::<char>::empty()),
        !l.contains('\n'),
        k <= l.len(),
    ensures
        lines_acc(base + l + seq!['\n'], base.len() + k) == (ls, l.subrange(0, k as int)),
    decreases k,
{
    let s = base + l + seq!['\n'];
    if k == 0 {
        assert(s.subrange(0, base.len() as int) =~= base.subrange(0, base.len() as int));
        lemma_lines_acc_prefix(s, base, base.len());
        assert(l.subrange(0, 0) =~= Seq::<char>::empty());
    } else {
        lemma_lines_acc_line(base, ls, l, (k - 1) as nat);
        assert(s[base.len() + k - 1] == l[k - 1]);
        assert(l[k - 1] != '\n') by {
            if l[k - 1] == '\n' {
                assert(l.contains('\n'));
            }
        }
        assert(l.subrange(0, k as int) =~= l.subrange(0, k - 1).push(l[k - 1]));
    }
}

proof fn lemma_lines_acc_joined(ls: Seq<Seq<char>>)
    requires
        forall|k: int| 0 <= k < ls.len() ==> plain_line(#[trigger] ls[k]),
    ensures
        lines_acc(nl_joined(ls), nl_joined(ls).len()) == (ls, Seq::<char>::empty()),
    decreases ls.len(),
{
    if ls.len() == 0 {
        assert(lines_acc(nl_joined(ls), 0) == (Seq::<Seq<char>>::empty(), Seq::<char>::empty()));
        assert(ls =~= Seq::<Seq<char>>::empty());
    } else {
        let init = ls.drop_last();
        let l = ls.last();
        assert forall|k: int| 0 <= k < init.len() implies plain_line(#[trigger] init[k]) by {
            assert(init[k] == ls[k]);
        }
        lemma_lines_acc_joined(init);
        assert(plain_line(ls[ls.len() - 1]));
        let base = nl_joined(init);
        lemma_lines_acc_line(base, init, l, l.len());
        let s = base + l + seq!['\n'];
        assert(nl_joined(ls) == s);
        assert(l.subrange(0, l.len() as int) =~= l);
        assert(s[(base.len() + l.len()) as int] == '\n');
        assert(strip_cr(l) == l);
        assert(init.push(l) =~= ls);
    }
}

/// Lines that hold no line feed and do not end with `\r` come back from
/// `str::lines` exactly as they were joined.
pub proof fn lemma_lines_of_joined(ls: Seq<Seq<char>>)
    requires
        forall|k: int| 0 <= k < ls.len() ==> plain_line(#[trigger] ls[k]),
    ensures
        lines_of(nl_joined(ls)) == ls,
{
    lemma_lines_acc_joined(ls);
}

/// The scan continued over more lines.
pub open spec fn scan_seq(st: ReviewScan, ls: Seq<Seq<char>>) -> ReviewScan
    decreases ls.len(),
{
    if ls.len() == 0 {
        st
    } else {
        scan_line(scan_seq(st, ls.drop_last()), ls.last())
    }
}

proof fn lemma_scan_lines_seq(ls: Seq<Seq<char>>, i: nat)
    requires
        i <= ls.len(),
    ensures
        scan_lines(ls, i) == scan_seq(scan_start(), ls.subrange(0, i as int)),
    decreases i,
{
    if i > 0 {
        lemma_scan_lines_seq(ls, (i - 1) as nat);
        assert(ls.subrange(0, i as int).drop_last() =~= ls.subrange(0, i - 1));
    }
}

proof fn lemma_scan_seq_concat(st: ReviewScan, a: Seq<Seq<char>>, b: Seq<Seq<char>>)
    ensures
        scan_seq(st, a + b) == scan_seq(scan_seq(st, a), b),
    decreases b.len(),
{
    if b.len() == 0 {
        assert(a + b =~= a);
    } else {
        lemma_scan_seq_concat(st, a, b.drop_last());
        assert((a + b).drop_last() =~= a + b.drop_last());
        assert((a + b).last() == b.last());
    }
}

proof fn lemma_scan_seq_push(st: ReviewScan, a: Seq<Seq<char>>, l: Seq<char>)
    ensures
        scan_seq(st, a.push(l)) == scan_line(scan_seq(st, a), l),
{
    assert(a.push(l).drop_last() =~= a);
}

/// Starting with a character other than `#` rules out a heading.
proof fn lemma_not_hash(l: Seq<char>)
    requires
        l.len() < 3 || l[0] != '#' || l[1] != '#',
    ensures
        !starts_with(l, "## "@),
{
    reveal_strlit("## ");
    if l.len() >= 3 {
        assert(l.subrange(0, 3)[0] == l[0]);
        assert(l.subrange(0, 3)[1] == l[1]);
    }
}

/// The reader's state once the guidelines section has been read.
pub open spec fn after_preamble() -> ReviewScan {
    ReviewScan { guidelines_seen: true, ..scan_start() }
}

/// The reader's state after the first `k` lines of the guidelines section.
pub open spec fn preamble_state(k: int) -> ReviewScan {
    if k <= 4 {
        scan_start()
    } else if k <= 12 {
        ReviewScan { in_guidelines: true, guidelines_seen: true, ..scan_start() }
    } else {
        after_preamble()
    }
}

proof fn lemma_preamble_prefix(dir: Seq<char>, k: int)
    requires
        0 <= k <= 14,
    ensures
        scan_seq(scan_start(), preamble_lines(dir).subrange(0, k)) == preamble_state(k),
    decreases k,
{
    let ls = preamble_lines(dir);
    if k == 0 {
        assert(ls.subrange(0, 0) =~= Seq::<Seq<char>>::empty());
    } else {
        lemma_preamble_prefix(dir, k - 1);
        assert(ls.subrange(0, k).drop_last() =~= ls.subrange(0, k - 1));
        assert(ls.subrange(0, k).last() == ls[k - 1]);
        reveal_strlit("# Code Review Tracking");
        reveal_strlit("This file tracks the review status of code changes.");
        reveal_strlit("## Guidelines");
        reveal_strlit("- Diff chunks are stored in: ");
        reveal_strlit("- Update `meta:status` after reviewing each file");
        reveal_strlit("- Status values: `pending`, `reviewed@YYYY-MM-DD`, `outdated`");
        reveal_strlit("- If file hash changes on subsequent runs, status will be automatically set to `outdated`");
        reveal_strlit("- Add review comments in the placeholder section below each file");
        reveal_strlit("- On each run, file sections not present in current diff are removed");
        reveal_strlit("---");
        let l = ls[k - 1];
        if k - 1 == 0 {
            assert(l[1] == ' ');
            lemma_not_hash(l);
            assert(l != "## Guidelines"@);
        } else if k - 1 < 4 {
            lemma_not_hash(l);
            assert(l.len() != "## Guidelines"@.len());
        } else if k - 1 == 4 {
            assert(l == "## Guidelines"@);
        } else if k - 1 < 12 {
            assert(l.len() != 3);
            assert(l != "---"@);
        } else if k - 1 == 12 {
            assert(l == "---"@);
        } else {
            lemma_not_hash(l);
            assert(l.len() != "## Guidelines"@.len());
        }
    }
}

proof fn lemma_preamble_skipped(dir: Seq<char>)
    ensures
        scan_seq(scan_start(), preamble_lines(dir)) == after_preamble(),
        forall|k: int| 0 <= k < preamble_lines(dir).len() ==> plain_line(#[trigger] preamble_lines(dir)[k]) || k == 5,
{
    let ls = preamble_lines(dir);
    lemma_preamble_prefix(dir, 14);
    assert(ls.subrange(0, 14) =~= ls);
    reveal_strlit("# Code Review Tracking");
    reveal_strlit("This file tracks the review status of code changes.");
    reveal_strlit("## Guidelines");
    reveal_strlit("- Update `meta:status` after reviewing each file");
    reveal_strlit("- Status values: `pending`, `reviewed@YYYY-MM-DD`, `outdated`");
    reveal_strlit("- If file hash changes on subsequent runs, status will be automatically set to `outdated`");
    reveal_strlit("- Add review comments in the placeholder section below each file");
    reveal_strlit("- On each run, file sections not present in current diff are removed");
    reveal_strlit("---");
    assert forall|k: int| 0 <= k < ls.len() && k != 5 implies plain_line(#[trigger] ls[k]) by {
        if k == 0 || k == 2 || k == 4 || k == 6 || k == 7 || k == 8 || k == 9 || k == 10 || k == 12 {
            assert forall|j: int| 0 <= j < ls[k].len() implies ls[k][j] != '\n' by {}
        }
    }
}

proof fn lemma_prefix_concat(p: Seq<char>, x: Seq<char>)
    ensures
        starts_with(p + x, p),
        rest_after(p + x, p) == x,
{
    assert((p + x).subrange(0, p.len() as int) =~= p);
    assert((p + x).subrange(p.len() as int, (p + x).len() as int) =~= x);
}

proof fn lemma_differs_at(l: Seq<char>, p: Seq<char>, j: int)
    requires
        0 <= j < p.len(),
        j < l.len() ==> l[j] != p[j],
    ensures
        !starts_with(l, p),
        l != p,
{
    if p.len() <= l.len() {
        assert(l.subrange(0, p.len() as int)[j] == l[j]);
    }
}

proof fn lemma_prefix_of_prefix(l: Seq<char>, p: Seq<char>, q: Seq<char>)
    requires
        starts_with(l, p),
        q.len() <= p.len(),
        p.subrange(0, q.len() as int) == q,
    ensures
        starts_with(l, q),
{
    assert(l.subrange(0, q.len() as int) =~= p.subrange(0, q.len() as int));
}

proof fn lemma_trim_ends(s: Seq<char>)
    requires
        trim(s) == s,
        s.len() > 0,
    ensures
        !is_white(s[0]),
        !is_white(s.last()),
{
    lemma_lead_ws_bound(s);
    let t = s.subrange(lead_ws(s) as int, s.len() as int);
    lemma_trail_ws_bound(t);
    if is_white(s[0]) {
        assert(trim(s).len() < s.len());
    }
    assert(lead_ws(s) == 0) by {
        if lead_ws(s) > 0 {
            assert(trim(s).len() < s.len());
        }
    }
    assert(t =~= s);
    if is_white(s.last()) {
        assert(trail_ws(t) > 0);
        assert(trim(s).len() < s.len());
    }
}

/// A field written on a metadata line and read back as it is.
pub open spec fn clean_field(s: Seq<char>) -> bool {
    trim(s) == s && !s.contains('\n')
}

/// A comment line that reads back as a comment: not a heading, metadata,
/// separator or placeholder, and without line breaks of its own.
pub open spec fn comment_line_ok(l: Seq<char>) -> bool {
    plain_line(l) && !starts_with(l, "## "@) && !starts_with(l, "- meta:"@) && l != "---"@ && l
        != "<!-- Review comments go here -->"@
}

/// An entry that the ledger document can hold and give back unchanged.
pub open spec fn entry_round_trips(e: (Seq<char>, ReviewEntryView)) -> bool {
    &&& clean_field(e.0)
    &&& clean_field(e.1.hash)
    &&& clean_field(e.1.status)
    &&& trim(e.1.comments) == e.1.comments
    &&& forall|k: int|
        0 <= k < split_on(e.1.comments, '\n').len() ==> comment_line_ok(
            #[trigger] split_on(e.1.comments, '\n')[k],
        )
}

proof fn lemma_clean_plain(prefix: Seq<char>, s: Seq<char>)
    requires
        clean_field(s),
        prefix.len() > 0,
        !prefix.contains('\n'),
        prefix.last() != '\r',
    ensures
        plain_line(prefix + s),
{
    if s.len() > 0 {
        lemma_trim_ends(s);
        assert((prefix + s).last() == s.last());
    } else {
        assert(prefix + s =~= prefix);
    }
    if (prefix + s).contains('\n') {
        let j = choose|j: int| 0 <= j < (prefix + s).len() && (prefix + s)[j] == '\n';
        if j < prefix.len() {
            assert(prefix[j] == '\n');
        } else {
            assert(s[j - prefix.len()] == '\n');
        }
    }
}

/// Comments as the reader gathers them, one line at a time.
pub open spec fn add_comment(acc: Seq<char>, l: Seq<char>) -> Seq<char> {
    (if acc.len() > 0 {
        acc.push('\n')
    } else {
        acc
    }) + l
}

pub open spec fn fold_comments(acc: Seq<char>, ls: Seq<Seq<char>>) -> Seq<char>
    decreases ls.len(),
{
    if ls.len() == 0 {
        acc
    } else {
        add_comment(fold_comments(acc, ls.drop_last()), ls.last())
    }
}

proof fn lemma_fold_split_acc(c: Seq<char>, i: nat)
    requires
        1 <= i <= c.len(),
        c[0] != '\n',
    ensures
        split_acc(c, '\n', i).0.len() == 0 ==> split_acc(c, '\n', i).1 == c.subrange(0, i as int),
        split_acc(c, '\n', i).0.len() > 0 ==> fold_comments(Seq::empty(), split_acc(c, '\n', i).0).len() > 0
            && fold_comments(Seq::empty(), split_acc(c, '\n', i).0).push('\n') + split_acc(c, '\n', i).1
            == c.subrange(0, i as int),
    decreases i,
{
    if i == 1 {
        assert(split_acc(c, '\n', 0) == (Seq::<Seq<char>>::empty(), Seq::<char>::empty()));
        assert(Seq::<char>::empty().push(c[0]) =~= c.subrange(0, 1));
    } else {
        lemma_fold_split_acc(c, (i - 1) as nat);
        let (done, cur) = split_acc(c, '\n', (i - 1) as nat);
        assert(c.subrange(0, i as int) =~= c.subrange(0, i - 1).push(c[i - 1]));
        if c[i - 1] == '\n' {
            assert(done.push(cur).drop_last() =~= done);
            if done.len() == 0 {
                assert(fold_comments(Seq::empty(), done) == Seq::<char>::empty());
                assert(Seq::<char>::empty() + cur =~= cur);
                assert(fold_comments(Seq::empty(), done.push(cur)) =~= cur);
                assert(cur.len() > 0);
            } else {
                assert(fold_comments(Seq::empty(), done.push(cur)) =~= fold_comments(Seq::empty(), done).push('\n') + cur);
            }
            assert(fold_comments(Seq::empty(), done.push(cur)).push('\n') + Seq::<char>::empty() =~= c.subrange(0, i as int));
        } else {
            if done.len() > 0 {
                assert(fold_comments(Seq::empty(), done).push('\n') + cur.push(c[i - 1]) =~= c.subrange(0, i as int));
            }
        }
    }
}

/// Gathering the lines of a text that starts with a character other than a
/// line feed gives the text back.
proof fn lemma_fold_split(c: Seq<char>)
    requires
        c.len() > 0,
        c[0] != '\n',
    ensures
        fold_comments(Seq::empty(), split_on(c, '\n')) == c,
{
    lemma_fold_split_acc(c, c.len());
    let (done, cur) = split_acc(c, '\n', c.len());
    assert(done.push(cur).drop_last() =~= done);
    assert(c.subrange(0, c.len() as int) =~= c);
    if done.len() == 0 {
        assert(fold_comments(Seq::empty(), done) == Seq::<char>::empty());
        assert(Seq::<char>::empty() + cur =~= cur);
        assert(fold_comments(Seq::empty(), done.push(cur)) =~= cur);
    } else {
        assert(fold_comments(Seq::empty(), done.push(cur)) =~= fold_comments(Seq::empty(), done).push('\n') + cur);
    }
}

proof fn lemma_literals()
    ensures
        "- meta:hash: "@.len() == 13 && "- meta:hash: "@[0] == '-' && "- meta:hash: "@[7] == 'h',
        "- meta:status: "@.len() == 15 && "- meta:status: "@[0] == '-' && "- meta:status: "@[7] == 's',
        "- meta:diff_chunk: "@.len() == 19 && "- meta:diff_chunk: "@[0] == '-' && "- meta:diff_chunk: "@[1] == ' ' && "- meta:diff_chunk: "@[7] == 'd',
        "- meta:hash: "@.subrange(0, 7) == "- meta:"@,
        "- meta:status: "@.subrange(0, 7) == "- meta:"@,
        "- meta:"@.len() == 7 && "- meta:"@[0] == '-',
        "---"@.len() == 3 && "---"@[0] == '-' && "---"@[1] == '-',
        "## "@.len() == 3 && "## "@[0] == '#' && "## "@[2] == ' ',
        "<!-- Review comments go here -->"@.len() == 32 && "<!-- Review comments go here -->"@[0] == '<',
        "<!-- Review comments go here -->"@.last() == '>',
        !"<!-- Review comments go here -->"@.contains('\n'),
        !"- meta:hash: "@.contains('\n') && !"- meta:status: "@.contains('\n') && !"## "@.contains('\n'),
        !"- meta:diff_chunk: "@.contains('\n'),
        ".diff"@.len() == 5 && ".diff"@.last() == 'f' && !".diff"@.contains('\n'),
        !"chunk_"@.contains('\n'),
        !"---"@.contains('\n') && "---"@.last() == '-',
        "- Diff chunks are stored in: "@.len() > 0 && !"- Diff chunks are stored in: "@.contains('\n'),
        "/"@ == seq!['/'],
        "- meta:hash: "@.last() == ' ' && "- meta:hash: "@[1] == ' ',
        "- meta:status: "@.last() == ' ' && "- meta:status: "@[1] == ' ',
        "## "@.last() == ' ',
{
    reveal_strlit("- Diff chunks are stored in: ");
    reveal_strlit("/");
    reveal_strlit("## Guidelines");
    reveal_strlit("## ");
    reveal_strlit("- meta:hash: ");
    reveal_strlit("- meta:status: ");
    reveal_strlit("- meta:diff_chunk: ");
    reveal_strlit("- meta:");
    reveal_strlit("---");
    reveal_strlit("<!-- Review comments go here -->");
    reveal_strlit(".diff");
    reveal_strlit("chunk_");
    assert("- meta:hash: "@.subrange(0, 7) =~= "- meta:"@);
    assert("- meta:status: "@.subrange(0, 7) =~= "- meta:"@);
}

proof fn lemma_scan_comments(st: ReviewScan, cls: Seq<Seq<char>>)
    requires
        st.file is Some,
        st.in_comments,
        !st.in_guidelines,
        forall|k: int| 0 <= k < cls.len() ==> comment_line_ok(#[trigger] cls[k]),
    ensures
        scan_seq(st, cls) == (ReviewScan { comments: fold_comments(st.comments, cls), ..st }),
    decreases cls.len(),
{
    if cls.len() == 0 {
        assert((ReviewScan { comments: fold_comments(st.comments, cls), ..st }) == st);
    } else {
        let init = cls.drop_last();
        let l = cls.last();
        assert forall|k: int| 0 <= k < init.len() implies comment_line_ok(#[trigger] init[k]) by {
            assert(init[k] == cls[k]);
        }
        lemma_scan_comments(st, init);
        assert(comment_line_ok(cls[cls.len() - 1]));
        lemma_literals();
        if starts_with(l, "- meta:hash: "@) {
            lemma_prefix_of_prefix(l, "- meta:hash: "@, "- meta:"@);
        }
        if starts_with(l, "- meta:status: "@) {
            lemma_prefix_of_prefix(l, "- meta:status: "@, "- meta:"@);
        }
    }
}

proof fn lemma_chunk_name_plain(i: nat)
    ensures
        plain_line(chunk_name(i)),
        chunk_name(i).len() > 0,
{
    lemma_literals();
    let sfx = chunk_suffix(i);
    assert forall|j: int| 0 <= j < sfx.len() implies sfx[j] != '\n' by {
        if i < 676 {
            assert(sfx[j] == letter(i / 26) || sfx[j] == letter(i % 26));
        } else {
            let d = decimal((i - 676) as nat);
            lemma_decimal_shape((i - 676) as nat);
            if d.len() < 4 {
                let z = Seq::new((4 - d.len()) as nat, |_k: int| '0');
                assert(sfx == z + d);
                if j >= z.len() {
                    assert(sfx[j] == d[j - z.len()]);
                }
            }
        }
    }
    let n = chunk_name(i);
    assert(n.last() == 'f');
    if n.contains('\n') {
        let j = choose|j: int| 0 <= j < n.len() && n[j] == '\n';
        if j < "chunk_"@.len() {
            assert(n[j] == "chunk_"@[j]);
            assert("chunk_"@.contains('\n'));
        } else if j < "chunk_"@.len() + sfx.len() {
            assert(n[j] == sfx[j - "chunk_"@.len()]);
        } else {
            assert(n[j] == ".diff"@[j - "chunk_"@.len() - sfx.len()]);
            assert(".diff"@.contains('\n'));
        }
    }
}

proof fn lemma_section_plain(e: (Seq<char>, ReviewEntryView), name: Seq<char>)
    requires
        entry_round_trips(e),
        plain_line(name),
        name.len() > 0,
    ensures
        forall|k: int| 0 <= k < section_lines(e, name).len() ==> plain_line(#[trigger] section_lines(e, name)[k]),
{
    lemma_literals();
    let ls = section_lines(e, name);
    lemma_clean_plain("## "@, e.0);
    lemma_clean_plain("- meta:hash: "@, e.1.hash);
    lemma_clean_plain("- meta:status: "@, e.1.status);
    let l2 = "- meta:diff_chunk: "@ + name;
    assert(l2.last() == name.last());
    if l2.contains('\n') {
        let j = choose|j: int| 0 <= j < l2.len() && l2[j] == '\n';
        if j < 19 {
            assert(l2[j] == "- meta:diff_chunk: "@[j]);
        } else {
            assert(l2[j] == name[j - 19]);
            assert(name.contains('\n'));
        }
    }
    let cl = comment_lines(e.1.comments);
    let head = seq![
        "## "@ + e.0,
        "- meta:hash: "@ + e.1.hash,
        "- meta:diff_chunk: "@ + name,
        "- meta:status: "@ + e.1.status,
        Seq::<char>::empty(),
    ];
    let tail = seq!["---"@, Seq::<char>::empty()];
    assert(!Seq::<char>::empty().contains('\n'));
    assert forall|k: int| 0 <= k < ls.len() implies plain_line(#[trigger] ls[k]) by {
        if k < 5 {
            assert(ls[k] == head[k]);
        } else if k < 5 + cl.len() {
            assert(ls[k] == cl[k - 5]);
            if e.1.comments.len() > 0 {
                assert(comment_line_ok(split_on(e.1.comments, '\n')[k - 5]));
            }
        } else {
            assert(ls[k] == tail[k - 5 - cl.len()]);
        }
    }
}

/// State of the reader after the sections of `es`: every entry but the last
/// recorded, the last one still open.
pub open spec fn state_after(es: Seq<(Seq<char>, ReviewEntryView)>) -> ReviewScan {
    if es.len() == 0 {
        after_preamble()
    } else {
        ReviewScan {
            entries: es.drop_last(),
            file: Some(es.last().0),
            hash: Some(es.last().1.hash),
            status: Some(es.last().1.status),
            comments: es.last().1.comments,
            in_comments: false,
            in_guidelines: false,
            guidelines_seen: true,
        }
    }
}

pub open spec fn section_result(st: ReviewScan, e: (Seq<char>, ReviewEntryView)) -> ReviewScan {
    ReviewScan {
        entries: if scan_complete(st) {
            st.entries.push(scan_entry(st))
        } else {
            st.entries
        },
        file: Some(e.0),
        hash: Some(e.1.hash),
        status: Some(e.1.status),
        comments: e.1.comments,
        in_comments: false,
        in_guidelines: false,
        guidelines_seen: st.guidelines_seen,
    }
}

proof fn lemma_section_scan(st: ReviewScan, e: (Seq<char>, ReviewEntryView), name: Seq<char>)
    requires
        entry_round_trips(e),
        !st.in_comments,
        !st.in_guidelines,
        st.guidelines_seen,
        !scan_complete(st) ==> st.comments.len() == 0,
    ensures
        scan_seq(st, section_lines(e, name)) == section_result(st, e),
{
    lemma_literals();
    let (p, h, s, c) = (e.0, e.1.hash, e.1.status, e.1.comments);
    let l0 = "## "@ + p;
    let l1 = "- meta:hash: "@ + h;
    let l2 = "- meta:diff_chunk: "@ + name;
    let l3 = "- meta:status: "@ + s;
    let l4 = Seq::<char>::empty();
    let hp = "- meta:hash: "@;
    let sp = "- meta:status: "@;
    let empty = Seq::<char>::empty();
    // heading
    lemma_prefix_concat("## "@, p);
    let done = scan_complete(st);
    let s1 = ReviewScan {
        entries: if done { st.entries.push(scan_entry(st)) } else { st.entries },
        file: Some(p),
        hash: None,
        status: None,
        comments: empty,
        in_comments: false,
        in_guidelines: false,
        guidelines_seen: st.guidelines_seen,
    };
    if !done {
        assert(st.comments =~= empty);
    }
    assert(scan_line(st, l0) == s1);
    // hash line
    assert(l1[0] == '-');
    lemma_not_hash(l1);
    lemma_prefix_concat(hp, h);
    let s2 = ReviewScan { hash: Some(h), ..s1 };
    assert(scan_line(s1, l1) == s2);
    // chunk line
    assert(l2[0] == '-' && l2[1] == ' ' && l2[7] == 'd');
    lemma_not_hash(l2);
    lemma_differs_at(l2, hp, 7);
    lemma_differs_at(l2, sp, 7);
    lemma_differs_at(l2, "---"@, 1);
    assert(scan_line(s2, l2) == s2);
    // status line
    assert(l3[0] == '-' && l3[7] == 's');
    lemma_not_hash(l3);
    lemma_differs_at(l3, hp, 7);
    lemma_prefix_concat(sp, s);
    let s4 = ReviewScan { status: Some(s), in_comments: true, ..s2 };
    assert(scan_line(s2, l3) == s4);
    // blank line after the metadata
    lemma_not_hash(l4);
    lemma_differs_at(l4, hp, 0);
    lemma_differs_at(l4, sp, 0);
    lemma_differs_at(l4, "---"@, 0);
    lemma_differs_at(l4, "- meta:"@, 0);
    lemma_differs_at(l4, "<!-- Review comments go here -->"@, 0);
    assert(add_comment(empty, empty) =~= empty);
    assert(scan_line(s4, l4) == s4);
    let head = seq![l0, l1, l2, l3, l4];
    assert(head =~= Seq::<Seq<char>>::empty().push(l0).push(l1).push(l2).push(l3).push(l4));
    lemma_scan_seq_push(st, Seq::<Seq<char>>::empty(), l0);
    lemma_scan_seq_push(st, Seq::<Seq<char>>::empty().push(l0), l1);
    lemma_scan_seq_push(st, Seq::<Seq<char>>::empty().push(l0).push(l1), l2);
    lemma_scan_seq_push(st, Seq::<Seq<char>>::empty().push(l0).push(l1).push(l2), l3);
    lemma_scan_seq_push(st, Seq::<Seq<char>>::empty().push(l0).push(l1).push(l2).push(l3), l4);
    assert(scan_seq(st, head) == s4);
    // comment area
    let cl = comment_lines(c);
    let s7 = ReviewScan { comments: c, ..s4 };
    if c.len() == 0 {
        let pl = "<!-- Review comments go here -->"@;
        lemma_not_hash(pl);
        lemma_differs_at(pl, hp, 0);
        lemma_differs_at(pl, sp, 0);
        lemma_differs_at(pl, "---"@, 0);
        assert(scan_line(s4, pl) == s4);
        assert(cl =~= Seq::<Seq<char>>::empty().push(pl).push(empty));
        lemma_scan_seq_push(s4, Seq::<Seq<char>>::empty(), pl);
        lemma_scan_seq_push(s4, Seq::<Seq<char>>::empty().push(pl), empty);
        assert(c =~= empty);
        assert(s7 == s4);
        assert(scan_seq(s4, cl) == s7);
    } else {
        lemma_trim_ends(c);
        assert(c[0] != '\n');
        lemma_fold_split(c);
        lemma_scan_comments(s4, cl);
        assert(scan_seq(s4, cl) == s7);
    }
    // separator and blank line
    let dash = "---"@;
    lemma_not_hash(dash);
    lemma_differs_at(dash, hp, 1);
    lemma_differs_at(dash, sp, 1);
    let s8 = ReviewScan { in_comments: false, ..s7 };
    assert(scan_line(s7, dash) == s8);
    assert(scan_line(s8, empty) == s8);
    let tail = seq![dash, empty];
    assert(tail =~= Seq::<Seq<char>>::empty().push(dash).push(empty));
    lemma_scan_seq_push(s7, Seq::<Seq<char>>::empty(), dash);
    lemma_scan_seq_push(s7, Seq::<Seq<char>>::empty().push(dash), empty);
    assert(scan_seq(s7, tail) == s8);
    assert(section_lines(e, name) == head + cl + tail);
    lemma_scan_seq_concat(st, head + cl, tail);
    lemma_scan_seq_concat(st, head, cl);
    assert(s8 == section_result(st, e));
}

/// The lines of every section, in order.
pub open spec fn sections_lines(es: Seq<(Seq<char>, ReviewEntryView)>) -> Seq<Seq<char>>
    decreases es.len(),
{
    if es.len() == 0 {
        Seq::empty()
    } else {
        sections_lines(es.drop_last()) + section_lines(es.last(), chunk_name((es.len() - 1) as nat))
    }
}

proof fn lemma_sections(es: Seq<(Seq<char>, ReviewEntryView)>)
    requires
        forall|k: int| 0 <= k < es.len() ==> entry_round_trips(#[trigger] es[k]),
    ensures
        review_sections(es) == nl_joined(sections_lines(es)),
        forall|k: int| 0 <= k < sections_lines(es).len() ==> plain_line(#[trigger] sections_lines(es)[k]),
        scan_seq(after_preamble(), sections_lines(es)) == state_after(es),
    decreases es.len(),
{
    if es.len() == 0 {
        assert(nl_joined(Seq::<Seq<char>>::empty()) == Seq::<char>::empty());
    } else {
        let init = es.drop_last();
        let e = es.last();
        let name = chunk_name((es.len() - 1) as nat);
        assert forall|k: int| 0 <= k < init.len() implies entry_round_trips(#[trigger] init[k]) by {
            assert(init[k] == es[k]);
        }
        lemma_sections(init);
        assert(entry_round_trips(es[es.len() - 1]));
        lemma_nl_joined_concat(sections_lines(init), section_lines(e, name));
        lemma_chunk_name_plain((es.len() - 1) as nat);
        lemma_section_plain(e, name);
        let a = sections_lines(init);
        let b = section_lines(e, name);
        assert forall|k: int| 0 <= k < (a + b).len() implies plain_line(#[trigger] (a + b)[k]) by {
            if k < a.len() {
                assert((a + b)[k] == a[k]);
            } else {
                assert((a + b)[k] == b[k - a.len()]);
            }
        }
        lemma_scan_seq_concat(after_preamble(), a, b);
        let st = state_after(init);
        lemma_section_scan(st, e, name);
        if init.len() > 0 {
            assert(entry_round_trips(init[init.len() - 1]));
            assert(scan_entry(st) == init.last());
            assert(init.drop_last().push(init.last()) =~= init);
        } else {
            assert(init =~= Seq::<(Seq<char>, ReviewEntryView)>::empty());
        }
        assert(section_result(st, e) == state_after(es));
    }
}

/// The lines of a ledger document are the guidelines' lines, then each
/// section's lines.
proof fn lemma_document_lines(dir: Seq<char>, es: Seq<(Seq<char>, ReviewEntryView)>)
    requires
        !dir.contains('\n'),
        forall|k: int| 0 <= k < es.len() ==> entry_round_trips(#[trigger] es[k]),
    ensures
        lines_of(review_document(dir, es)) == preamble_lines(dir) + sections_lines(es),
{
    lemma_literals();
    lemma_sections(es);
    lemma_preamble_skipped(dir);
    let pre = preamble_lines(dir);
    let secs = sections_lines(es);
    let l5 = "- Diff chunks are stored in: "@ + dir + "/"@;
    assert(pre[5] == l5);
    assert(l5.last() == '/');
    if l5.contains('\n') {
        let j = choose|j: int| 0 <= j < l5.len() && l5[j] == '\n';
        let a = "- Diff chunks are stored in: "@;
        if j < a.len() {
            assert(l5[j] == a[j]);
        } else if j < a.len() + dir.len() {
            assert(l5[j] == dir[j - a.len()]);
        }
    }
    lemma_nl_joined_concat(pre, secs);
    let all = pre + secs;
    assert forall|k: int| 0 <= k < all.len() implies plain_line(#[trigger] all[k]) by {
        if k < pre.len() {
            assert(all[k] == pre[k]);
        } else {
            assert(all[k] == secs[k - pre.len()]);
        }
    }
    lemma_lines_of_joined(all);
    assert(review_document(dir, es) == nl_joined(all));
}

/// Reading back a ledger document gives exactly the entries it was written
/// from, for entries whose fields survive the line format: paths, hashes and
/// statuses on one line without surrounding whitespace, and comment lines
/// that do not look like headings, metadata, separators or the placeholder.
pub proof fn lemma_review_round_trip(dir: Seq<char>, es: Seq<(Seq<char>, ReviewEntryView)>)
    requires
        !dir.contains('\n'),
        forall|k: int| 0 <= k < es.len() ==> entry_round_trips(#[trigger] es[k]),
    ensures
        review_entries(review_document(dir, es)) == es,
{
    lemma_document_lines(dir, es);
    lemma_sections(es);
    lemma_preamble_skipped(dir);
    let pre = preamble_lines(dir);
    let secs = sections_lines(es);
    let all = pre + secs;
    lemma_scan_lines_seq(all, all.len());
    assert(all.subrange(0, all.len() as int) =~= all);
    lemma_scan_seq_concat(scan_start(), pre, secs);
    let st = state_after(es);
    if es.len() > 0 {
        assert(entry_round_trips(es[es.len() - 1]));
        assert(scan_entry(st) == es.last());
        assert(es.drop_last().push(es.last()) =~= es);
    }
}

/// Persisting the same diff twice: the second run reads back the ledger the
/// first one wrote and writes it again unchanged, every hash, status and
/// comment as before. This holds for a diff that names each path once, and
/// for entries that survive the line format (see `lemma_review_round_trip`).
pub proof fn lemma_persist_twice(dir: Seq<char>, prior: Map<Seq<char>, ReviewEntryView>, fcs: Seq<FileChangeView>)
    requires
        distinct_paths(fcs),
        !dir.contains('\n'),
        forall|k: int| 0 <= k < fcs.len() ==> entry_round_trips(#[trigger] reconciled(prior, fcs)[k]),
    ensures
        reconciled(ledger_map(review_entries(review_document(dir, reconciled(prior, fcs)))), fcs)
            == reconciled(prior, fcs),
        review_document(dir, reconciled(ledger_map(review_entries(review_document(dir, reconciled(prior, fcs)))), fcs))
            == review_document(dir, reconciled(prior, fcs)),
{
    let es = reconciled(prior, fcs);
    assert forall|k: int| 0 <= k < es.len() implies entry_round_trips(#[trigger] es[k]) by {
        assert(entry_round_trips(reconciled(prior, fcs)[k]));
    }
    lemma_review_round_trip(dir, es);
    lemma_rerun_idempotent(prior, fcs);
}

/// The ledger as the next run reads it back.
pub open spec fn read_back(dir: Seq<char>, prior: Map<Seq<char>, ReviewEntryView>, fcs: Seq<FileChangeView>) -> Map<Seq<char>, ReviewEntryView> {
    ledger_map(review_entries(review_document(dir, reconciled(prior, fcs))))
}

/// After a run, the ledger read back holds exactly the paths of the files just
/// parsed: a path that left the diff is gone, with no trace.
pub proof fn lemma_removed_after_read_back(
    dir: Seq<char>,
    prior: Map<Seq<char>, ReviewEntryView>,
    fcs: Seq<FileChangeView>,
    p: Seq<char>,
)
    requires
        !dir.contains('\n'),
        forall|k: int| 0 <= k < fcs.len() ==> entry_round_trips(#[trigger] reconciled(prior, fcs)[k]),
    ensures
        read_back(dir, prior, fcs).contains_key(p) <==> exists|k: int|
            0 <= k < fcs.len() && display_path(#[trigger] fcs[k]) == p,
{
    let es = reconciled(prior, fcs);
    assert forall|k: int| 0 <= k < es.len() implies entry_round_trips(#[trigger] es[k]) by {
        assert(entry_round_trips(reconciled(prior, fcs)[k]));
    }
    lemma_review_round_trip(dir, es);
    lemma_removed_paths_dropped(prior, fcs, p);
}

/// A file whose chunk changed since its entry was written reads back, after
/// the run, as `outdated` with its earlier comments intact.
pub proof fn lemma_outdated_after_read_back(
    dir: Seq<char>,
    prior: Map<Seq<char>, ReviewEntryView>,
    fcs: Seq<FileChangeView>,
    k: int,
)
    requires
        distinct_paths(fcs),
        !dir.contains('\n'),
        forall|j: int| 0 <= j < fcs.len() ==> entry_round_trips(#[trigger] reconciled(prior, fcs)[j]),
        0 <= k < fcs.len(),
        prior.contains_key(display_path(fcs[k])),
        prior[display_path(fcs[k])].hash != content_hash(chunk_body(fcs[k])),
    ensures
        read_back(dir, prior, fcs).contains_key(display_path(fcs[k])),
        read_back(dir, prior, fcs)[display_path(fcs[k])].status == "outdated"@,
        read_back(dir, prior, fcs)[display_path(fcs[k])].comments == prior[display_path(fcs[k])].comments,
{
    let es = reconciled(prior, fcs);
    assert forall|j: int| 0 <= j < es.len() implies entry_round_trips(#[trigger] es[j]) by {
        assert(entry_round_trips(reconciled(prior, fcs)[j]));
    }
    lemma_review_round_trip(dir, es);
    assert forall|a: int, b: int| 0 <= a < es.len() && 0 <= b < es.len() && a != b implies (#[trigger] es[a]).0 != (#[trigger] es[b]).0 by {
        assert(es[a].0 == display_path(fcs[a]) && es[b].0 == display_path(fcs[b]));
    }
    lemma_ledger_map_lookup(es, k);
}

proof fn lemma_section_headings(e: (Seq<char>, ReviewEntryView), name: Seq<char>)
    requires
        entry_round_trips(e),
    ensures
        forall|j: int|
            0 <= j < section_lines(e, name).len() && starts_with(#[trigger] section_lines(e, name)[j], "## "@)
                ==> section_lines(e, name)[j] == "## "@ + e.0,
{
    lemma_literals();
    let ls = section_lines(e, name);
    let cl = comment_lines(e.1.comments);
    let head = seq![
        "## "@ + e.0,
        "- meta:hash: "@ + e.1.hash,
        "- meta:diff_chunk: "@ + name,
        "- meta:status: "@ + e.1.status,
        Seq::<char>::empty(),
    ];
    let tail = seq!["---"@, Seq::<char>::empty()];
    assert forall|j: int| 0 <= j < ls.len() && starts_with(#[trigger] ls[j], "## "@) implies ls[j] == "## "@ + e.0 by {
        if j < 5 {
            assert(ls[j] == head[j]);
            if j == 1 || j == 2 || j == 3 {
                assert(ls[j][0] == '-');
                lemma_not_hash(ls[j]);
            } else if j == 4 {
                lemma_not_hash(ls[j]);
            }
        } else if j < 5 + cl.len() {
            assert(ls[j] == cl[j - 5]);
            if e.1.comments.len() > 0 {
                assert(comment_line_ok(split_on(e.1.comments, '\n')[j - 5]));
            } else {
                if j == 5 {
                    assert(ls[j][0] == '<');
                }
                lemma_not_hash(ls[j]);
            }
        } else {
            assert(ls[j] == tail[j - 5 - cl.len()]);
            if j - 5 - cl.len() == 0 {
                assert(ls[j][0] == '-');
            }
            lemma_not_hash(ls[j]);
        }
    }
}

proof fn lemma_sections_headings(es: Seq<(Seq<char>, ReviewEntryView)>)
    requires
        forall|k: int| 0 <= k < es.len() ==> entry_round_trips(#[trigger] es[k]),
    ensures
        forall|j: int|
            0 <= j < sections_lines(es).len() && starts_with(#[trigger] sections_lines(es)[j], "## "@)
                ==> exists|k: int| 0 <= k < es.len() && sections_lines(es)[j] == "## "@ + (#[trigger] es[k]).0,
    decreases es.len(),
{
    if es.len() > 0 {
        let init = es.drop_last();
        let e = es.last();
        let name = chunk_name((es.len() - 1) as nat);
        assert forall|k: int| 0 <= k < init.len() implies entry_round_trips(#[trigger] init[k]) by {
            assert(init[k] == es[k]);
        }
        lemma_sections_headings(init);
        assert(entry_round_trips(es[es.len() - 1]));
        lemma_section_headings(e, name);
        let a = sections_lines(init);
        let b = section_lines(e, name);
        assert forall|j: int| 0 <= j < (a + b).len() && starts_with(#[trigger] (a + b)[j], "## "@)
            implies exists|k: int| 0 <= k < es.len() && (a + b)[j] == "## "@ + (#[trigger] es[k]).0 by {
            if j < a.len() {
                assert((a + b)[j] == a[j]);
                let k = choose|k: int| 0 <= k < init.len() && a[j] == "## "@ + (#[trigger] init[k]).0;
                assert(init[k] == es[k]);
            } else {
                assert((a + b)[j] == b[j - a.len()]);
                assert(es[es.len() - 1] == e);
            }
        }
    }
}

/// The ledger written for a run has one heading per parsed file and no other
/// besides the guidelines' own: a path that left the diff leaves no heading,
/// no status and no other trace in the rewritten document.
pub proof fn lemma_no_tombstones(dir: Seq<char>, prior: Map<Seq<char>, ReviewEntryView>, fcs: Seq<FileChangeView>)
    requires
        !dir.contains('\n'),
        forall|k: int| 0 <= k < fcs.len() ==> entry_round_trips(#[trigger] reconciled(prior, fcs)[k]),
    ensures
        forall|j: int|
            0 <= j < lines_of(review_document(dir, reconciled(prior, fcs))).len() && starts_with(
                #[trigger] lines_of(review_document(dir, reconciled(prior, fcs)))[j],
                "## "@,
            ) ==> lines_of(review_document(dir, reconciled(prior, fcs)))[j] == "## Guidelines"@
                || exists|k: int|
                0 <= k < fcs.len() && lines_of(review_document(dir, reconciled(prior, fcs)))[j] == "## "@
                    + display_path(#[trigger] fcs[k]),
{
    let es = reconciled(prior, fcs);
    assert forall|k: int| 0 <= k < es.len() implies entry_round_trips(#[trigger] es[k]) by {
        assert(entry_round_trips(reconciled(prior, fcs)[k]));
    }
    lemma_document_lines(dir, es);
    lemma_sections_headings(es);
    let pre = preamble_lines(dir);
    let secs = sections_lines(es);
    let all = pre + secs;
    reveal_strlit("# Code Review Tracking");
    reveal_strlit("This file tracks the review status of code changes.");
    reveal_strlit("## Guidelines");
    reveal_strlit("- Diff chunks are stored in: ");
    reveal_strlit("- Update `meta:status` after reviewing each file");
    reveal_strlit("- Status values: `pending`, `reviewed@YYYY-MM-DD`, `outdated`");
    reveal_strlit("- If file hash changes on subsequent runs, status will be automatically set to `outdated`");
    reveal_strlit("- Add review comments in the placeholder section below each file");
    reveal_strlit("- On each run, file sections not present in current diff are removed");
    reveal_strlit("---");
    assert forall|j: int| 0 <= j < all.len() && starts_with(#[trigger] all[j], "## "@) implies all[j] == "## Guidelines"@
        || exists|k: int| 0 <= k < fcs.len() && all[j] == "## "@ + display_path(#[trigger] fcs[k]) by {
        if j < pre.len() {
            assert(all[j] == pre[j]);
            if j == 0 {
                assert(pre[j][1] == ' ');
                lemma_not_hash(pre[j]);
            } else if j != 4 {
                if j == 5 {
                    assert(pre[j][0] == '-');
                }
                lemma_not_hash(pre[j]);
            }
        } else {
            assert(all[j] == secs[j - pre.len()]);
            let k = choose|k: int| 0 <= k < es.len() && secs[j - pre.len()] == "## "@ + (#[trigger] es[k]).0;
            assert(es[k].0 == display_path(fcs[k]));
        }
    }
}

/// Status and comments entered by hand are carried forward: when a
/// run finds a file's chunk unchanged, its entry reads back afterwards with the
/// same hash, status and comments as in the ledger the run started from.
pub proof fn lemma_edits_carried_forward(
    dir: Seq<char>,
    prior: Map<Seq<char>, ReviewEntryView>,
    fcs: Seq<FileChangeView>,
    k: int,
)
    requires
        distinct_paths(fcs),
        !dir.contains('\n'),
        forall|j: int| 0 <= j < fcs.len() ==> entry_round_trips(#[trigger] reconciled(prior, fcs)[j]),
        0 <= k < fcs.len(),
        prior.contains_key(display_path(fcs[k])),
        prior[display_path(fcs[k])].hash == content_hash(chunk_body(fcs[k])),
    ensures
        read_back(dir, prior, fcs).contains_key(display_path(fcs[k])),
        read_back(dir, prior, fcs)[display_path(fcs[k])] == prior[display_path(fcs[k])],
{
    let es = reconciled(prior, fcs);
    assert forall|j: int| 0 <= j < es.len() implies entry_round_trips(#[trigger] es[j]) by {
        assert(entry_round_trips(reconciled(prior, fcs)[j]));
    }
    lemma_review_round_trip(dir, es);
    assert forall|a: int, b: int| 0 <= a < es.len() && 0 <= b < es.len() && a != b implies (#[trigger] es[a]).0 != (#[trigger] es[b]).0 by {
        assert(es[a].0 == display_path(fcs[a]) && es[b].0 == display_path(fcs[b]));
    }
    lemma_ledger_map_lookup(es, k);
}

} // verus!
