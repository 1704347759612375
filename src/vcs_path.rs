//! Filling `{name}` placeholders of the path-and-branch display format.
use crate::text::{chars_of, push_all, push_str_chars, split_on, string_of, trim, trimmed};
use crate::config::owned;
use crate::diff::types::opt_view;
use vstd::prelude::*;

verus! {

/// `s` with every occurrence of `pat` replaced by `rep`, scanning from the
/// left without overlaps, as `str::replace` does for a non-empty pattern.
pub open spec fn replace_all(s: Seq<char>, pat: Seq<char>, rep: Seq<char>) -> Seq<char>
    decreases s.len(),
{
    if pat.len() == 0 || s.len() < pat.len() {
        s
    } else if s.subrange(0, pat.len() as int) == pat {
        rep + replace_all(s.subrange(pat.len() as int, s.len() as int), pat, rep)
    } else {
        seq![s[0]] + replace_all(s.drop_first(), pat, rep)
    }
}

fn matches_at(s: &Vec<char>, i: usize, pat: &Vec<char>) -> (r: bool)
    requires
        i <= s@.len(),
    ensures
        r == (pat@.len() <= s@.len() - i && s@.subrange(i as int, i + pat@.len()) == pat@),
{
    if pat.len() > s.len() - i {
        return false;
    }
    let n = s.len();
    let mut k: usize = 0;
    while k < pat.len()
        invariant
            k <= pat@.len() <= s@.len() - i,
            i <= s@.len(),
            n == s@.len(),
            forall|j: int| 0 <= j < k ==> s@[i + j] == pat@[j],
        decreases pat.len() - k,
    {
        if s[i + k] != pat[k] {
            assert(s@.subrange(i as int, i + pat@.len())[k as int] == s@[i + k]);
            return false;
        }
        k += 1;
    }
    assert(s@.subrange(i as int, i + pat@.len()) =~= pat@);
    true
}

/// Replaces every occurrence of a non-empty `pat` in `s` by `rep`.
pub fn replace_text(s: &str, pat: &str, rep: &str) -> (r: String)
    ensures
        r@ == replace_all(s@, pat@, rep@),
{
    let cs = chars_of(s);
    let pc = chars_of(pat);
    let rc = chars_of(rep);
    if pc.len() == 0 {
        return string_of(cs.as_slice());
    }
    let mut out: Vec<char> = Vec::new();
    let mut i: usize = 0;
    assert(cs@.subrange(0, cs@.len() as int) =~= cs@);
    assert(out@ + replace_all(cs@, pc@, rc@) =~= replace_all(cs@, pc@, rc@));
    while i < cs.len()
        invariant
            i <= cs@.len(),
            pc@.len() > 0,
            pc@ == pat@,
            rc@ == rep@,
            replace_all(cs@, pc@, rc@) == out@ + replace_all(cs@.subrange(i as int, cs@.len() as int), pc@, rc@),
        decreases cs.len() - i,
    {
        let ghost rest = cs@.subrange(i as int, cs@.len() as int);
        if matches_at(&cs, i, &pc) {
            assert(rest.subrange(0, pc@.len() as int) =~= cs@.subrange(i as int, i + pc@.len()));
            assert(rest.subrange(pc@.len() as int, rest.len() as int) =~= cs@.subrange(i + pc@.len(), cs@.len() as int));
            push_all(&mut out, rc.as_slice());
            i = i + pc.len();
        } else {
            proof {
                if rest.len() >= pc@.len() {
                    assert(rest.subrange(0, pc@.len() as int) =~= cs@.subrange(i as int, i + pc@.len()));
                }
            }
            assert(rest.drop_first() =~= cs@.subrange(i + 1, cs@.len() as int));
            out.push(cs[i]);
            i += 1;
        }
        assert(out@ + replace_all(cs@.subrange(i as int, cs@.len() as int), pc@, rc@) =~= replace_all(cs@, pc@, rc@));
    }
    assert(replace_all(cs@.subrange(i as int, cs@.len() as int), pc@, rc@) =~= Seq::<char>::empty());
    assert(out@ =~= replace_all(cs@, pc@, rc@));
    string_of(out.as_slice())
}

/// `{key}` for a variable name.
pub open spec fn placeholder(key: Seq<char>) -> Seq<char> {
    "{"@ + key + "}"@
}

/// The template with the placeholders of the first `n` variables filled, in order.
pub open spec fn filled(template: Seq<char>, vars: Seq<(String, String)>, n: nat) -> Seq<char>
    decreases n,
{
    if n == 0 || n > vars.len() {
        template
    } else {
        replace_all(filled(template, vars, (n - 1) as nat), placeholder(vars[n - 1].0@), vars[n - 1].1@)
    }
}

/// Fills each `{key}` of the template with the variable's value, variable by variable.
pub fn format_string(template: &str, vars: &Vec<(String, String)>) -> (r: Option<String>)
    ensures
        r matches Some(s) && s@ == filled(template@, vars@, vars@.len()),
{
    let mut result = string_of(chars_of(template).as_slice());
    let mut k: usize = 0;
    while k < vars.len()
        invariant
            k <= vars@.len(),
            result@ == filled(template@, vars@, k as nat),
        decreases vars.len() - k,
    {
        let mut p: Vec<char> = Vec::new();
        push_str_chars(&mut p, "{");
        push_str_chars(&mut p, vars[k].0.as_str());
        push_str_chars(&mut p, "}");
        let pat = string_of(p.as_slice());
        assert(pat@ =~= placeholder(vars@[k as int].0@));
        result = replace_text(result.as_str(), pat.as_str(), vars[k].1.as_str());
        k += 1;
    }
    Some(result)
}

/// Options of the path-and-branch filter.
pub struct VcsPathInfoArgs {
    /// Output format with `{path}` and `{branch}` placeholders.
    pub format: Option<String>,
    /// Which space-separated segment of a line is the path.
    pub nth: Option<usize>,
    /// Drop lines whose path is not in a repository.
    pub filter: bool,
    /// Drop bare repositories.
    pub no_bare: bool,
}

/// The options with their defaults filled in.
pub struct CliOptions {
    pub format: Option<String>,
    pub nth: usize,
    pub filter: bool,
    pub no_bare: bool,
}

impl CliOptions {
    /// The segment index defaults to the first.
    pub fn from_args(args: VcsPathInfoArgs) -> (r: CliOptions)
        ensures
            r.format == args.format,
            r.nth == match args.nth {
                Some(n) => n,
                None => 0,
            },
            r.filter == args.filter,
            r.no_bare == args.no_bare,
    {
        CliOptions {
            format: args.format,
            nth: match args.nth {
                Some(n) => n,
                None => 0,
            },
            filter: args.filter,
            no_bare: args.no_bare,
        }
    }
}

/// One input line split into segments, the index of its path segment, and
/// the branch found for that path.
pub struct VcsInfo {
    pub path_index: usize,
    pub segments: Vec<String>,
    pub branch: Option<String>,
}

/// The space-separated segments of a line, once surrounding whitespace is removed.
pub open spec fn line_segments(line: Seq<char>) -> Seq<Seq<char>> {
    split_on(trim(line), ' ')
}

impl VcsInfo {
    pub fn new(segments: Vec<String>, path_index: usize) -> (r: VcsInfo)
        ensures
            r.path_index == path_index,
            r.segments == segments,
            r.branch is None,
    {
        VcsInfo { path_index, segments, branch: None }
    }

    /// Splits a line into segments as the filter reads it.
    pub fn from_line(line: &str, path_index: usize) -> (r: VcsInfo)
        ensures
            r.path_index == path_index,
            r.segments@.map_values(|s: String| s@) == line_segments(line@),
            r.branch is None,
    {
        let cs = chars_of(line);
        let t = trimmed(cs.as_slice(), 0);
        assert(cs@.subrange(0, cs@.len() as int) =~= cs@);
        let mut segments: Vec<String> = Vec::new();
        let mut cur: Vec<char> = Vec::new();
        let mut i: usize = 0;
        while i < t.len()
            invariant
                i <= t@.len(),
                t@ == trim(line@),
                (segments@.map_values(|s: String| s@), cur@) == crate::text::split_acc(t@, ' ', i as nat),
            decreases t.len() - i,
        {
            let ghost prev = segments@;
            if t[i] == ' ' {
                let piece = string_of(cur.as_slice());
                segments.push(piece);
                cur = Vec::new();
                assert(segments@.map_values(|s: String| s@) =~= prev.map_values(|s: String| s@).push(piece@));
            } else {
                cur.push(t[i]);
            }
            i += 1;
        }
        let ghost prev = segments@;
        let piece = string_of(cur.as_slice());
        segments.push(piece);
        assert(segments@.map_values(|s: String| s@) =~= prev.map_values(|s: String| s@).push(piece@));
        VcsInfo::new(segments, path_index)
    }

    /// The path segment, if the line has that many segments.
    pub fn path_str(&self) -> (r: Option<&String>)
        ensures
            match r {
                Some(p) => self.path_index < self.segments@.len() && *p == self.segments@[self.path_index as int],
                None => self.path_index >= self.segments@.len(),
            },
    {
        if self.path_index < self.segments.len() {
            Some(&self.segments[self.path_index])
        } else {
            None
        }
    }
}

/// The text of a path segment, empty when the line has no such segment.
pub open spec fn path_text(info: VcsInfo) -> Seq<char> {
    if info.path_index < info.segments@.len() {
        info.segments@[info.path_index as int]@
    } else {
        Seq::empty()
    }
}

/// What the filter prints for a line once its branch is known: nothing for a
/// path outside a repository when filtering, the bare path when there is no
/// branch, else the format (`{path} {branch}` by default) filled in.
pub open spec fn line_output(info: VcsInfo, filter: bool, format: Option<Seq<char>>) -> Option<Seq<char>> {
    match info.branch {
        None => if filter {
            None
        } else {
            Some(path_text(info))
        },
        Some(b) => {
            let fmt = match format {
                Some(f) => f,
                None => "{path} {branch}"@,
            };
            Some(replace_all(replace_all(fmt, placeholder("path"@), path_text(info)), placeholder("branch"@), b@))
        },
    }
}

/// The output line for an input line, given its branch lookup.
pub fn render_line(info: &VcsInfo, filter: bool, format: Option<&str>) -> (r: Option<String>)
    ensures
        match format {
            Some(f) => opt_view(r) == line_output(*info, filter, Some(f@)),
            None => opt_view(r) == line_output(*info, filter, None),
        },
{
    let path = match info.path_str() {
        Some(p) => p.clone(),
        None => String::new(),
    };
    assert(path@ == path_text(*info));
    match &info.branch {
        None => if filter {
            None
        } else {
            Some(path)
        },
        Some(b) => {
            let fmt = match format {
                Some(f) => owned(f),
                None => owned("{path} {branch}"),
            };
            let vars = vec![(owned("path"), path), (owned("branch"), b.clone())];
            let r = format_string(fmt.as_str(), &vars);
            proof {
                reveal_strlit("{");
                reveal_strlit("}");
                assert(vars@[0].0@ == "path"@ && vars@[0].1@ == path_text(*info));
                assert(vars@[1].0@ == "branch"@ && vars@[1].1@ == b@);
                assert(filled(fmt@, vars@, 0) == fmt@);
                assert(filled(fmt@, vars@, 1) == replace_all(fmt@, placeholder("path"@), path_text(*info)));
            }
            r
        },
    }
}

} // verus!
