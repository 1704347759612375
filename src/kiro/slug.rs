//! Branch-name slugs from free-text descriptions.
use crate::diff::types::opt_view;
use crate::text::{
    ascii_alnum, chars_of, cut_to_bytes, fit, is_ascii_alnum, push_str_chars, string_of,
    truncate_to_bytes,
};
use vstd::prelude::*;

verus! {

/// The toneless pinyin of a character, as the `pinyin` crate's tables give it.
pub uninterp spec fn pinyin_plain_of(c: char) -> Option<Seq<char>>;

/// Relies on `pinyin::ToPinyin::to_pinyin` for `char` and `Pinyin::plain`: a
/// table lookup on the character alone.
#[verifier::external_body]
fn plain_pinyin(c: char) -> (r: Option<String>)
    ensures
        opt_view(r) == pinyin_plain_of(c),
{
    pinyin::ToPinyin::to_pinyin(&c).map(|p| p.plain().to_string())
}

pub open spec fn ascii_lower(c: char) -> char {
    if 'A' <= c <= 'Z' {
        ((c as u32 + 32) as u8) as char
    } else {
        c
    }
}

fn to_ascii_lower(c: char) -> (r: char)
    ensures
        r == ascii_lower(c),
{
    if 'A' <= c && c <= 'Z' {
        ((c as u32 + 32) as u8) as char
    } else {
        c
    }
}

pub open spec fn is_ascii_space(c: char) -> bool {
    c == ' ' || c == '\t' || c == '\n' || c == '\r' || c == '\x0C'
}

/// `s` with one `-` appended, unless it is empty or already ends with one.
pub open spec fn with_dash(s: Seq<char>) -> Seq<char> {
    if s.len() > 0 && s.last() != '-' {
        s.push('-')
    } else {
        s
    }
}

/// The slug after its first `i` characters are read.
pub open spec fn slug_acc(s: Seq<char>, i: nat) -> Seq<char>
    decreases i,
{
    if i == 0 || i > s.len() {
        Seq::empty()
    } else {
        let r = slug_acc(s, (i - 1) as nat);
        let c = s[i - 1];
        if is_ascii_alnum(c) {
            r.push(ascii_lower(c))
        } else if is_ascii_space(c) || c == '-' || c == '_' {
            with_dash(r)
        } else if c as u32 >= 128 {
            match pinyin_plain_of(c) {
                Some(p) => with_dash(r) + p,
                None => r,
            }
        } else {
            r
        }
    }
}

pub open spec fn drop_one_dash(s: Seq<char>) -> Seq<char> {
    if s.len() > 0 && s.last() == '-' {
        s.drop_last()
    } else {
        s
    }
}

/// The slug: lowercase ASCII letters and digits, pinyin for Chinese, single
/// `-` between words, and at most 60 bytes (cut at a character boundary).
pub open spec fn slug(s: Seq<char>) -> Seq<char> {
    let a = drop_one_dash(slug_acc(s, s.len()));
    if fit(a, 60) < a.len() {
        drop_one_dash(cut_to_bytes(a, 60))
    } else {
        a
    }
}

fn push_dash(out: &mut Vec<char>)
    ensures
        final(out)@ == with_dash(old(out)@),
{
    if out.len() > 0 && out[out.len() - 1] != '-' {
        out.push('-');
    }
}

fn pop_one_dash(out: &mut Vec<char>)
    ensures
        final(out)@ == drop_one_dash(old(out)@),
{
    if out.len() > 0 && out[out.len() - 1] == '-' {
        let ghost before = out@;
        out.pop();
        assert(out@ =~= before.drop_last());
    }
}

/// A branch-name slug of `text`.
pub fn slugify(text: &str) -> (r: String)
    ensures
        r@ == slug(text@),
{
    let cs = chars_of(text);
    let mut out: Vec<char> = Vec::new();
    let mut i: usize = 0;
    while i < cs.len()
        invariant
            i <= cs@.len(),
            cs@ == text@,
            out@ == slug_acc(cs@, i as nat),
        decreases cs.len() - i,
    {
        let c = cs[i];
        if ascii_alnum(c) {
            out.push(to_ascii_lower(c));
        } else if c == ' ' || c == '\t' || c == '\n' || c == '\r' || c == '\x0C' || c == '-' || c
            == '_' {
            push_dash(&mut out);
        } else if c as u32 >= 128 {
            match plain_pinyin(c) {
                Some(p) => {
                    push_dash(&mut out);
                    push_str_chars(&mut out, p.as_str());
                },
                None => {},
            }
        }
        i += 1;
    }
    pop_one_dash(&mut out);
    let cut = truncate_to_bytes(&out, 60);
    proof {
        crate::text::lemma_fit_bound(out@, 60);
    }
    if cut.len() < out.len() {
        let mut t = cut;
        pop_one_dash(&mut t);
        string_of(t.as_slice())
    } else {
        string_of(out.as_slice())
    }
}

/// The default branch name for a description: its slug.
pub fn generate_branch_name(desc: &str) -> (r: String)
    ensures
        r@ == slug(desc@),
{
    slugify(desc)
}

} // verus!
