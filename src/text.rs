//! Character-level helpers shared by the diff engine and the naming helpers:
//! line splitting, prefixes, whitespace, trimming and number formatting.
use vstd::prelude::*;

verus! {

/// Relies on `str::chars` collected into a `Vec`: the characters of `s`, in order.
#[verifier::external_body]
pub(crate) fn chars_of(s: &str) -> (r: Vec<char>)
    ensures
        r@ == s@,
{
    s.chars().collect()
}

/// Relies on `String: FromIterator<&char>`: the string made of these characters, in order.
#[verifier::external_body]
pub(crate) fn string_of(v: &[char]) -> (r: String)
    ensures
        r@ == v@,
{
    v.iter().collect()
}

/// The view of each line of a sequence of character vectors.
pub open spec fn views_of(v: Seq<Vec<char>>) -> Seq<Seq<char>> {
    v.map_values(|x: Vec<char>| x@)
}

/// The view of each string of a sequence of strings.
pub open spec fn strs_view(v: Seq<String>) -> Seq<Seq<char>> {
    v.map_values(|x: String| x@)
}

pub open spec fn starts_with(s: Seq<char>, p: Seq<char>) -> bool {
    p.len() <= s.len() && s.subrange(0, p.len() as int) == p
}

/// Whether `s` begins with the characters of `p`.
pub fn has_prefix(s: &[char], p: &str) -> (r: bool)
    ensures
        r == starts_with(s@, p@),
{
    let pc = chars_of(p);
    if pc.len() > s.len() {
        return false;
    }
    let mut i: usize = 0;
    while i < pc.len()
        invariant
            i <= pc@.len() <= s@.len(),
            pc@ == p@,
            forall|k: int| 0 <= k < i ==> s@[k] == pc@[k],
        decreases pc.len() - i,
    {
        if s[i] != pc[i] {
            assert(s@.subrange(0, pc@.len() as int)[i as int] == s@[i as int]);
            return false;
        }
        i += 1;
    }
    assert(s@.subrange(0, pc@.len() as int) =~= pc@);
    true
}

/// Whether `s` is exactly the characters of `p`.
pub fn equals_str(s: &[char], p: &str) -> (r: bool)
    ensures
        r == (s@ == p@),
{
    let pc = chars_of(p);
    if pc.len() != s.len() {
        return false;
    }
    let mut i: usize = 0;
    while i < pc.len()
        invariant
            i <= pc@.len() == s@.len(),
            pc@ == p@,
            forall|k: int| 0 <= k < i ==> s@[k] == pc@[k],
        decreases pc.len() - i,
    {
        if s[i] != pc[i] {
            return false;
        }
        i += 1;
    }
    assert(s@ =~= pc@);
    true
}

/// The characters that Unicode gives the `White_Space` property.
pub open spec fn is_white(c: char) -> bool {
    let u = c as u32;
    (9 <= u <= 13) || u == 32 || u == 0x85 || u == 0xa0 || u == 0x1680 || (0x2000 <= u
        <= 0x200a) || u == 0x2028 || u == 0x2029 || u == 0x202f || u == 0x205f || u == 0x3000
}

pub fn is_white_char(c: char) -> (r: bool)
    ensures
        r == is_white(c),
{
    let u = c as u32;
    (9 <= u && u <= 13) || u == 32 || u == 0x85 || u == 0xa0 || u == 0x1680 || (0x2000 <= u && u
        <= 0x200a) || u == 0x2028 || u == 0x2029 || u == 0x202f || u == 0x205f || u == 0x3000
}

/// A line that is empty once surrounding whitespace is removed.
pub open spec fn is_blank(s: Seq<char>) -> bool {
    forall|k: int| 0 <= k < s.len() ==> is_white(#[trigger] s[k])
}

pub fn blank_line(s: &[char]) -> (r: bool)
    ensures
        r == is_blank(s@),
{
    let mut i: usize = 0;
    while i < s.len()
        invariant
            i <= s@.len(),
            forall|k: int| 0 <= k < i ==> is_white(#[trigger] s@[k]),
        decreases s.len() - i,
    {
        if !is_white_char(s[i]) {
            return false;
        }
        i += 1;
    }
    true
}

/// Number of leading whitespace characters.
pub open spec fn lead_ws(s: Seq<char>) -> nat
    decreases s.len(),
{
    if s.len() > 0 && is_white(s[0]) {
        1 + lead_ws(s.drop_first())
    } else {
        0
    }
}

/// Number of trailing whitespace characters.
pub open spec fn trail_ws(s: Seq<char>) -> nat
    decreases s.len(),
{
    if s.len() > 0 && is_white(s.last()) {
        1 + trail_ws(s.drop_last())
    } else {
        0
    }
}

pub proof fn lemma_lead_ws_bound(s: Seq<char>)
    ensures
        lead_ws(s) <= s.len(),
    decreases s.len(),
{
    if s.len() > 0 && is_white(s[0]) {
        lemma_lead_ws_bound(s.drop_first());
    }
}

pub proof fn lemma_trail_ws_bound(s: Seq<char>)
    ensures
        trail_ws(s) <= s.len(),
    decreases s.len(),
{
    if s.len() > 0 && is_white(s.last()) {
        lemma_trail_ws_bound(s.drop_last());
    }
}

/// `s` without its leading and trailing whitespace.
pub open spec fn trim(s: Seq<char>) -> Seq<char> {
    let t = s.subrange(lead_ws(s) as int, s.len() as int);
    t.subrange(0, t.len() - trail_ws(t))
}

/// The characters of `s[from..to]` without surrounding whitespace.
pub fn trimmed(s: &[char], from: usize) -> (r: Vec<char>)
    requires
        from <= s@.len(),
    ensures
        r@ == trim(s@.subrange(from as int, s@.len() as int)),
{
    let ghost t = s@.subrange(from as int, s@.len() as int);
    let mut a: usize = from;
    while a < s.len() && is_white_char(s[a])
        invariant
            from <= a <= s@.len(),
            t == s@.subrange(from as int, s@.len() as int),
            lead_ws(t) == (a - from) + lead_ws(s@.subrange(a as int, s@.len() as int)),
        decreases s.len() - a,
    {
        let ghost u = s@.subrange(a as int, s@.len() as int);
        assert(u.drop_first() =~= s@.subrange(a + 1, s@.len() as int));
        a += 1;
    }
    proof {
        lemma_lead_ws_bound(t);
        assert(s@.subrange(a as int, s@.len() as int) =~= t.subrange(lead_ws(t) as int, t.len() as int));
    }
    let ghost m = s@.subrange(a as int, s@.len() as int);
    let mut b: usize = s.len();
    while b > a && is_white_char(s[b - 1])
        invariant
            a <= b <= s@.len(),
            m == s@.subrange(a as int, s@.len() as int),
            trail_ws(m) == (s@.len() - b) + trail_ws(s@.subrange(a as int, b as int)),
        decreases b,
    {
        let ghost u = s@.subrange(a as int, b as int);
        assert(u.drop_last() =~= s@.subrange(a as int, b - 1));
        b -= 1;
    }
    let mut r: Vec<char> = Vec::new();
    let mut k: usize = a;
    while k < b
        invariant
            a <= k <= b <= s@.len(),
            r@ =~= s@.subrange(a as int, k as int),
        decreases b - k,
    {
        r.push(s[k]);
        k += 1;
    }
    assert(r@ =~= m.subrange(0, m.len() - trail_ws(m)));
    r
}

/// One step of `str::lines`: the finished lines and the line in progress
/// after reading the first `i` characters.
pub open spec fn lines_acc(s: Seq<char>, i: nat) -> (Seq<Seq<char>>, Seq<char>)
    decreases i,
{
    if i == 0 || i > s.len() {
        (Seq::empty(), Seq::empty())
    } else {
        let (done, cur) = lines_acc(s, (i - 1) as nat);
        if s[i - 1] == '\n' {
            (done.push(strip_cr(cur)), Seq::empty())
        } else {
            (done, cur.push(s[i - 1]))
        }
    }
}

/// A line ended by `\r\n` loses its `\r`.
pub open spec fn strip_cr(c: Seq<char>) -> Seq<char> {
    if c.len() > 0 && c.last() == '\r' {
        c.drop_last()
    } else {
        c
    }
}

/// The lines of a text: split at `\n` (or `\r\n`); a final line ending is optional.
pub open spec fn lines_of(s: Seq<char>) -> Seq<Seq<char>> {
    let (done, cur) = lines_acc(s, s.len());
    if cur.len() > 0 {
        done.push(cur)
    } else {
        done
    }
}

pub proof fn lemma_lines_acc_no_newline(s: Seq<char>, i: nat)
    ensures
        forall|k: int| 0 <= k < lines_acc(s, i).0.len() ==> !(#[trigger] lines_acc(s, i).0[k]).contains('\n'),
        !lines_acc(s, i).1.contains('\n'),
    decreases i,
{
    if i == 0 || i > s.len() {
    } else {
        lemma_lines_acc_no_newline(s, (i - 1) as nat);
        let (done, cur) = lines_acc(s, (i - 1) as nat);
        if s[i - 1] == '\n' {
            assert forall|k: int| 0 <= k < done.push(strip_cr(cur)).len() implies !(#[trigger] done.push(strip_cr(cur))[k]).contains('\n') by {
                if k < done.len() {
                    assert(done.push(strip_cr(cur))[k] == done[k]);
                } else {
                    if cur.len() > 0 && cur.last() == '\r' {
                        assert forall|j: int| 0 <= j < cur.drop_last().len() implies #[trigger] cur.drop_last()[j] != '\n' by {
                            assert(cur.drop_last()[j] == cur[j]);
                        }
                    }
                }
            }
            assert(!Seq::<char>::empty().contains('\n'));
        } else {
            assert forall|j: int| 0 <= j < cur.push(s[i - 1]).len() implies #[trigger] cur.push(s[i - 1])[j] != '\n' by {
                if j < cur.len() {
                    assert(cur.push(s[i - 1])[j] == cur[j]);
                }
            }
        }
    }
}

/// No line of a text holds a line feed.
pub proof fn lemma_lines_no_newline(s: Seq<char>)
    ensures
        forall|k: int| 0 <= k < lines_of(s).len() ==> !(#[trigger] lines_of(s)[k]).contains('\n'),
{
    lemma_lines_acc_no_newline(s, s.len());
    let (done, cur) = lines_acc(s, s.len());
    if cur.len() > 0 {
        assert forall|k: int| 0 <= k < done.push(cur).len() implies !(#[trigger] done.push(cur)[k]).contains('\n') by {
            if k < done.len() {
                assert(done.push(cur)[k] == done[k]);
            }
        }
    }
}

/// Splits a text into lines as `str::lines` does.
pub fn split_lines(text: &str) -> (r: Vec<Vec<char>>)
    ensures
        views_of(r@) == lines_of(text@),
{
    let cs = chars_of(text);
    let mut out: Vec<Vec<char>> = Vec::new();
    let mut cur: Vec<char> = Vec::new();
    let mut i: usize = 0;
    while i < cs.len()
        invariant
            i <= cs@.len(),
            cs@ == text@,
            (views_of(out@), cur@) == lines_acc(cs@, i as nat),
        decreases cs.len() - i,
    {
        let ghost prev_out = out@;
        let ghost prev_cur = cur@;
        if cs[i] == '\n' {
            if cur.len() > 0 && cur[cur.len() - 1] == '\r' {
                cur.pop();
            }
            assert(cur@ =~= strip_cr(prev_cur));
            out.push(cur);
            cur = Vec::new();
            assert(views_of(out@) =~= views_of(prev_out).push(strip_cr(prev_cur)));
        } else {
            cur.push(cs[i]);
        }
        i += 1;
    }
    if cur.len() > 0 {
        let ghost prev_out = out@;
        out.push(cur);
        assert(views_of(out@) =~= views_of(prev_out).push(cur@));
    }
    out
}

/// The decimal digit or lowercase hexadecimal digit for `d`.
pub open spec fn digit_char(d: nat) -> char {
    if d < 10 {
        ((48 + d) as u8) as char
    } else {
        ((87 + d) as u8) as char
    }
}

fn digit(d: u64) -> (r: char)
    requires
        d < 16,
    ensures
        r == digit_char(d as nat),
{
    if d < 10 {
        (48u8 + d as u8) as char
    } else {
        (87u8 + d as u8) as char
    }
}

/// `n` written in decimal, without leading zeros.
pub open spec fn decimal(n: nat) -> Seq<char>
    decreases n,
{
    if n < 10 {
        seq![digit_char(n)]
    } else {
        decimal(n / 10).push(digit_char(n % 10))
    }
}

/// `n` written in lowercase hexadecimal, without leading zeros.
pub open spec fn hex(n: nat) -> Seq<char>
    decreases n,
{
    if n < 16 {
        seq![digit_char(n)]
    } else {
        hex(n / 16).push(digit_char(n % 16))
    }
}

/// Appends the decimal digits of `n` to `out`.
pub fn push_decimal(n: u64, out: &mut Vec<char>)
    ensures
        final(out)@ == old(out)@ + decimal(n as nat),
    decreases n,
{
    if n >= 10 {
        push_decimal(n / 10, out);
    }
    out.push(digit(n % 10));
    assert(decimal(n as nat) =~= if n < 10 {
        seq![digit_char(n as nat)]
    } else {
        decimal((n / 10) as nat).push(digit_char((n % 10) as nat))
    });
}

/// Appends the lowercase hexadecimal digits of `n` to `out`.
pub fn push_hex(n: u64, out: &mut Vec<char>)
    ensures
        final(out)@ == old(out)@ + hex(n as nat),
    decreases n,
{
    if n >= 16 {
        push_hex(n / 16, out);
    }
    out.push(digit(n % 16));
}

/// Appends the characters of `s` to `out`.
pub fn push_str_chars(out: &mut Vec<char>, s: &str)
    ensures
        final(out)@ == old(out)@ + s@,
{
    let cs = chars_of(s);
    push_all(out, &cs);
}

/// Appends the characters of `v` to `out`.
pub fn push_all(out: &mut Vec<char>, v: &[char])
    ensures
        final(out)@ == old(out)@ + v@,
{
    let ghost start = out@;
    let mut i: usize = 0;
    while i < v.len()
        invariant
            i <= v@.len(),
            out@ =~= start + v@.subrange(0, i as int),
        decreases v.len() - i,
    {
        out.push(v[i]);
        i += 1;
    }
    assert(v@.subrange(0, v@.len() as int) =~= v@);
}

/// Bytes that a character takes in UTF-8.
pub open spec fn char_utf8_len(c: char) -> nat {
    let u = c as u32;
    if u < 0x80 {
        1
    } else if u < 0x800 {
        2
    } else if u < 0x10000 {
        3
    } else {
        4
    }
}

fn utf8_width(c: char) -> (r: usize)
    ensures
        r == char_utf8_len(c),
{
    let u = c as u32;
    if u < 0x80 {
        1
    } else if u < 0x800 {
        2
    } else if u < 0x10000 {
        3
    } else {
        4
    }
}

/// How many leading characters of `s` fit in `budget` bytes of UTF-8.
pub open spec fn fit(s: Seq<char>, budget: nat) -> nat
    decreases s.len(),
{
    if s.len() == 0 || char_utf8_len(s[0]) > budget {
        0
    } else {
        1 + fit(s.drop_first(), (budget - char_utf8_len(s[0])) as nat)
    }
}

pub proof fn lemma_fit_bound(s: Seq<char>, budget: nat)
    ensures
        fit(s, budget) <= s.len(),
    decreases s.len(),
{
    if s.len() > 0 && char_utf8_len(s[0]) <= budget {
        lemma_fit_bound(s.drop_first(), (budget - char_utf8_len(s[0])) as nat);
    }
}

/// The longest prefix of `s` that fits in `budget` bytes of UTF-8.
pub open spec fn cut_to_bytes(s: Seq<char>, budget: nat) -> Seq<char> {
    s.subrange(0, fit(s, budget) as int)
}

pub fn truncate_to_bytes(v: &Vec<char>, budget: usize) -> (r: Vec<char>)
    ensures
        r@ == cut_to_bytes(v@, budget as nat),
{
    let mut k: usize = 0;
    let mut left: usize = budget;
    let mut r: Vec<char> = Vec::new();
    proof {
        lemma_fit_bound(v@, budget as nat);
        assert(v@.subrange(0, v@.len() as int) =~= v@);
    }
    while k < v.len() && utf8_width(v[k]) <= left
        invariant
            k <= v@.len(),
            left <= budget,
            fit(v@, budget as nat) == k + fit(v@.subrange(k as int, v@.len() as int), left as nat),
            r@ =~= v@.subrange(0, k as int),
        decreases v.len() - k,
    {
        let ghost u = v@.subrange(k as int, v@.len() as int);
        assert(u.drop_first() =~= v@.subrange(k + 1, v@.len() as int));
        left = left - utf8_width(v[k]);
        r.push(v[k]);
        k += 1;
    }
    r
}

/// `s` without its trailing `-` characters.
pub open spec fn strip_dashes(s: Seq<char>) -> Seq<char>
    decreases s.len(),
{
    if s.len() > 0 && s.last() == '-' {
        strip_dashes(s.drop_last())
    } else {
        s
    }
}

pub fn pop_dashes(v: &mut Vec<char>)
    ensures
        final(v)@ == strip_dashes(old(v)@),
{
    while v.len() > 0 && v[v.len() - 1] == '-'
        invariant
            strip_dashes(old(v)@) == strip_dashes(v@),
        decreases v.len(),
    {
        let ghost before = v@;
        v.pop();
        assert(v@ =~= before.drop_last());
    }
}

pub open spec fn is_ascii_alnum(c: char) -> bool {
    ('0' <= c <= '9') || ('a' <= c <= 'z') || ('A' <= c <= 'Z')
}

pub fn ascii_alnum(c: char) -> (r: bool)
    ensures
        r == is_ascii_alnum(c),
{
    ('0' <= c && c <= '9') || ('a' <= c && c <= 'z') || ('A' <= c && c <= 'Z')
}

/// The characters of `v` from index `from` on.
pub fn suffix_from(v: &[char], from: usize) -> (r: Vec<char>)
    requires
        from <= v@.len(),
    ensures
        r@ == v@.subrange(from as int, v@.len() as int),
{
    let mut r: Vec<char> = Vec::new();
    let mut k: usize = from;
    while k < v.len()
        invariant
            from <= k <= v@.len(),
            r@ =~= v@.subrange(from as int, k as int),
        decreases v.len() - k,
    {
        r.push(v[k]);
        k += 1;
    }
    r
}

/// Pieces of `s` between occurrences of `sep`, after the first `i` characters:
/// the finished pieces and the piece in progress.
pub open spec fn split_acc(s: Seq<char>, sep: char, i: nat) -> (Seq<Seq<char>>, Seq<char>)
    decreases i,
{
    if i == 0 || i > s.len() {
        (Seq::empty(), Seq::empty())
    } else {
        let (done, cur) = split_acc(s, sep, (i - 1) as nat);
        if s[i - 1] == sep {
            (done.push(cur), Seq::empty())
        } else {
            (done, cur.push(s[i - 1]))
        }
    }
}

/// The pieces of `s` between occurrences of `sep`, as `str::split` gives them.
pub open spec fn split_on(s: Seq<char>, sep: char) -> Seq<Seq<char>> {
    let (done, cur) = split_acc(s, sep, s.len());
    done.push(cur)
}

/// Lines, each followed by a line feed.
pub open spec fn nl_joined(ls: Seq<Seq<char>>) -> Seq<char>
    decreases ls.len(),
{
    if ls.len() == 0 {
        Seq::empty()
    } else {
        nl_joined(ls.drop_last()) + ls.last() + seq!['\n']
    }
}

pub proof fn lemma_nl_joined_push(ls: Seq<Seq<char>>, l: Seq<char>)
    ensures
        nl_joined(ls.push(l)) == nl_joined(ls) + l + seq!['\n'],
{
    assert(ls.push(l).drop_last() =~= ls);
}

pub proof fn lemma_nl_joined_concat(a: Seq<Seq<char>>, b: Seq<Seq<char>>)
    ensures
        nl_joined(a + b) == nl_joined(a) + nl_joined(b),
    decreases b.len(),
{
    if b.len() == 0 {
        assert(a + b =~= a);
        assert(nl_joined(a) + nl_joined(b) =~= nl_joined(a));
    } else {
        lemma_nl_joined_concat(a, b.drop_last());
        assert((a + b).drop_last() =~= a + b.drop_last());
        assert((a + b).last() == b.last());
        assert(nl_joined(a + b) =~= nl_joined(a) + nl_joined(b));
    }
}

proof fn lemma_split_joined_acc(s: Seq<char>, i: nat)
    requires
        i <= s.len(),
    ensures
        nl_joined(split_acc(s, '\n', i).0) + split_acc(s, '\n', i).1 == s.subrange(0, i as int),
    decreases i,
{
    if i == 0 {
        assert(s.subrange(0, 0) =~= Seq::<char>::empty());
        assert(nl_joined(Seq::<Seq<char>>::empty()) + Seq::<char>::empty() =~= Seq::<char>::empty());
    } else {
        lemma_split_joined_acc(s, (i - 1) as nat);
        let (done, cur) = split_acc(s, '\n', (i - 1) as nat);
        assert(s.subrange(0, i as int) =~= s.subrange(0, i - 1).push(s[i - 1]));
        if s[i - 1] == '\n' {
            lemma_nl_joined_push(done, cur);
            assert(nl_joined(done.push(cur)) + Seq::<char>::empty() =~= s.subrange(0, i as int));
        } else {
            assert(nl_joined(done) + cur.push(s[i - 1]) =~= s.subrange(0, i as int));
        }
    }
}

/// A text followed by a line feed is its `\n`-separated pieces, each ended by a line feed.
pub proof fn lemma_split_joined(s: Seq<char>)
    ensures
        nl_joined(split_on(s, '\n')) == s + seq!['\n'],
{
    lemma_split_joined_acc(s, s.len());
    let (done, cur) = split_acc(s, '\n', s.len());
    lemma_nl_joined_push(done, cur);
    assert(s.subrange(0, s.len() as int) =~= s);
}

} // verus!
