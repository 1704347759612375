//! Cleaning branch names that a naming plugin hands back.
use crate::text::{
    ascii_alnum, chars_of, cut_to_bytes, fit, is_ascii_alnum, is_white, is_white_char,
    pop_dashes, string_of, strip_dashes, truncate_to_bytes,
};
use crate::config::{join_path, path_join, KiroConfig};
use crate::kiro::slug::{slug, slugify};
use crate::text::{starts_with, trim, trimmed};
use crate::diff::types::opt_view;
use vstd::prelude::*;

verus! {

/// What `char::is_alphabetic` says of `c` (the Unicode `Alphabetic` property).
pub uninterp spec fn alphabetic_of(c: char) -> bool;

/// Relies on `char::is_alphabetic`: a property of the character alone.
#[verifier::external_body]
fn is_alphabetic(c: char) -> (r: bool)
    ensures
        r == alphabetic_of(c),
{
    c.is_alphabetic()
}

/// Characters that a branch name keeps as they are.
pub open spec fn branch_char(c: char) -> bool {
    is_ascii_alnum(c) || c == '-' || c == '_' || c == '.' || (c as u32 >= 128 && alphabetic_of(c))
}

/// The name after its first `i` characters are read: kept characters pass,
/// whitespace becomes one `-` (never at the start), the rest is dropped.
pub open spec fn sanitize_acc(s: Seq<char>, i: nat) -> Seq<char>
    decreases i,
{
    if i == 0 || i > s.len() {
        Seq::empty()
    } else {
        let r = sanitize_acc(s, (i - 1) as nat);
        let c = s[i - 1];
        if branch_char(c) {
            r.push(c)
        } else if is_white(c) && r.len() > 0 && r.last() != '-' {
            r.push('-')
        } else {
            r
        }
    }
}

/// The cleaned branch name: no trailing `-`, and at most 80 bytes (cut at the
/// last character boundary within them).
pub open spec fn sanitized(s: Seq<char>) -> Seq<char> {
    let a = strip_dashes(sanitize_acc(s, s.len()));
    if fit(a, 80) < a.len() {
        strip_dashes(cut_to_bytes(a, 80))
    } else {
        a
    }
}

/// Keeps letters, digits, `-`, `_`, `.` and non-ASCII letters, turns
/// whitespace into `-`, drops trailing `-` and limits the name to 80 bytes.
pub fn sanitize_branch_name(name: &str) -> (r: String)
    ensures
        r@ == sanitized(name@),
{
    let cs = chars_of(name);
    let mut out: Vec<char> = Vec::new();
    let mut i: usize = 0;
    while i < cs.len()
        invariant
            i <= cs@.len(),
            cs@ == name@,
            out@ == sanitize_acc(cs@, i as nat),
        decreases cs.len() - i,
    {
        let c = cs[i];
        let keep = ascii_alnum(c) || c == '-' || c == '_' || c == '.' || (c as u32 >= 128
            && is_alphabetic(c));
        if keep {
            out.push(c);
        } else if is_white_char(c) && out.len() > 0 && out[out.len() - 1] != '-' {
            out.push('-');
        }
        i += 1;
    }
    pop_dashes(&mut out);
    let cut = truncate_to_bytes(&out, 80);
    proof {
        crate::text::lemma_fit_bound(out@, 80);
    }
    if cut.len() < out.len() {
        let mut t = cut;
        pop_dashes(&mut t);
        string_of(t.as_slice())
    } else {
        string_of(out.as_slice())
    }
}

/// Runs the branch-name plugin of a workflow configuration, or falls back to
/// the slug of the description.
pub struct PluginExecutor {
    config: KiroConfig,
}

/// Where a plugin command lives: an absolute command as given, a relative one
/// inside the plugins directory.
pub open spec fn plugin_location(plugins_dir: Seq<char>, command: Seq<char>) -> Seq<char> {
    if starts_with(command, "/"@) {
        command
    } else {
        path_join(plugins_dir, command)
    }
}

/// The branch name from what the plugin printed: the cleaned output, or the
/// slug of the description when there is no usable output.
pub open spec fn branch_name_from_output(desc: Seq<char>, output: Option<Seq<char>>) -> Seq<char> {
    match output {
        Some(o) => if sanitized(trim(o)).len() > 0 {
            sanitized(trim(o))
        } else {
            slug(desc)
        },
        None => slug(desc),
    }
}

/// Environment variables whose names start with `prefix`, in order.
pub open spec fn with_prefix(env: Seq<(Seq<char>, Seq<char>)>, prefix: Seq<char>) -> Seq<(Seq<char>, Seq<char>)>
    decreases env.len(),
{
    if env.len() == 0 {
        Seq::empty()
    } else {
        let rest = with_prefix(env.drop_last(), prefix);
        if starts_with(env.last().0, prefix) {
            rest.push(env.last())
        } else {
            rest
        }
    }
}

/// The value of the last variable named `name`, if any.
pub open spec fn env_lookup(env: Seq<(Seq<char>, Seq<char>)>, name: Seq<char>) -> Option<Seq<char>>
    decreases env.len(),
{
    if env.len() == 0 {
        None
    } else if env.last().0 == name {
        Some(env.last().1)
    } else {
        env_lookup(env.drop_last(), name)
    }
}

/// What one `pass_env` pattern lets through: every variable with the prefix
/// for a pattern ending in `*`, else the variable of that exact name.
pub open spec fn passed_by(pattern: Seq<char>, env: Seq<(Seq<char>, Seq<char>)>) -> Seq<(Seq<char>, Seq<char>)> {
    if pattern.len() > 0 && pattern.last() == '*' {
        with_prefix(env, pattern.drop_last())
    } else {
        match env_lookup(env, pattern) {
            Some(v) => seq![(pattern, v)],
            None => Seq::empty(),
        }
    }
}

/// What all patterns let through, pattern by pattern.
pub open spec fn passed_env(patterns: Seq<Seq<char>>, env: Seq<(Seq<char>, Seq<char>)>) -> Seq<(Seq<char>, Seq<char>)>
    decreases patterns.len(),
{
    if patterns.len() == 0 {
        Seq::empty()
    } else {
        passed_env(patterns.drop_last(), env) + passed_by(patterns.last(), env)
    }
}

pub open spec fn pairs_view(v: Seq<(String, String)>) -> Seq<(Seq<char>, Seq<char>)> {
    v.map_values(|p: (String, String)| (p.0@, p.1@))
}

fn push_pair(out: &mut Vec<(String, String)>, k: String, v: String)
    ensures
        pairs_view(final(out)@) == pairs_view(old(out)@).push((k@, v@)),
{
    let ghost prev = out@;
    out.push((k, v));
    assert(pairs_view(out@) =~= pairs_view(prev).push((k@, v@)));
}

fn append_prefixed(out: &mut Vec<(String, String)>, env: &Vec<(String, String)>, prefix: &Vec<char>)
    ensures
        pairs_view(final(out)@) == pairs_view(old(out)@) + with_prefix(pairs_view(env@), prefix@),
{
    let ghost start = pairs_view(out@);
    let ghost ev = pairs_view(env@);
    let mut i: usize = 0;
    while i < env.len()
        invariant
            i <= env@.len(),
            ev == pairs_view(env@),
            pairs_view(out@) == start + with_prefix(ev.subrange(0, i as int), prefix@),
        decreases env.len() - i,
    {
        let key = chars_of(env[i].0.as_str());
        assert(ev.subrange(0, i + 1).drop_last() =~= ev.subrange(0, i as int));
        assert(ev[i as int] == (env@[i as int].0@, env@[i as int].1@));
        if crate::text::has_prefix(key.as_slice(), string_of(prefix.as_slice()).as_str()) {
            push_pair(out, env[i].0.clone(), env[i].1.clone());
            assert(pairs_view(out@) =~= start + with_prefix(ev.subrange(0, i + 1), prefix@));
        } else {
            assert(pairs_view(out@) =~= start + with_prefix(ev.subrange(0, i + 1), prefix@));
        }
        i += 1;
    }
    assert(ev.subrange(0, env@.len() as int) =~= ev);
}

fn lookup(env: &Vec<(String, String)>, name: &str) -> (r: Option<String>)
    ensures
        crate::diff::types::opt_view(r) == env_lookup(pairs_view(env@), name@),
{
    let ghost ev = pairs_view(env@);
    let mut i: usize = env.len();
    assert(ev.subrange(0, i as int) =~= ev);
    while i > 0
        invariant
            i <= env@.len(),
            ev == pairs_view(env@),
            env_lookup(ev, name@) == env_lookup(ev.subrange(0, i as int), name@),
        decreases i,
    {
        let k = i - 1;
        assert(ev.subrange(0, i as int).drop_last() =~= ev.subrange(0, k as int));
        assert(ev[k as int] == (env@[k as int].0@, env@[k as int].1@));
        let key = chars_of(env[k].0.as_str());
        if crate::text::equals_str(key.as_slice(), name) {
            return Some(env[k].1.clone());
        }
        i = k;
    }
    None
}

/// Appends what the `pass_env` patterns let through from the environment.
pub fn pass_environment(out: &mut Vec<(String, String)>, patterns: &Vec<String>, env: &Vec<(String, String)>)
    ensures
        pairs_view(final(out)@) == pairs_view(old(out)@) + passed_env(patterns@.map_values(|p: String| p@), pairs_view(env@)),
{
    let ghost start = pairs_view(out@);
    let ghost ps = patterns@.map_values(|p: String| p@);
    let ghost ev = pairs_view(env@);
    let mut j: usize = 0;
    while j < patterns.len()
        invariant
            j <= patterns@.len(),
            ps == patterns@.map_values(|p: String| p@),
            ev == pairs_view(env@),
            pairs_view(out@) == start + passed_env(ps.subrange(0, j as int), ev),
        decreases patterns.len() - j,
    {
        let pat = chars_of(patterns[j].as_str());
        assert(ps[j as int] == pat@);
        assert(ps.subrange(0, j + 1).drop_last() =~= ps.subrange(0, j as int));
        if pat.len() > 0 && pat[pat.len() - 1] == '*' {
            let mut prefix = pat.clone();
            prefix.pop();
            assert(prefix@ =~= pat@.drop_last());
            append_prefixed(out, env, &prefix);
        } else {
            match lookup(env, patterns[j].as_str()) {
                Some(v) => {
                    push_pair(out, patterns[j].clone(), v);
                },
                None => {},
            }
        }
        assert(pairs_view(out@) =~= start + passed_env(ps.subrange(0, j + 1), ev));
        j += 1;
    }
    assert(ps.subrange(0, patterns@.len() as int) =~= ps);
}

/// The environment a plugin runs with, in the order it is set; a later
/// entry for a name replaces an earlier one.
pub open spec fn plugin_env_entries(
    base_dir: Seq<char>,
    desc: Seq<char>,
    template: Seq<char>,
    time_iso: Seq<char>,
    user: Option<Seq<char>>,
    repo_root_output: Option<Seq<char>>,
    patterns: Seq<Seq<char>>,
    env: Seq<(Seq<char>, Seq<char>)>,
) -> Seq<(Seq<char>, Seq<char>)> {
    seq![
        ("AGPOD_DESC"@, desc),
        ("AGPOD_TEMPLATE"@, template),
        ("AGPOD_TIME_ISO"@, time_iso),
        ("AGPOD_BASE_DIR"@, base_dir),
    ] + match user {
        Some(u) => seq![("AGPOD_USER"@, u)],
        None => Seq::empty(),
    } + match repo_root_output {
        Some(r) => seq![("AGPOD_REPO_ROOT"@, trim(r))],
        None => Seq::empty(),
    } + passed_env(patterns, env)
}

impl PluginExecutor {
    pub closed spec fn config(&self) -> KiroConfig {
        self.config
    }

    pub fn new(config: KiroConfig) -> (r: PluginExecutor)
        ensures
            r.config() == config,
    {
        PluginExecutor { config }
    }

    /// The plugin to run, or `None` when the plugin is disabled.
    pub fn plugin_path(&self) -> (r: Option<String>)
        ensures
            match r {
                Some(p) => self.config().plugins.name.enabled && p@ == plugin_location(
                    self.config().plugins_dir@,
                    self.config().plugins.name.command@,
                ),
                None => !self.config().plugins.name.enabled,
            },
    {
        let plugin = &self.config.plugins.name;
        if !plugin.enabled {
            return None;
        }
        let cmd = chars_of(plugin.command.as_str());
        if crate::text::has_prefix(cmd.as_slice(), "/") {
            Some(string_of(cmd.as_slice()))
        } else {
            Some(join_path(self.config.plugins_dir.as_str(), plugin.command.as_str()))
        }
    }

    /// The branch name for `desc`, given the plugin's standard output when it
    /// ran and succeeded (`None` when it is disabled, missing or failed).
    pub fn branch_name_from(&self, desc: &str, output: Option<String>) -> (r: String)
        ensures
            r@ == branch_name_from_output(desc@, match output {
                Some(o) => Some(o@),
                None => None,
            }),
    {
        match output {
            Some(o) => {
                let t = trimmed(chars_of(o.as_str()).as_slice(), 0);
                assert(o@.subrange(0, o@.len() as int) =~= o@);
                let name = sanitize_branch_name(string_of(t.as_slice()).as_str());
                if chars_of(name.as_str()).len() > 0 {
                    name
                } else {
                    slugify(desc)
                }
            },
            None => slugify(desc),
        }
    }

    /// The environment to run the plugin with, from the description, the
    /// template, the current time, the `USER` variable, what `git rev-parse
    /// --show-toplevel` printed, and the process environment.
    pub fn plugin_env(
        &self,
        desc: &str,
        template: &str,
        time_iso: &str,
        user: Option<String>,
        repo_root_output: Option<String>,
        env: &Vec<(String, String)>,
    ) -> (r: Vec<(String, String)>)
        ensures
            pairs_view(r@) == plugin_env_entries(
                self.config().base_dir@,
                desc@,
                template@,
                time_iso@,
                opt_view(user),
                opt_view(repo_root_output),
                self.config().plugins.name.pass_env@.map_values(|p: String| p@),
                pairs_view(env@),
            ),
    {
        let mut out: Vec<(String, String)> = Vec::new();
        push_pair(&mut out, crate::config::owned("AGPOD_DESC"), crate::config::owned(desc));
        push_pair(&mut out, crate::config::owned("AGPOD_TEMPLATE"), crate::config::owned(template));
        push_pair(&mut out, crate::config::owned("AGPOD_TIME_ISO"), crate::config::owned(time_iso));
        push_pair(&mut out, crate::config::owned("AGPOD_BASE_DIR"), self.config.base_dir.clone());
        match user {
            Some(u) => push_pair(&mut out, crate::config::owned("AGPOD_USER"), u),
            None => {},
        }
        match repo_root_output {
            Some(r) => {
                let cs = chars_of(r.as_str());
                let t = trimmed(cs.as_slice(), 0);
                assert(cs@.subrange(0, cs@.len() as int) =~= cs@);
                push_pair(&mut out, crate::config::owned("AGPOD_REPO_ROOT"), string_of(t.as_slice()));
            },
            None => {},
        }
        pass_environment(&mut out, &self.config.plugins.name.pass_env, env);
        assert(pairs_view(out@) =~= plugin_env_entries(
            self.config().base_dir@,
            desc@,
            template@,
            time_iso@,
            opt_view(user),
            opt_view(repo_root_output),
            self.config().plugins.name.pass_env@.map_values(|p: String| p@),
            pairs_view(env@),
        ));
        out
    }
}

} // verus!
