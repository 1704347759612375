//! Repository facts handed to templates, built from what `git` printed.
use crate::text::{chars_of, string_of, trim, trimmed};
use vstd::prelude::*;

verus! {

/// Where the repository is and what is checked out.
pub struct GitInfo {
    pub repo_root: String,
    pub current_branch: Option<String>,
    pub short_sha: Option<String>,
}

/// Values a draft's templates are rendered with.
pub struct TemplateContext {
    pub name: String,
    pub desc: String,
    pub template: String,
    pub base_dir: String,
    pub pr_dir_abs: String,
    pub pr_dir_rel: String,
    pub git_info: Option<GitInfo>,
}

/// Reads repository facts from the output of `git rev-parse`.
pub struct GitHelper;

pub open spec fn trimmed_output(o: Option<String>) -> Option<Seq<char>> {
    match o {
        Some(s) => Some(trim(s@)),
        None => None,
    }
}

fn trim_output(o: Option<String>) -> (r: Option<String>)
    ensures
        crate::diff::types::opt_view(r) == trimmed_output(o),
{
    match o {
        Some(s) => {
            let cs = chars_of(s.as_str());
            let t = trimmed(cs.as_slice(), 0);
            assert(cs@.subrange(0, cs@.len() as int) =~= cs@);
            Some(string_of(t.as_slice()))
        },
        None => None,
    }
}

impl GitHelper {
    /// The repository facts from the standard output of `git rev-parse
    /// --show-toplevel`, `--abbrev-ref HEAD` and `--short HEAD` (`None` for a
    /// command that failed). Without a repository root there is no information.
    pub fn get_git_info(
        repo_root_output: Option<String>,
        branch_output: Option<String>,
        sha_output: Option<String>,
    ) -> (r: Option<GitInfo>)
        ensures
            match r {
                Some(info) => repo_root_output is Some && Some(info.repo_root@) == trimmed_output(
                    repo_root_output,
                ) && crate::diff::types::opt_view(info.current_branch) == trimmed_output(branch_output)
                    && crate::diff::types::opt_view(info.short_sha) == trimmed_output(sha_output),
                None => repo_root_output is None,
            },
    {
        let root = trim_output(repo_root_output);
        match root {
            Some(repo_root) => Some(
                GitInfo {
                    repo_root,
                    current_branch: trim_output(branch_output),
                    short_sha: trim_output(sha_output),
                },
            ),
            None => None,
        }
    }
}

} // verus!
