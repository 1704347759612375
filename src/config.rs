//! Configuration: a versioned root with optional `kiro` and `diff` sections,
//! their defaults, and how layered configurations merge.
use crate::text::{chars_of, push_all, push_str_chars, string_of};
use std::collections::HashMap;
use vstd::prelude::*;

verus! {

/// Current configuration version.
pub const CURRENT_CONFIG_VERSION: &'static str = "1";

/// Relies on `dirs::home_dir`, written out lossily as text; it depends on the
/// environment, so nothing is promised of it.
#[verifier::external_body]
fn home_dir_text() -> (r: Option<String>) {
    dirs::home_dir().map(|h| h.to_string_lossy().to_string())
}

pub fn owned(s: &str) -> (r: String)
    ensures
        r@ == s@,
{
    string_of(chars_of(s).as_slice())
}

/// `base` joined with a relative path, as `Path::join` does.
pub open spec fn path_join(base: Seq<char>, rel: Seq<char>) -> Seq<char> {
    if base.len() == 0 {
        rel
    } else if base.last() == '/' {
        base + rel
    } else {
        base + "/"@ + rel
    }
}

pub fn join_path(base: &str, rel: &str) -> (r: String)
    ensures
        r@ == path_join(base@, rel@),
{
    let b = chars_of(base);
    let mut out: Vec<char> = Vec::new();
    push_all(&mut out, b.as_slice());
    if b.len() > 0 && b[b.len() - 1] != '/' {
        push_str_chars(&mut out, "/");
    }
    push_str_chars(&mut out, rel);
    assert(out@ =~= path_join(base@, rel@));
    string_of(out.as_slice())
}

/// A directory under `~/.config/agpod`, or its unexpanded form without a home.
pub open spec fn config_subdir(home: Option<Seq<char>>, name: Seq<char>, fallback: Seq<char>) -> Seq<char> {
    match home {
        Some(h) => path_join(path_join(path_join(h, ".config"@), "agpod"@), name),
        None => fallback,
    }
}

pub fn templates_dir_for(home: Option<String>) -> (r: String)
    ensures
        r@ == config_subdir(
            match home {
                Some(h) => Some(h@),
                None => None,
            },
            "templates"@,
            "~/.config/agpod/templates"@,
        ),
{
    match home {
        Some(h) => {
            let a = join_path(h.as_str(), ".config");
            let b = join_path(a.as_str(), "agpod");
            join_path(b.as_str(), "templates")
        },
        None => owned("~/.config/agpod/templates"),
    }
}

pub fn plugins_dir_for(home: Option<String>) -> (r: String)
    ensures
        r@ == config_subdir(
            match home {
                Some(h) => Some(h@),
                None => None,
            },
            "plugins"@,
            "~/.config/agpod/plugins"@,
        ),
{
    match home {
        Some(h) => {
            let a = join_path(h.as_str(), ".config");
            let b = join_path(a.as_str(), "agpod");
            join_path(b.as_str(), "plugins")
        },
        None => owned("~/.config/agpod/plugins"),
    }
}

/// `~/.config/agpod` under a home directory.
pub fn config_dir_for(home: Option<String>) -> (r: Option<String>)
    ensures
        match (r, home) {
            (Some(d), Some(h)) => d@ == path_join(path_join(h@, ".config"@), "agpod"@),
            (None, None) => true,
            _ => false,
        },
{
    match home {
        Some(h) => {
            let a = join_path(h.as_str(), ".config");
            Some(join_path(a.as_str(), "agpod"))
        },
        None => None,
    }
}

/// Root configuration.
#[derive(Debug)]
pub struct Config {
    pub version: String,
    pub kiro: Option<KiroConfig>,
    pub diff: Option<DiffConfig>,
}

/// Settings of the PR draft workflow.
#[derive(Debug)]
pub struct KiroConfig {
    pub base_dir: String,
    pub templates_dir: String,
    pub plugins_dir: String,
    pub template: String,
    pub summary_lines: usize,
    pub plugins: KiroPluginConfig,
    pub rendering: KiroRenderingConfig,
    pub templates: HashMap<String, KiroTemplateConfig>,
}

#[derive(Debug)]
pub struct KiroPluginConfig {
    pub name: KiroBranchNamePlugin,
}

/// The branch-name plugin.
#[derive(Debug)]
pub struct KiroBranchNamePlugin {
    pub enabled: bool,
    pub command: String,
    pub timeout_secs: u64,
    pub pass_env: Vec<String>,
}

#[derive(Debug)]
pub struct KiroRenderingConfig {
    pub files: Vec<String>,
    pub extra: Vec<String>,
    pub missing_policy: String,
}

#[derive(Debug)]
pub struct KiroTemplateConfig {
    pub description: String,
    pub files: Vec<String>,
    pub missing_policy: String,
}

/// Settings of diff minimization.
#[derive(Debug)]
pub struct DiffConfig {
    pub output_dir: String,
    pub large_file_changes_threshold: usize,
    pub large_file_lines_threshold: usize,
    pub max_consecutive_empty_lines: usize,
}

pub fn default_config_version() -> (r: String)
    ensures
        r@ == "1"@,
{
    owned(CURRENT_CONFIG_VERSION)
}

pub fn default_kiro_base_dir() -> (r: String)
    ensures
        r@ == "llm/kiro"@,
{
    owned("llm/kiro")
}

/// `~/.config/agpod/templates` under the user's home directory.
pub fn default_templates_dir() -> (r: String)
    ensures
        exists|h: Option<Seq<char>>| r@ == config_subdir(h, "templates"@, "~/.config/agpod/templates"@),
{
    let home = home_dir_text();
    let ghost h = match &home {
        Some(x) => Some(x@),
        None => None,
    };
    let r = templates_dir_for(home);
    assert(r@ == config_subdir(h, "templates"@, "~/.config/agpod/templates"@));
    r
}

/// `~/.config/agpod/plugins` under the user's home directory.
pub fn default_plugins_dir() -> (r: String)
    ensures
        exists|h: Option<Seq<char>>| r@ == config_subdir(h, "plugins"@, "~/.config/agpod/plugins"@),
{
    let home = home_dir_text();
    let ghost h = match &home {
        Some(x) => Some(x@),
        None => None,
    };
    let r = plugins_dir_for(home);
    assert(r@ == config_subdir(h, "plugins"@, "~/.config/agpod/plugins"@));
    r
}

pub fn default_template() -> (r: String)
    ensures
        r@ == "default"@,
{
    owned("default")
}

pub fn default_summary_lines() -> (r: usize)
    ensures
        r == 3,
{
    3
}

pub fn default_plugin_enabled() -> (r: bool)
    ensures
        r,
{
    true
}

pub fn default_plugin_command() -> (r: String)
    ensures
        r@ == "name.sh"@,
{
    owned("name.sh")
}

pub fn default_plugin_timeout() -> (r: u64)
    ensures
        r == 3,
{
    3
}

pub fn default_rendering_files() -> (r: Vec<String>)
    ensures
        r@.len() == 2,
        r@[0]@ == "DESIGN.md.j2"@,
        r@[1]@ == "TASK.md.j2"@,
{
    vec![owned("DESIGN.md.j2"), owned("TASK.md.j2")]
}

pub fn default_missing_policy() -> (r: String)
    ensures
        r@ == "error"@,
{
    owned("error")
}

pub fn default_diff_output_dir() -> (r: String)
    ensures
        r@ == "llm/diff"@,
{
    owned("llm/diff")
}

pub fn default_large_file_changes_threshold() -> (r: usize)
    ensures
        r == 100,
{
    100
}

pub fn default_large_file_lines_threshold() -> (r: usize)
    ensures
        r == 500,
{
    500
}

pub fn default_max_consecutive_empty_lines() -> (r: usize)
    ensures
        r == 2,
{
    2
}

impl Default for Config {
    fn default() -> (r: Config)
        ensures
            r.version@ == "1"@,
            r.kiro is None,
            r.diff is None,
    {
        Config { version: default_config_version(), kiro: None, diff: None }
    }
}

impl Default for KiroConfig {
    fn default() -> (r: KiroConfig)
        ensures
            r.base_dir@ == "llm/kiro"@,
            r.template@ == "default"@,
            r.summary_lines == 3,
            r.plugins.name.enabled,
            r.plugins.name.command@ == "name.sh"@,
            r.plugins.name.timeout_secs == 3,
            r.rendering.missing_policy@ == "error"@,
            r.rendering.extra@.len() == 0,
            r.templates@ == Map::<String, KiroTemplateConfig>::empty(),
    {
        KiroConfig {
            base_dir: default_kiro_base_dir(),
            templates_dir: default_templates_dir(),
            plugins_dir: default_plugins_dir(),
            template: default_template(),
            summary_lines: default_summary_lines(),
            plugins: KiroPluginConfig::default(),
            rendering: KiroRenderingConfig::default(),
            templates: HashMap::new(),
        }
    }
}

impl Default for KiroPluginConfig {
    fn default() -> (r: KiroPluginConfig)
        ensures
            r.name.enabled,
            r.name.command@ == "name.sh"@,
            r.name.timeout_secs == 3,
            r.name.pass_env@.len() == 4,
    {
        KiroPluginConfig { name: KiroBranchNamePlugin::default() }
    }
}

impl Default for KiroBranchNamePlugin {
    fn default() -> (r: KiroBranchNamePlugin)
        ensures
            r.enabled,
            r.command@ == "name.sh"@,
            r.timeout_secs == 3,
            r.pass_env@.len() == 4,
            r.pass_env@[0]@ == "AGPOD_*"@,
            r.pass_env@[1]@ == "GIT_*"@,
            r.pass_env@[2]@ == "USER"@,
            r.pass_env@[3]@ == "HOME"@,
    {
        KiroBranchNamePlugin {
            enabled: true,
            command: default_plugin_command(),
            timeout_secs: default_plugin_timeout(),
            pass_env: vec![owned("AGPOD_*"), owned("GIT_*"), owned("USER"), owned("HOME")],
        }
    }
}

impl Default for KiroRenderingConfig {
    fn default() -> (r: KiroRenderingConfig)
        ensures
            r.files@.len() == 2,
            r.files@[0]@ == "DESIGN.md.j2"@,
            r.files@[1]@ == "TASK.md.j2"@,
            r.extra@.len() == 0,
            r.missing_policy@ == "error"@,
    {
        KiroRenderingConfig {
            files: default_rendering_files(),
            extra: Vec::new(),
            missing_policy: default_missing_policy(),
        }
    }
}

impl Default for DiffConfig {
    fn default() -> (r: DiffConfig)
        ensures
            r.output_dir@ == "llm/diff"@,
            r.large_file_changes_threshold == 100,
            r.large_file_lines_threshold == 500,
            r.max_consecutive_empty_lines == 2,
    {
        DiffConfig {
            output_dir: default_diff_output_dir(),
            large_file_changes_threshold: default_large_file_changes_threshold(),
            large_file_lines_threshold: default_large_file_lines_threshold(),
            max_consecutive_empty_lines: default_max_consecutive_empty_lines(),
        }
    }
}

/// The warning printed for a configuration of an unsupported version.
pub open spec fn version_warning_text(version: Seq<char>) -> Seq<char> {
    "Warning: Configuration version '"@ + version
        + "' is not supported. Supported versions: "@ + "1"@
        + ". Using defaults where needed."@
}

impl Config {
    /// The user's configuration directory, `~/.config/agpod`, when there is a home directory.
    pub fn get_config_dir() -> (r: Option<String>)
        ensures
            r is Some ==> exists|h: Seq<char>| r.unwrap()@ == path_join(path_join(h, ".config"@), "agpod"@),
    {
        let home = home_dir_text();
        let r = config_dir_for(home);
        r
    }

    /// Only version `1` is supported.
    pub fn is_version_supported(&self) -> (r: bool)
        ensures
            r == (self.version@ == "1"@),
    {
        let v = chars_of(self.version.as_str());
        crate::text::equals_str(v.as_slice(), "1")
    }

    /// A warning for an unsupported version, `None` for a supported one.
    pub fn version_warning(&self) -> (r: Option<String>)
        ensures
            match r {
                Some(w) => self.version@ != "1"@ && w@ == version_warning_text(self.version@),
                None => self.version@ == "1"@,
            },
    {
        if !self.is_version_supported() {
            let mut out: Vec<char> = Vec::new();
            push_str_chars(&mut out, "Warning: Configuration version '");
            push_str_chars(&mut out, self.version.as_str());
            push_str_chars(&mut out, "' is not supported. Supported versions: ");
            push_str_chars(&mut out, "1");
            push_str_chars(&mut out, ". Using defaults where needed.");
            assert(out@ =~= version_warning_text(self.version@));
            Some(string_of(out.as_slice()))
        } else {
            None
        }
    }

    /// A configuration just read from a file: an empty version means the current one.
    pub fn with_version_default(self) -> (r: Config)
        ensures
            r.version@ == (if self.version@.len() == 0 { "1"@ } else { self.version@ }),
            r.kiro == self.kiro,
            r.diff == self.diff,
    {
        let mut config = self;
        if chars_of(config.version.as_str()).len() == 0 {
            config.version = owned(CURRENT_CONFIG_VERSION);
        }
        config
    }

    /// `other` laid over `self`: its version, and each section it sets.
    pub fn merge(self, other: Config) -> (r: Config)
        ensures
            r.version == other.version,
            r.kiro == (if other.kiro is Some { other.kiro } else { self.kiro }),
            r.diff == (if other.diff is Some { other.diff } else { self.diff }),
    {
        let mut config = self;
        config.version = other.version;
        if other.kiro.is_some() {
            config.kiro = other.kiro;
        }
        if other.diff.is_some() {
            config.diff = other.diff;
        }
        config
    }

    /// The defaults, then the global file's configuration, then the repository's,
    /// each read one laid over the one before.
    pub fn load(global: Option<Config>, repo: Option<Config>) -> (r: Config)
        ensures
            r.version@ == match repo {
                Some(c) => c.version@,
                None => match global {
                    Some(g) => g.version@,
                    None => "1"@,
                },
            },
            r.kiro == match repo {
                Some(c) if c.kiro is Some => c.kiro,
                _ => match global {
                    Some(g) => g.kiro,
                    None => None,
                },
            },
            r.diff == match repo {
                Some(c) if c.diff is Some => c.diff,
                _ => match global {
                    Some(g) => g.diff,
                    None => None,
                },
            },
    {
        let mut config = Config::default();
        if let Some(g) = global {
            config = config.merge(g);
        }
        if let Some(c) = repo {
            config = config.merge(c);
        }
        config
    }
}

} // verus!
