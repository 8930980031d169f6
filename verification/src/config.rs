use vstd::prelude::*;
use vstd::string::{StrSliceExecFns, StringExecFns};

verus! {

// Configuration data and the pure rules around it. Reading and writing the
// configuration file, and finding the home directory, are the embedding
// program's business: it hands values in and takes values out.

pub struct AuthConfig {
    pub claude_token: Option<String>,
}

pub struct ProxyConfig {
    pub port: u16,
    pub target: String,
}

pub struct ViewerConfig {
    pub port: u16,
    pub auto_open_browser: bool,
}

pub struct RecordingConfig {
    pub output_dir: String,
    pub scrub: bool,
    pub default_model: String,
}

pub struct DisplayConfig {
    pub colors: bool,
}

pub struct Config {
    pub auth: AuthConfig,
    pub proxy: ProxyConfig,
    pub viewer: ViewerConfig,
    pub recording: RecordingConfig,
    pub display: DisplayConfig,
}

/// The out-of-the-box configuration.
pub open spec fn spec_is_default(c: Config) -> bool {
    &&& c.auth.claude_token is None
    &&& c.proxy.port == 9000
    &&& c.proxy.target@ == "https://api.anthropic.com"@
    &&& c.viewer.port == 5173
    &&& c.viewer.auto_open_browser == true
    &&& c.recording.output_dir@ == "~/.ghostline/runs"@
    &&& c.recording.scrub == true
    &&& c.recording.default_model@ == "default"@
    &&& c.display.colors == true
}

impl Default for Config {
    fn default() -> (c: Config)
        ensures
            spec_is_default(c),
    {
        Config {
            auth: AuthConfig { claude_token: None },
            proxy: ProxyConfig {
                port: 9000,
                target: String::from_str("https://api.anthropic.com"),
            },
            viewer: ViewerConfig { port: 5173, auto_open_browser: true },
            recording: RecordingConfig {
                output_dir: String::from_str("~/.ghostline/runs"),
                scrub: true,
                default_model: String::from_str("default"),
            },
            display: DisplayConfig { colors: true },
        }
    }
}

impl Config {
    /// The configuration file's path under the given configuration
    /// directory.
    pub fn config_path(config_dir: &str) -> (r: String)
        ensures
            r@ == config_dir@ + "/config.toml"@,
    {
        let s = String::from_str(config_dir);
        s.concat("/config.toml")
    }

    /// The configuration that applies: what was loaded if anything was,
    /// the defaults otherwise.
    pub fn load_or_default(loaded: Option<Config>) -> (c: Config)
        ensures
            match loaded {
                Some(l) => c == l,
                None => spec_is_default(c),
            },
    {
        match loaded {
            Some(l) => l,
            None => Config::default(),
        }
    }

    /// Whether a token has been configured.
    pub fn is_configured(&self) -> (r: bool)
        ensures
            r == (self.auth.claude_token is Some),
    {
        match &self.auth.claude_token {
            Some(_) => true,
            None => false,
        }
    }
}

/// A safe run name: a plain `*.ghostline` file name with no directory
/// separators, no traversal sequence and no leading dot.
pub open spec fn spec_run_name_ok(s: Seq<char>) -> bool {
    &&& s.len() >= 10
    &&& s.subrange(s.len() - 10, s.len() as int) == ".ghostline"@
    &&& forall|i: int| 0 <= i < s.len() ==> #[trigger] s[i] != '/' && s[i] != '\\'
    &&& forall|i: int| 0 <= i < s.len() - 1 ==> !(#[trigger] s[i] == '.' && s[i + 1] == '.')
    &&& s[0] != '.'
}

/// Accept a run name only when it is a plain `*.ghostline` file name:
/// no path separators, no `..`, no hidden-file prefix.
#[verifier::loop_isolation(false)]
pub fn sanitize_run_name(name: &str) -> (r: Option<&str>)
    ensures
        match r {
            Some(m) => m@ == name@ && spec_run_name_ok(name@),
            None => !spec_run_name_ok(name@),
        },
{
    proof {
        reveal_strlit(".ghostline");
    }
    let n = name.unicode_len();
    if n < 10 {
        return None;
    }
    let suffix = ".ghostline";
    let mut k: usize = 0;
    while k < 10
        invariant
            k <= 10,
            n >= 10,
            n == name@.len(),
            suffix@ == ".ghostline"@,
            forall|j: int| 0 <= j < k ==> #[trigger] name@[n - 10 + j] == suffix@[j],
        decreases 10 - k,
    {
        let a = name.get_char(n - 10 + k);
        let b = suffix.get_char(k);
        if a != b {
            proof {
                assert(name@[n - 10 + k as int] != ".ghostline"@[k as int]);
                assert(!(name@.subrange(name@.len() - 10, name@.len() as int) == ".ghostline"@))
                    by {
                    if name@.subrange(name@.len() - 10, name@.len() as int) == ".ghostline"@ {
                        assert(name@.subrange(name@.len() - 10, name@.len() as int)[k as int]
                            == name@[n - 10 + k as int]);
                    }
                }
            }
            return None;
        }
        k += 1;
    }
    proof {
        assert forall|j: int| 0 <= j < 10 implies name@.subrange(
            name@.len() - 10,
            name@.len() as int,
        )[j] == ".ghostline"@[j] by {
            assert(name@.subrange(name@.len() - 10, name@.len() as int)[j] == name@[n - 10 + j]);
            assert(name@[n - 10 + j] == suffix@[j]);
        }
        assert(name@.subrange(name@.len() - 10, name@.len() as int) =~= ".ghostline"@);
    }
    if name.get_char(0) == '.' {
        return None;
    }
    let mut i: usize = 0;
    while i < n
        invariant
            i <= n,
            n == name@.len(),
            forall|j: int| 0 <= j < i ==> #[trigger] name@[j] != '/' && name@[j] != '\\',
            forall|j: int| 0 <= j < i - 1 ==> !(#[trigger] name@[j] == '.' && name@[j + 1] == '.'),
            i > 0 ==> !(name@[i - 1] == '.' && i < n && name@[i as int] == '.'),
        decreases n - i,
    {
        let c = name.get_char(i);
        if c == '/' || c == '\\' {
            return None;
        }
        if i + 1 < n {
            let d = name.get_char(i + 1);
            if c == '.' && d == '.' {
                return None;
            }
        }
        i += 1;
    }
    Some(name)
}

} // verus!
