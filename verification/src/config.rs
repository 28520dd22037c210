//! Configuration records for the dashboard: one `LogConfig` per remote log to
//! tail, plus path expansion for the configuration file location.

use vstd::prelude::*;
use vstd::string::StrSliceExecFns;
use vstd::string::StringExecFns;

verus! {

/// The whole configuration: an ordered list of sources.
#[derive(Clone, Debug)]
pub struct Config {
    pub logs: Vec<LogConfig>,
}

/// Process-wide display options.
#[derive(Clone, Debug)]
pub struct GlobalConfig {
    pub auto_wrapping: Option<bool>,
}

/// Reserved for user-defined highlight rules.
#[derive(Clone, Debug)]
pub struct RegexConfig {}

/// One remote log to tail: where it lives and how to authenticate.
#[derive(Clone, Debug)]
pub struct LogConfig {
    pub name: String,
    pub host: String,
    pub port: u16,
    pub log_path: String,
    pub username: Option<String>,
    pub password: Option<String>,
    pub ssh_key: Option<String>,
    pub max_history: Option<usize>,
}

/// Why a configuration path could not be resolved.
#[derive(Clone, Copy, PartialEq, Eq, Structural, Debug)]
pub enum ConfigError {
    HomeNotSet,
}

/// What expanding a leading `~/` yields: the home directory spliced in front,
/// an error when no home directory is known, or the path unchanged.
pub open spec fn spec_expand_tilde(path: Seq<char>, home: Option<Seq<char>>) -> Result<
    Seq<char>,
    ConfigError,
> {
    if path.len() >= 2 && path[0] == '~' && path[1] == '/' {
        match home {
            Some(h) => Ok(h + seq!['/'] + path.skip(2)),
            None => Err(ConfigError::HomeNotSet),
        }
    } else {
        Ok(path)
    }
}

/// The view of an optional borrowed string.
pub open spec fn opt_str_view(o: Option<&str>) -> Option<Seq<char>> {
    match o {
        Some(h) => Some(h@),
        None => None,
    }
}

/// Expand a leading `~/` to the given home directory. The caller supplies the
/// home directory it found, if any.
pub fn expand_tilde(path: &str, home: Option<&str>) -> (r: Result<String, ConfigError>)
    ensures
        r matches Ok(s) ==> spec_expand_tilde(path@, opt_str_view(home)) matches Ok(v) && s@ == v,
        r matches Err(e) ==> spec_expand_tilde(path@, opt_str_view(home)) == Err::<
            Seq<char>,
            ConfigError,
        >(e),
{
    let n = path.unicode_len();
    if n >= 2 && path.get_char(0) == '~' && path.get_char(1) == '/' {
        match home {
            Some(h) => {
                let mut out = String::from_str(h);
                out.append("/");
                out.append(path.substring_char(2, n));
                proof {
                    reveal_strlit("/");
                    assert(out@ =~= h@ + seq!['/'] + path@.skip(2));
                }
                Ok(out)
            },
            None => Err(ConfigError::HomeNotSet),
        }
    } else {
        Ok(path.to_owned())
    }
}

} // verus!
