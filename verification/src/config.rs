//! Application configuration: plain settings with verified path and URL
//! helpers. Reading and writing the configuration file is an edge concern
//! handled outside the library.

use vstd::prelude::*;

verus! {

/// Application configuration.
#[derive(Debug)]
pub struct Config {
    /// API key for the assistant integration.
    pub api_key: String,
    /// Data storage directory, possibly starting with `~`.
    pub data_dir: String,
    /// Base URL that ticket references are appended to.
    pub jira_url: String,
    /// Default email domain for address completion.
    pub default_email_domain: String,
    /// The project types offered at the edges.
    pub project_types: Vec<String>,
    /// Logging configuration.
    pub logging: LoggingConfig,
}

/// Logging configuration.
#[derive(Debug)]
pub struct LoggingConfig {
    /// Log level name (trace, debug, info, warn, error).
    pub level: String,
}

/// The default ticket base URL.
pub fn default_jira_url() -> (r: String)
    ensures
        r@ == "https://jira.company.com/browse/"@,
{
    String::from_str("https://jira.company.com/browse/")
}

/// The default email domain.
pub fn default_email_domain() -> (r: String)
    ensures
        r@ == "company.com"@,
{
    String::from_str("company.com")
}

/// The default set of project types.
pub fn default_project_types() -> (r: Vec<String>)
    ensures
        r@.len() == 3,
        r@[0]@ == "Personal"@,
        r@[1]@ == "Team"@,
        r@[2]@ == "Company"@,
{
    let mut v: Vec<String> = Vec::new();
    v.push(String::from_str("Personal"));
    v.push(String::from_str("Team"));
    v.push(String::from_str("Company"));
    v
}

/// The default log level.
pub fn default_log_level() -> (r: String)
    ensures
        r@ == "info"@,
{
    String::from_str("info")
}

impl Default for LoggingConfig {
    fn default() -> (r: Self)
        ensures
            r.level@ == "info"@,
    {
        LoggingConfig { level: default_log_level() }
    }
}

impl Default for Config {
    fn default() -> (r: Self)
        ensures
            r.api_key@ == "your-anthropic-api-key-here"@,
            r.data_dir@ == "~/.project-tracker/data"@,
            r.jira_url@ == "https://jira.company.com/browse/"@,
            r.default_email_domain@ == "company.com"@,
            r.project_types@.len() == 3,
            r.logging.level@ == "info"@,
    {
        Config {
            api_key: String::from_str("your-anthropic-api-key-here"),
            data_dir: String::from_str("~/.project-tracker/data"),
            jira_url: default_jira_url(),
            default_email_domain: default_email_domain(),
            project_types: default_project_types(),
            logging: LoggingConfig { level: default_log_level() },
        }
    }
}

/// Relies on `dirs::home_dir`: the user's home directory, as text. The
/// result depends on the environment, so nothing is promised about it.
#[verifier::external_body]
fn home_dir_text() -> (r: Option<String>) {
    dirs::home_dir().map(|p| p.to_string_lossy().into_owned())
}

/// What expanding a tilde-prefixed path yields against a given home
/// directory; `None` when a tilde cannot be resolved.
pub open spec fn expanded_path(path: Seq<char>, home: Option<Seq<char>>) -> Option<Seq<char>> {
    if path.len() > 0 && path[0] == '~' {
        match home {
            Option::None => Option::None,
            Option::Some(h) => Option::Some(
                h + "/"@ + (if path.len() >= 2 && path[1] == '/' {
                    path.skip(2)
                } else {
                    path.skip(1)
                }),
            ),
        }
    } else {
        Option::Some(path)
    }
}

impl Config {
    /// Expand a leading tilde to the home directory. Fails only when the
    /// path starts with a tilde and no home directory can be determined.
    pub fn expand_path(&self, path: &str) -> (r: Result<String, crate::err::RepoError>)
        ensures
            exists|home: Option<Seq<char>>|
                match r {
                    Result::Ok(s) => #[trigger] expanded_path(path@, home) == Option::Some(s@),
                    Result::Err(e) => expanded_path(path@, home) is None && e
                        == crate::err::RepoError::StorageFailure,
                },
    {
        let n = path.unicode_len();
        if n == 0 || path.get_char(0) != '~' {
            let ghost home: Option<Seq<char>> = Option::None;
            let out = String::from_str(path);
            proof {
                assert(expanded_path(path@, home) == Option::Some(out@));
            }
            return Result::Ok(out);
        }
        match home_dir_text() {
            Option::None => {
                let ghost home: Option<Seq<char>> = Option::None;
                proof {
                    assert(expanded_path(path@, home) is None);
                }
                Result::Err(crate::err::RepoError::StorageFailure)
            },
            Option::Some(h) => {
                let rest = if n >= 2 && path.get_char(1) == '/' {
                    path.substring_char(2, n)
                } else {
                    path.substring_char(1, n)
                };
                let ghost home = Option::Some(h@);
                let out = h.concat("/").concat(rest);
                proof {
                    assert(out@ == h@ + "/"@ + rest@);
                    assert(rest@ == if path@.len() >= 2 && path@[1] == '/' {
                        path@.skip(2)
                    } else {
                        path@.skip(1)
                    }) by {
                        if path@.len() >= 2 && path@[1] == '/' {
                            assert(path@.subrange(2, path@.len() as int) =~= path@.skip(2));
                        } else {
                            assert(path@.subrange(1, path@.len() as int) =~= path@.skip(1));
                        }
                    }
                    assert(expanded_path(path@, home) == Option::Some(out@));
                }
                Result::Ok(out)
            },
        }
    }

    /// The expanded data directory path.
    pub fn data_dir_path(&self) -> (r: Result<String, crate::err::RepoError>)
        ensures
            exists|home: Option<Seq<char>>|
                match r {
                    Result::Ok(s) => #[trigger] expanded_path(self.data_dir@, home)
                        == Option::Some(s@),
                    Result::Err(e) => expanded_path(self.data_dir@, home) is None && e
                        == crate::err::RepoError::StorageFailure,
                },
    {
        let d = self.data_dir.clone();
        self.expand_path(d.as_str())
    }

    /// The full ticket URL for a ticket reference.
    pub fn jira_ticket_url(&self, ticket: &str) -> (r: String)
        ensures
            r@ == self.jira_url@ + ticket@,
    {
        self.jira_url.clone().concat(ticket)
    }

    /// The database file path inside the data directory.
    pub fn database_path(&self) -> (r: Result<String, crate::err::RepoError>)
        ensures
            exists|home: Option<Seq<char>>|
                match r {
                    Result::Ok(s) => (match #[trigger] expanded_path(self.data_dir@, home) {
                        Option::Some(d) => s@ == d + "/project-tracker.db"@,
                        Option::None => false,
                    }),
                    Result::Err(e) => expanded_path(self.data_dir@, home) is None && e
                        == crate::err::RepoError::StorageFailure,
                },
    {
        match self.data_dir_path() {
            Result::Err(e) => Result::Err(e),
            Result::Ok(d) => {
                let out = d.concat("/project-tracker.db");
                proof {
                    let home = choose|home: Option<Seq<char>>|
                        expanded_path(self.data_dir@, home) == Option::Some(d@);
                    assert(expanded_path(self.data_dir@, home) == Option::Some(d@));
                    assert(out@ == d@ + "/project-tracker.db"@);
                }
                Result::Ok(out)
            },
        }
    }
}

} // verus!
