//! The environment that the application runs in.

use vstd::prelude::*;

verus! {

/// The text in lower case, as `str::to_lowercase` gives it.
pub uninterp spec fn lowercase(text: Seq<char>) -> Seq<char>;

/// Calls `str::to_lowercase`, which returns the text in lower case.
#[verifier::external_body]
fn to_lowercase(text: &str) -> (lowered: String)
    ensures
        lowered@ == lowercase(text@),
{
    text.to_lowercase()
}

/// Where the application runs. Each environment has a configuration file
/// of its own, named after it.
#[derive(Debug, PartialEq, Eq, Clone, Copy, Structural)]
pub enum Environment {
    Local,
    Ci,
    DevContainer,
    Production,
}

/// How much the connection to the database insists on encryption.
#[derive(Debug, PartialEq, Eq, Clone, Copy, Structural)]
pub enum SslMode {
    /// Only an encrypted connection will do.
    Require,
    /// An encrypted connection is tried first.
    Prefer,
}

/// The mode of the connection to the database: encryption is required
/// where the configuration asks for it, and preferred where it does not.
pub fn ssl_mode(require_ssl: bool) -> (mode: SslMode)
    ensures
        mode == (if require_ssl {
            SslMode::Require
        } else {
            SslMode::Prefer
        }),
{
    match require_ssl {
        true => SslMode::Require,
        false => SslMode::Prefer,
    }
}

/// A text names no environment.
#[derive(Debug, PartialEq, Eq)]
pub struct EnvironmentParseError {
    pub other: String,
}

/// The environment that a text in lower case names, if it names one.
pub open spec fn environment_named(lowered: Seq<char>) -> Option<Environment> {
    if lowered == "local"@ {
        Some(Environment::Local)
    } else if lowered == "devcontainer"@ {
        Some(Environment::DevContainer)
    } else if lowered == "ci"@ {
        Some(Environment::Ci)
    } else if lowered == "production"@ {
        Some(Environment::Production)
    } else {
        None
    }
}

impl Environment {
    /// The variable that names the environment.
    pub const ENV_VAR_NAME: &'static str = "APP_ENVIRONMENT";

    /// The environment that a text in lower case names.
    pub fn from_lowercase(lowered: String) -> (result: Result<Environment, EnvironmentParseError>)
        ensures
            match result {
                Ok(environment) => environment_named(lowered@) == Some(environment),
                Err(error) => environment_named(lowered@) is None && error.other@ == lowered@,
            },
    {
        if lowered == String::from_str("local") {
            Ok(Environment::Local)
        } else if lowered == String::from_str("devcontainer") {
            Ok(Environment::DevContainer)
        } else if lowered == String::from_str("ci") {
            Ok(Environment::Ci)
        } else if lowered == String::from_str("production") {
            Ok(Environment::Production)
        } else {
            Err(EnvironmentParseError { other: lowered })
        }
    }

    /// The environment that a text names, whatever the case of its letters.
    pub fn try_from(s: &str) -> (result: Result<Environment, EnvironmentParseError>)
        ensures
            match result {
                Ok(environment) => environment_named(lowercase(s@)) == Some(environment),
                Err(error) => environment_named(lowercase(s@)) is None && error.other@
                    == lowercase(s@),
            },
    {
        Environment::from_lowercase(to_lowercase(s))
    }

    /// The environment to run in, given the value of the variable that
    /// names it: the local one where the variable is not set.
    pub fn detect(variable: Option<&str>) -> (result: Result<Environment, EnvironmentParseError>)
        ensures
            match variable {
                None => result == Ok::<_, EnvironmentParseError>(Environment::Local),
                Some(s) => match result {
                    Ok(environment) => environment_named(lowercase(s@)) == Some(environment),
                    Err(error) => environment_named(lowercase(s@)) is None && error.other@
                        == lowercase(s@),
                },
            },
    {
        match variable {
            Some(s) => Environment::try_from(s),
            None => Ok(Environment::Local),
        }
    }

    /// The name of the environment, which is also the name of its
    /// configuration file.
    pub fn as_ref(&self) -> (name: &'static str)
        ensures
            name@ == match *self {
                Environment::Local => "local"@,
                Environment::DevContainer => "devcontainer"@,
                Environment::Ci => "ci"@,
                Environment::Production => "production"@,
            },
    {
        match self {
            Environment::Local => "local",
            Environment::DevContainer => "devcontainer",
            Environment::Ci => "ci",
            Environment::Production => "production",
        }
    }
}

impl EnvironmentParseError {
    /// The sentence that describes the error.
    pub fn message(&self) -> (text: String)
        ensures
            text@ == "could not parse APP_ENVIRONMENT environment variable, `"@ + self.other@
                + "` is not supported environment, use either `local`, `devcontainer`, `ci` or `production`"@,
    {
        let mut text = String::from_str("could not parse APP_ENVIRONMENT environment variable, `");
        text.append(self.other.as_str());
        text.append(
            "` is not supported environment, use either `local`, `devcontainer`, `ci` or `production`",
        );
        text
    }
}

} // verus!
