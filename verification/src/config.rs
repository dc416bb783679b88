//! The saved credentials.
use vstd::prelude::*;

verus! {

/// The user name and password as the configuration file stores them.
pub struct StoredConfig {
    pub username: String,
    pub password: String,
}

impl StoredConfig {
    /// The stored user name and password, or the error `配置文件中用户名或密码为空`
    /// ("user name or password in the configuration file is empty") where either is
    /// empty.
    pub fn into_credentials(self) -> (res: Result<(String, String), String>)
        ensures
            match res {
                Ok((u, p)) => self.username@.len() > 0 && self.password@.len() > 0 && u@
                    == self.username@ && p@ == self.password@,
                Err(e) => (self.username@.len() == 0 || self.password@.len() == 0) && e@
                    == "配置文件中用户名或密码为空"@,
            },
    {
        if self.username.as_str().is_empty() || self.password.as_str().is_empty() {
            return Err(String::from_str("配置文件中用户名或密码为空"));
        }
        Ok((self.username, self.password))
    }
}

/// Where a credential comes from.
#[derive(Debug, Clone, Copy, PartialEq, Eq, Structural)]
pub enum CredentialSource {
    /// Read from standard input.
    Stdin,
    /// Given on the command line or in the environment.
    Argument,
    /// The configuration file.
    ConfigFile,
    /// Nowhere: the login cannot go ahead.
    Missing,
}

/// Where the user name comes from: the argument where given, else the configuration file
/// where it exists.
pub fn username_source(given: bool, config_exists: bool) -> (res: CredentialSource)
    ensures
        res == if given {
            CredentialSource::Argument
        } else if config_exists {
            CredentialSource::ConfigFile
        } else {
            CredentialSource::Missing
        },
{
    if given {
        CredentialSource::Argument
    } else if config_exists {
        CredentialSource::ConfigFile
    } else {
        CredentialSource::Missing
    }
}

/// Where the password comes from: standard input when asked for (even beside an
/// argument), else the argument where given, else the configuration file where it exists.
pub fn password_source(from_stdin: bool, given: bool, config_exists: bool) -> (res: CredentialSource)
    ensures
        res == if from_stdin {
            CredentialSource::Stdin
        } else if given {
            CredentialSource::Argument
        } else if config_exists {
            CredentialSource::ConfigFile
        } else {
            CredentialSource::Missing
        },
{
    if from_stdin {
        CredentialSource::Stdin
    } else if given {
        CredentialSource::Argument
    } else if config_exists {
        CredentialSource::ConfigFile
    } else {
        CredentialSource::Missing
    }
}

} // verus!
