use vstd::prelude::*;

verus! {

/// How many records one persistence unit holds when the caller asks for no
/// other size.
pub const DEFAULT_CHUNK_SIZE: usize = 100;

/// Store connection settings, resolved once at startup and passed along to
/// whatever needs them; nothing later reads the process environment.
#[derive(Debug)]
pub struct Config {
    pub user: String,
    pub dbname: String,
    pub host: String,
    pub password: String,
}

#[derive(Debug, PartialEq, Eq)]
pub enum ConfigError {
    /// A required environment variable was absent; `name` says which.
    MissingVar { name: String },
    /// The requested chunk size was not a positive integer.
    InvalidChunkSize,
}

/// The name of the first required variable, in canonical order, that the
/// environment did not supply.
pub open spec fn missing_var_name(
    user: Option<String>,
    dbname: Option<String>,
    host: Option<String>,
    password: Option<String>,
) -> Seq<char> {
    if user is None {
        "POSTGRES_USER"@
    } else if dbname is None {
        "POSTGRES_DB"@
    } else if host is None {
        "POSTGRES_HOST"@
    } else {
        "POSTGRES_PASSWORD"@
    }
}

/// Builds the configuration from the four required environment values, or
/// names the first one that is missing; succeeds exactly when all four are
/// present.
pub fn resolve_config(
    user: Option<String>,
    dbname: Option<String>,
    host: Option<String>,
    password: Option<String>,
) -> (r: Result<Config, ConfigError>)
    ensures
        r is Ok <==> (user is Some && dbname is Some && host is Some && password is Some),
        r matches Ok(c) ==> c.user == user->0 && c.dbname == dbname->0 && c.host == host->0
            && c.password == password->0,
        r matches Err(e) ==> e matches ConfigError::MissingVar { name } && name@
            == missing_var_name(user, dbname, host, password),
{
    let user = match user {
        Some(v) => v,
        None => {
            return Err(ConfigError::MissingVar { name: String::from_str("POSTGRES_USER") });
        },
    };
    let dbname = match dbname {
        Some(v) => v,
        None => {
            return Err(ConfigError::MissingVar { name: String::from_str("POSTGRES_DB") });
        },
    };
    let host = match host {
        Some(v) => v,
        None => {
            return Err(ConfigError::MissingVar { name: String::from_str("POSTGRES_HOST") });
        },
    };
    let password = match password {
        Some(v) => v,
        None => {
            return Err(ConfigError::MissingVar { name: String::from_str("POSTGRES_PASSWORD") });
        },
    };
    Ok(Config { user, dbname, host, password })
}

/// The chunk size a run uses: the caller's positive request, or the default
/// when none was made; zero is refused.
pub fn resolve_chunk_size(requested: Option<usize>) -> (r: Result<usize, ConfigError>)
    ensures
        requested is None ==> r == Ok::<usize, ConfigError>(DEFAULT_CHUNK_SIZE),
        requested matches Some(n) ==> r == (if n >= 1 {
            Ok::<usize, ConfigError>(n)
        } else {
            Err::<usize, ConfigError>(ConfigError::InvalidChunkSize)
        }),
        r matches Ok(n) ==> n >= 1,
{
    match requested {
        None => Ok(DEFAULT_CHUNK_SIZE),
        Some(n) => {
            if n == 0 {
                Err(ConfigError::InvalidChunkSize)
            } else {
                Ok(n)
            }
        },
    }
}

impl Config {
    /// The keyword/value connection text the store client expects, holding
    /// exactly the four resolved settings.
    pub fn connection_string(&self) -> (r: String)
        ensures
            r@ == "user="@ + self.user@ + " host="@ + self.host@ + " password="@ + self.password@
                + " dbname="@ + self.dbname@,
    {
        let mut s = String::from_str("user=");
        s.append(self.user.as_str());
        s.append(" host=");
        s.append(self.host.as_str());
        s.append(" password=");
        s.append(self.password.as_str());
        s.append(" dbname=");
        s.append(self.dbname.as_str());
        s
    }
}

} // verus!
