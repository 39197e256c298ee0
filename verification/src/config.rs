use crate::text::decimal;
use crate::text::decimal_string;
use vstd::prelude::*;
use vstd::string::StringExecFns;

verus! {

/// The environment variable that names the configuration file.
pub const DEFAULT_CONFIG_ENV_VAR: &'static str = "LOOM_CONFIG_FILE";

/// Where the configuration is read from when nothing else names a file.
pub const DEFAULT_CONFIG_FILE_PATH: &'static str = "/etc/loom/config.toml";

/// The port of the persistence store when none is configured.
pub const DEFAULT_REDIS_PORT: u16 = 6379;

/// The database of the persistence store when none is configured.
pub const DEFAULT_REDIS_DATABASE: u16 = 0;

#[derive(Debug, Clone)]
pub struct Config {
    pub server: Server,
    pub cache: Cache,
    pub consumer: ConsumerKind,
    pub market: Market,
}

#[derive(Debug, Clone)]
pub struct Server {
    pub port: Option<u16>,
}

#[derive(Debug, Clone)]
pub struct Cache {
    pub backend: Option<CacheBackend>,
    pub redis: RedisCache,
}

#[derive(Debug, Clone, Copy, PartialEq, Eq, Structural)]
pub enum CacheBackend {
    Redis,
}

#[derive(Debug, Clone)]
pub struct RedisCache {
    pub host: String,
    pub port: Option<u16>,
    pub database: Option<u16>,
    pub username: Option<String>,
    pub password: Option<String>,
}

/// Where the trade batches go.
#[derive(Debug, Clone, Copy, PartialEq, Eq, Structural)]
pub enum ConsumerKind {
    Console,
    Redis,
}

#[derive(Debug, Clone)]
pub struct Market {
    pub symbols: Option<Vec<String>>,
}

impl Config {
    /// The file that holds the configuration: the one asked for, else the one
    /// that the environment names, else the default path.
    pub open spec fn chosen_path(file: Option<Seq<char>>, env: Option<Seq<char>>) -> Seq<char> {
        match file {
            Some(path) => path,
            None => match env {
                Some(path) => path,
                None => DEFAULT_CONFIG_FILE_PATH@,
            },
        }
    }

    /// Picks the configuration file from what the caller asked for and what
    /// the environment variable `DEFAULT_CONFIG_ENV_VAR` holds.
    pub fn config_path(file: Option<&str>, env: Option<String>) -> (path: String)
        ensures
            path@ == Self::chosen_path(
                match file {
                    Some(p) => Some(p@),
                    None => None,
                },
                match env {
                    Some(p) => Some(p@),
                    None => None,
                },
            ),
    {
        match file {
            Some(path) => String::from_str(path),
            None => match env {
                Some(path) => path,
                None => String::from_str(DEFAULT_CONFIG_FILE_PATH),
            },
        }
    }
}

impl RedisCache {
    /// The address of the store: `redis://<host>:<port>/<database>`.
    pub open spec fn uri(self) -> Seq<char> {
        let port = match self.port {
            Some(p) => p,
            None => DEFAULT_REDIS_PORT,
        };
        let db = match self.database {
            Some(d) => d,
            None => DEFAULT_REDIS_DATABASE,
        };
        "redis://"@ + self.host@ + ":"@ + decimal(port as nat) + "/"@ + decimal(db as nat)
    }

    /// The address of the store, with port 6379 and database 0 where the
    /// configuration names none.
    pub fn to_redis_uri(&self) -> (s: String)
        ensures
            s@ == self.uri(),
    {
        let port = match self.port {
            Some(p) => p,
            None => DEFAULT_REDIS_PORT,
        };
        let db = match self.database {
            Some(d) => d,
            None => DEFAULT_REDIS_DATABASE,
        };
        let mut s = String::from_str("redis://");
        s.append(self.host.as_str());
        s.append(":");
        s.append(decimal_string(port as u128).as_str());
        s.append("/");
        s.append(decimal_string(db as u128).as_str());
        s
    }
}

} // verus!
