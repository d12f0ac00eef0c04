//! The bot's static configuration: operator chat ids and the chat
//! transport's endpoint and credential. Reading the configuration file and
//! deserializing it is the runtime shell's job; this is the shape the core
//! works with.

use vstd::prelude::*;

verus! {

/// Chat-transport settings.
pub struct Telegram {
    pub api_server: Option<String>,
    pub api_key: String,
}

impl Telegram {
    pub fn new(api_server: Option<String>, api_key: String) -> (r: Telegram)
        ensures
            r.api_server == api_server,
            r.api_key == api_key,
    {
        Telegram { api_server, api_key }
    }

    /// The transport credential.
    pub fn api_key(&self) -> (r: &str)
        ensures
            r@ == self.api_key@,
    {
        self.api_key.as_str()
    }

    /// An alternative endpoint, when configured.
    pub fn api_server(&self) -> (r: Option<&String>)
        ensures
            match r {
                Some(s) => self.api_server matches Some(v) && v == *s,
                None => self.api_server is None,
            },
    {
        self.api_server.as_ref()
    }
}

/// The whole configuration.
pub struct Config {
    pub admin: Vec<i64>,
    pub telegram: Telegram,
}

impl Config {
    pub fn new(admin: Vec<i64>, telegram: Telegram) -> (r: Config)
        ensures
            r.admin == admin,
            r.telegram == telegram,
    {
        Config { admin, telegram }
    }

    /// The chat-transport settings.
    pub fn telegram(&self) -> (r: &Telegram)
        ensures
            *r == self.telegram,
    {
        &self.telegram
    }

    /// The operator chat ids.
    pub fn admin(&self) -> (r: &[i64])
        ensures
            r@ == self.admin@,
    {
        self.admin.as_slice()
    }
}

} // verus!
