//! What the persistence gateway decides before it talks to the storage
//! engine: the settings of the connection and the statements it issues.

use crate::decimal::{parse_u16, unsigned_of};
use tokio_postgres::config::Host;
use tokio_postgres::Config;
use vstd::prelude::*;
use vstd::string::StringSliceAdditionalSpecFns;

verus! {

/// The port of the storage engine where none is configured.
pub const DEFAULT_PORT: u16 = 5432;

/// Creates the word table unless it is there already.
pub const SCHEMA_STATEMENT: &'static str =
    "CREATE TABLE IF NOT EXISTS words (id SERIAL PRIMARY KEY, word TEXT NOT NULL);";

/// Stores one word; its only parameter is the word.
pub const INSERT_STATEMENT: &'static str = "INSERT INTO words (word) VALUES ($1)";

/// Reads the first rows of the table; its only parameter is the limit.
pub const FIRST_PAGE_STATEMENT: &'static str = "SELECT id, word FROM words ORDER BY id ASC LIMIT $1";

/// Reads the first rows behind a cursor; its parameters are the cursor and
/// the limit.
pub const NEXT_PAGE_STATEMENT: &'static str =
    "SELECT id, word FROM words WHERE id > $1 ORDER BY id ASC LIMIT $2";

/// Settings that take precedence over those of the connection string, each
/// present or not. The port is held as the text it was given as.
#[derive(Debug, Clone)]
pub struct DbOverrides {
    pub host: Option<String>,
    pub port: Option<String>,
    pub dbname: Option<String>,
    pub user: Option<String>,
    pub password: Option<String>,
}

/// The settings that a connection is opened with.
#[derive(Debug, Clone)]
pub struct ConnectionSettings {
    pub hosts: Vec<String>,
    pub ports: Vec<u16>,
    pub dbname: Option<String>,
    pub user: Option<String>,
    pub password: Option<Vec<u8>>,
}

/// `DbOverrides` as mathematical values.
pub ghost struct OverridesView {
    pub host: Option<Seq<char>>,
    pub port: Option<Seq<char>>,
    pub dbname: Option<Seq<char>>,
    pub user: Option<Seq<char>>,
    pub password: Option<Seq<char>>,
}

/// `ConnectionSettings` as mathematical values.
pub ghost struct SettingsView {
    pub hosts: Seq<Seq<char>>,
    pub ports: Seq<u16>,
    pub dbname: Option<Seq<char>>,
    pub user: Option<Seq<char>>,
    pub password: Option<Seq<u8>>,
}

impl View for DbOverrides {
    type V = OverridesView;

    open spec fn view(&self) -> OverridesView {
        OverridesView {
            host: self.host.deep_view(),
            port: self.port.deep_view(),
            dbname: self.dbname.deep_view(),
            user: self.user.deep_view(),
            password: self.password.deep_view(),
        }
    }
}

impl View for ConnectionSettings {
    type V = SettingsView;

    open spec fn view(&self) -> SettingsView {
        SettingsView {
            hosts: self.hosts.deep_view(),
            ports: self.ports@,
            dbname: self.dbname.deep_view(),
            user: self.user.deep_view(),
            password: self.password.deep_view(),
        }
    }
}

/// Settings in which nothing is configured.
pub open spec fn no_settings() -> SettingsView {
    SettingsView {
        hosts: Seq::empty(),
        ports: Seq::empty(),
        dbname: None,
        user: None,
        password: None,
    }
}

/// The host of the storage engine where none is configured: the loopback
/// address.
pub open spec fn default_host() -> Seq<char> {
    "127.0.0.1"@
}

/// `over` where it is present, else `base`.
pub open spec fn preferring<T>(over: Option<T>, base: Option<T>) -> Option<T> {
    match over {
        Some(_) => over,
        None => base,
    }
}

/// The port that an override text names: none where the text is no
/// unsigned decimal number of 16 bits.
pub open spec fn override_port(text: Option<Seq<char>>) -> Option<u16> {
    match text {
        Some(t) => match unsigned_of(t, u16::MAX as nat) {
            Some(p) => Some(p as u16),
            None => None,
        },
        None => None,
    }
}

/// The settings in force where the connection string gave `parsed` (none
/// where it could not be read) and the overrides are `over`.
///
/// An override that is present wins over the connection string: an override
/// host or port becomes the only one, the other three replace theirs. A port
/// override that is no number is passed over. Where after that no host is
/// left the loopback address is taken, and where no port is left the
/// engine's usual one.
pub open spec fn resolved(parsed: Option<SettingsView>, over: OverridesView) -> SettingsView {
    let base = match parsed {
        Some(b) => b,
        None => no_settings(),
    };
    let hosts = match over.host {
        Some(h) => seq![h],
        None => base.hosts,
    };
    let ports = match override_port(over.port) {
        Some(p) => seq![p],
        None => base.ports,
    };
    SettingsView {
        hosts: if hosts.len() == 0 {
            seq![default_host()]
        } else {
            hosts
        },
        ports: if ports.len() == 0 {
            seq![DEFAULT_PORT]
        } else {
            ports
        },
        dbname: preferring(over.dbname, base.dbname),
        user: preferring(over.user, base.user),
        password: preferring(
            match over.password {
                Some(p) => Some(vstd::utf8::encode_utf8(p)),
                None => None,
            },
            base.password,
        ),
    }
}

/// What `tokio_postgres::Config` reads out of a connection string: none
/// where it rejects the text, else the hosts, ports, database name, user and
/// password that the text configures.
pub uninterp spec fn parsed_connection_string(text: Seq<char>) -> Option<SettingsView>;

/// Parses `text` with `tokio_postgres::Config::from_str` and reads the
/// hosts, ports, database name, user and password out of the result. Nothing
/// is claimed of what the parser accepts or finds, only that it depends on
/// the text alone.
#[verifier::external_body]
fn parse_connection_string(text: &str) -> (r: Option<ConnectionSettings>)
    ensures
        r.deep_view() == parsed_connection_string(text@),
{
    match text.parse::<Config>() {
        Ok(c) => Some(ConnectionSettings {
            hosts: c.get_hosts().iter().map(|h| match h {
                Host::Tcp(name) => name.clone(),
                Host::Unix(dir) => dir.to_string_lossy().into_owned(),
            }).collect(),
            ports: c.get_ports().to_vec(),
            dbname: c.get_dbname().map(str::to_owned),
            user: c.get_user().map(str::to_owned),
            password: c.get_password().map(<[u8]>::to_vec),
        }),
        Err(_) => None,
    }
}

impl DeepView for ConnectionSettings {
    type V = SettingsView;

    open spec fn deep_view(&self) -> SettingsView {
        self@
    }
}

/// A vector that holds `item` alone.
fn single<T>(item: T) -> (v: Vec<T>)
    ensures
        v@ == seq![item],
{
    let mut v: Vec<T> = Vec::new();
    v.push(item);
    v
}

/// Applies the overrides and the defaults to what the connection string
/// gave.
pub fn resolve_settings(parsed: Option<ConnectionSettings>, overrides: &DbOverrides) -> (s:
    ConnectionSettings)
    ensures
        s@ == resolved(parsed.deep_view(), overrides@),
{
    let base = match parsed {
        Some(b) => b,
        None => ConnectionSettings {
            hosts: Vec::new(),
            ports: Vec::new(),
            dbname: None,
            user: None,
            password: None,
        },
    };
    let ghost base_view = base@;
    assert(base_view == match parsed.deep_view() {
        Some(b) => b,
        None => no_settings(),
    }) by {
        if parsed is None {
            assert(base.hosts.deep_view() == Seq::<Seq<char>>::empty());
        }
    }
    let ConnectionSettings { hosts, ports, dbname, user, password } = base;
    let mut hosts = match &overrides.host {
        Some(h) => {
            let v = single(h.clone());
            assert(v.deep_view() == seq![h@]);
            v
        },
        None => hosts,
    };
    if hosts.len() == 0 {
        let loopback = "127.0.0.1".to_owned();
        hosts = single(loopback);
        assert(hosts.deep_view() == seq![default_host()]);
    }
    let port = match &overrides.port {
        Some(t) => parse_u16(t.as_str()),
        None => None,
    };
    let mut ports = match port {
        Some(p) => single(p),
        None => ports,
    };
    if ports.len() == 0 {
        ports = single(DEFAULT_PORT);
    }
    let dbname = match &overrides.dbname {
        Some(d) => Some(d.clone()),
        None => dbname,
    };
    let user = match &overrides.user {
        Some(u) => Some(u.clone()),
        None => user,
    };
    let password = match &overrides.password {
        Some(p) => {
            let bytes = p.as_str().as_bytes_vec();
            assert(bytes.deep_view() == bytes@);
            Some(bytes)
        },
        None => password,
    };
    ConnectionSettings { hosts, ports, dbname, user, password }
}

/// The settings that a connection to `database_url` is opened with under
/// `overrides`: what the connection string configures, then the overrides,
/// then the defaults. A connection string that cannot be read counts as one
/// that configures nothing.
pub fn connection_settings(database_url: &str, overrides: &DbOverrides) -> (s: ConnectionSettings)
    ensures
        s@ == resolved(parsed_connection_string(database_url@), overrides@),
{
    resolve_settings(parse_connection_string(database_url), overrides)
}

/// The statement that reads the page behind `cursor`: the one with a lower
/// bound on the id where there is a cursor, the one without where there is
/// none.
pub fn page_statement(cursor: Option<i32>) -> (sql: &'static str)
    ensures
        sql@ == (if cursor is Some {
            NEXT_PAGE_STATEMENT@
        } else {
            FIRST_PAGE_STATEMENT@
        }),
{
    match cursor {
        Some(_) => NEXT_PAGE_STATEMENT,
        None => FIRST_PAGE_STATEMENT,
    }
}

} // verus!
