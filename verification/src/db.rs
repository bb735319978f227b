//! Relational-store connection settings. Connecting itself is I/O the
//! surrounding application performs; the library only assembles the
//! settings and the connection URL.

use vstd::prelude::*;

use vstd::string::{StrSliceExecFns, StringExecFns};

use crate::strings::{dec_of, push_dec};

verus! {

/// PostgreSQL connection settings.
#[derive(Clone, Debug)]
pub struct PostgresOptions {
    /// Database name.
    pub db: String,
    /// Database host.
    pub host: String,
    /// Database port.
    pub port: u16,
    /// Database user.
    pub user: String,
    /// Database password.
    pub password: String,
    /// Max connections (connection pool).
    pub max_connections: u32,
}

/// The URL `connection_url` assembles.
pub open spec fn connection_url_spec(o: PostgresOptions) -> Seq<char> {
    "postgresql://"@ + o.user@ + ":"@ + o.password@ + "@"@ + o.host@ + ":"@ + dec_of(
        o.port as nat,
    ) + "/"@ + o.db@
}

impl PostgresOptions {
    /// The connection URL these settings describe.
    pub fn connection_url(&self) -> (r: String)
        ensures
            r@ == connection_url_spec(*self),
    {
        let mut url = String::new();
        url.append("postgresql://");
        url.append(self.user.as_str());
        url.append(":");
        url.append(self.password.as_str());
        url.append("@");
        url.append(self.host.as_str());
        url.append(":");
        push_dec(self.port as u64, &mut url);
        url.append("/");
        url.append(self.db.as_str());
        proof {
            assert(url@ =~= connection_url_spec(*self));
        }
        url
    }

    /// Replaces the database name.
    pub fn set_db(&mut self, postgres_db: &str)
        ensures
            final(self).db@ == postgres_db@,
            final(self).host == old(self).host,
            final(self).port == old(self).port,
            final(self).user == old(self).user,
            final(self).password == old(self).password,
            final(self).max_connections == old(self).max_connections,
    {
        self.db = postgres_db.to_owned();
    }

    /// The database name.
    pub fn db(&self) -> (r: String)
        ensures
            r@ == self.db@,
    {
        self.db.clone()
    }

    /// Replaces the connection-pool size.
    pub fn set_max_connections(&mut self, max_connections: u32)
        ensures
            final(self).max_connections == max_connections,
            final(self).db == old(self).db,
            final(self).host == old(self).host,
            final(self).port == old(self).port,
            final(self).user == old(self).user,
            final(self).password == old(self).password,
    {
        self.max_connections = max_connections;
    }

    /// The connection-pool size.
    pub fn max_connections(&self) -> (r: u32)
        ensures
            r == self.max_connections,
    {
        self.max_connections
    }
}

/// Connection settings of the relational store.
#[derive(Clone, Debug)]
pub struct DatabaseOptions {
    pub postgres: PostgresOptions,
}

/// The relational store itself; connecting is left to the application.
pub struct Database;

} // verus!
