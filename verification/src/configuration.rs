//! The database connection settings.

use vstd::prelude::*;
use crate::text::{decimal, push_decimal, lemma_decimal_injective};

verus! {

/// Where and as whom to connect to the database.
#[derive(Debug)]
pub struct DatabaseSettings {
    pub username: String,
    pub password: String,
    pub port: u16,
    pub host: String,
    pub database_name: String,
}

/// `host=<host> port=<port> dbname=<database> user=<user> password=<password>`
pub open spec fn connection_text(
    host: Seq<char>,
    port: u16,
    database_name: Seq<char>,
    username: Seq<char>,
    password: Seq<char>,
) -> Seq<char> {
    "host="@ + host + " port="@ + decimal(port as nat) + " dbname="@ + database_name + " user="@
        + username + " password="@ + password
}

/// The settings used when no configuration could be read: user
/// `rhd_admin` with password `password` on the database `rhd` at
/// `localhost:5432`.
pub open spec fn is_fallback(s: DatabaseSettings) -> bool {
    &&& s.username@ == "rhd_admin"@
    &&& s.password@ == "password"@
    &&& s.port == 5432
    &&& s.host@ == "localhost"@
    &&& s.database_name@ == "rhd"@
}

impl DatabaseSettings {
    /// The connection string of these settings (see [`connection_text`]).
    pub fn get_connection_string(&self) -> (s: String)
        ensures
            s@ == connection_text(
                self.host@,
                self.port,
                self.database_name@,
                self.username@,
                self.password@,
            ),
    {
        let mut s = String::new();
        s.append("host=");
        s.append(self.host.as_str());
        s.append(" port=");
        push_decimal(&mut s, self.port as u32);
        s.append(" dbname=");
        s.append(self.database_name.as_str());
        s.append(" user=");
        s.append(self.username.as_str());
        s.append(" password=");
        s.append(self.password.as_str());
        s
    }

    /// The settings used when no configuration could be read (see
    /// [`is_fallback`]).
    pub fn fallback() -> (s: DatabaseSettings)
        ensures
            is_fallback(s),
    {
        DatabaseSettings {
            password: String::from_str("password"),
            port: 5432,
            host: String::from_str("localhost"),
            username: String::from_str("rhd_admin"),
            database_name: String::from_str("rhd"),
        }
    }

    /// The settings that were read, or the fallback ones when none could be
    /// read.
    pub fn or_fallback(read: Option<DatabaseSettings>) -> (s: DatabaseSettings)
        ensures
            match read {
                Some(r) => s == r,
                None => is_fallback(s),
            },
    {
        match read {
            Some(r) => r,
            None => DatabaseSettings::fallback(),
        }
    }
}

/// The connection string names the port: settings that differ only in
/// their port give different connection strings.
pub proof fn lemma_port_is_used(
    host: Seq<char>,
    port1: u16,
    port2: u16,
    database_name: Seq<char>,
    username: Seq<char>,
    password: Seq<char>,
)
    requires
        port1 != port2,
    ensures
        connection_text(host, port1, database_name, username, password) != connection_text(
            host,
            port2,
            database_name,
            username,
            password,
        ),
{
    let pre = "host="@ + host + " port="@;
    let post = " dbname="@ + database_name + " user="@ + username + " password="@ + password;
    let c1 = connection_text(host, port1, database_name, username, password);
    let c2 = connection_text(host, port2, database_name, username, password);
    assert(c1 =~= pre + decimal(port1 as nat) + post);
    assert(c2 =~= pre + decimal(port2 as nat) + post);
    if c1 == c2 {
        let d1 = decimal(port1 as nat);
        let d2 = decimal(port2 as nat);
        assert(c1.len() == c2.len());
        assert(d1.len() == d2.len());
        assert(d1 =~= c1.subrange(pre.len() as int, (pre.len() + d1.len()) as int));
        assert(d2 =~= c2.subrange(pre.len() as int, (pre.len() + d2.len()) as int));
        lemma_decimal_injective(port1 as nat, port2 as nat);
    }
}

} // verus!
