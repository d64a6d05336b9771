//! Where the store is: the address that the service is given at startup and
//! from which it opens its connections.

use vstd::prelude::*;
use vstd::string::StringExecFns;

verus! {

/// The address of the store and the credentials for it. A part that is
/// empty is left out of the address. The address is not printable, so that
/// the password does not end up in a log.
#[derive(PartialEq, Eq)]
pub struct StoreAddress {
    pub username: String,
    pub password: String,
    pub host: String,
    pub port: String,
    pub database: String,
}

/// A part of an address behind its separator, or nothing where the part
/// is empty.
pub open spec fn behind(separator: Seq<char>, part: Seq<char>) -> Seq<char> {
    if part.len() == 0 {
        Seq::<char>::empty()
    } else {
        separator + part
    }
}

/// The address as a URL: the user name, the password behind a colon, then
/// behind an `@` the host, the port behind a colon and the database behind
/// a slash.
pub open spec fn url_of(
    username: Seq<char>,
    password: Seq<char>,
    host: Seq<char>,
    port: Seq<char>,
    database: Seq<char>,
) -> Seq<char> {
    "postgres://"@ + username + behind(":"@, password) + "@"@ + host + behind(":"@, port) + behind(
        "/"@,
        database,
    )
}

/// Appends a part behind its separator, or nothing where the part is
/// empty.
fn push_behind(text: &mut String, separator: &str, part: &str)
    ensures
        final(text)@ == old(text)@ + behind(separator@, part@),
{
    if !part.is_empty() {
        text.append(separator);
        text.append(part);
    }
    assert(text@ =~= old(text)@ + behind(separator@, part@));
}

impl StoreAddress {
    /// The URL under which the store is reached.
    pub fn url(&self) -> (url: String)
        ensures
            url@ == url_of(
                self.username@,
                self.password@,
                self.host@,
                self.port@,
                self.database@,
            ),
    {
        let mut url = String::from_str("postgres://");
        url.append(self.username.as_str());
        push_behind(&mut url, ":", self.password.as_str());
        url.append("@");
        url.append(self.host.as_str());
        push_behind(&mut url, ":", self.port.as_str());
        push_behind(&mut url, "/", self.database.as_str());
        url
    }
}

} // verus!
