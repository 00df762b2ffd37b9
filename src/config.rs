//! The server's configuration, read from a TOML document.

use vstd::prelude::*;

use crate::text::text;

verus! {

/// Whether `text` is a well-formed TOML document.
pub uninterp spec fn toml_accepts(text: Seq<char>) -> bool;

/// Relies on toml's `FromStr` for `toml::Table` (whether a document parses
/// depends on the text alone), then on `toml::map::Map::get` and
/// `toml::Value::as_str`: the text of the top-level string field `name`,
/// `None` when it is missing or not a string.
#[verifier::external_body]
fn toml_string_field(text: &str, name: &str) -> (r: Option<Option<String>>)
    ensures
        r is Some <==> toml_accepts(text@),
{
    match text.parse::<toml::Table>() {
        Ok(doc) => Some(doc.get(name).and_then(|v| v.as_str()).map(|s| s.to_string())),
        Err(_) => None,
    }
}

/// Where the server listens and the password that `AUTH` accepts.
pub struct RedustConfig {
    pub admin_password: String,
    pub address: String,
}

impl RedustConfig {
    /// A configuration from the fields found, with the defaults for those
    /// that are missing: password `password`, address `localhost:6969`.
    pub fn from_fields(password: Option<String>, address: Option<String>) -> (r: Self)
        ensures
            r.admin_password@ == match password {
                Some(p) => p@,
                None => "password"@,
            },
            r.address@ == match address {
                Some(a) => a@,
                None => "localhost:6969"@,
            },
    {
        let admin_password = match password {
            Some(p) => p,
            None => text("password"),
        };
        let address = match address {
            Some(a) => a,
            None => text("localhost:6969"),
        };
        RedustConfig { admin_password, address }
    }

    /// Reads the string fields `password` and `address` of a TOML document;
    /// `None` when the text is not TOML.
    pub fn from_toml(text: &str) -> (r: Option<Self>)
        ensures
            r is Some <==> toml_accepts(text@),
    {
        let password = match toml_string_field(text, "password") {
            Some(p) => p,
            None => return None,
        };
        let address = match toml_string_field(text, "address") {
            Some(a) => a,
            None => return None,
        };
        Some(RedustConfig::from_fields(password, address))
    }
}

} // verus!
