//! A TLS server name together with the text it was parsed from. The fields
//! are private to this module, so a value can only come from parsing that
//! very text.

use vstd::prelude::*;
use rustls_pki_types::{InvalidDnsNameError, ServerName};

verus! {

#[verifier::external_type_specification]
#[verifier::external_body]
pub struct ExServerName<'a>(ServerName<'a>);

#[verifier::external_type_specification]
#[verifier::external_body]
pub struct ExInvalidDnsNameError(InvalidDnsNameError);

/// Whether `rustls_pki_types::ServerName::try_from` accepts the text as a
/// server name: as a DNS name, or else as an IP address.
pub uninterp spec fn server_name_accepted(hostname: Seq<char>) -> bool;

/// A server name parsed from a host name.
pub struct CheckedServerName<'a> {
    name: ServerName<'a>,
    source: Ghost<Seq<char>>,
}

impl<'a> CheckedServerName<'a> {
    /// The text that the name was parsed from.
    pub closed spec fn spec_source(&self) -> Seq<char> {
        self.source@
    }

    /// The parsed server name.
    pub fn into_name(self) -> ServerName<'a> {
        self.name
    }
}

/// `<rustls_pki_types::ServerName as TryFrom<&str>>::try_from`: parses the
/// text as a DNS name or, failing that, as an IP address. Whether it
/// succeeds depends on the text alone; which texts it accepts is left to
/// the name `server_name_accepted`. A parsed name is kept with the text it
/// came from.
#[verifier::external_body]
pub fn server_name_of<'a>(hostname: &'a str) -> (name: Result<CheckedServerName<'a>, InvalidDnsNameError>)
    ensures
        name is Ok <==> server_name_accepted(hostname@),
        name matches Ok(n) ==> n.spec_source() == hostname@,
{
    match ServerName::try_from(hostname) {
        Ok(name) => Ok(CheckedServerName { name, source: Ghost(hostname@) }),
        Err(err) => Err(err),
    }
}

} // verus!
