//! How the proxy's TLS client checks the server's certificate.

use vstd::prelude::*;

verus! {

/// The certificate verifier used when the proxy runs in insecure mode: it
/// accepts every server certificate and every handshake signature. The TLS
/// library's verifier trait is implemented for it where the client is built.
#[derive(Clone, Copy, Debug, PartialEq, Eq, Structural)]
pub struct InsecureAuth;

/// Which verifier the TLS client uses: the web PKI root store, or
/// `InsecureAuth` in place of it.
#[derive(Clone, Copy, Debug, PartialEq, Eq, Structural)]
pub enum ServerCertCheck {
    WebPkiRoots,
    AcceptAny(InsecureAuth),
}

/// The verifier for the configured mode: insecure mode replaces the root
/// store check by `InsecureAuth`.
pub fn server_cert_check(insecure: bool) -> (check: ServerCertCheck)
    ensures
        check == (if insecure {
            ServerCertCheck::AcceptAny(InsecureAuth)
        } else {
            ServerCertCheck::WebPkiRoots
        }),
{
    if insecure {
        ServerCertCheck::AcceptAny(InsecureAuth)
    } else {
        ServerCertCheck::WebPkiRoots
    }
}

} // verus!
