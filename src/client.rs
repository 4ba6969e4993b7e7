use vstd::prelude::*;

use crate::txn::TxnError;

verus! {

/// How a client reaches the cluster.
#[derive(Clone, Copy, Debug, PartialEq, Eq, Structural)]
pub enum Security {
    Plaintext,
    Tls,
}

/// Checks the connection settings before any connection is tried: at least
/// one endpoint, and the CA, certificate and key paths either all given
/// (TLS) or all absent (plaintext).
pub fn check_connect_settings(
    n_endpoints: usize,
    has_ca: bool,
    has_cert: bool,
    has_key: bool,
) -> (r: Result<Security, TxnError>)
    ensures
        n_endpoints == 0 ==> r == Err::<Security, TxnError>(TxnError::Connection),
        n_endpoints > 0 && has_ca && has_cert && has_key ==> r == Ok::<Security, TxnError>(
            Security::Tls,
        ),
        n_endpoints > 0 && !has_ca && !has_cert && !has_key ==> r == Ok::<Security, TxnError>(
            Security::Plaintext,
        ),
        !(has_ca == has_cert && has_cert == has_key) ==> r == Err::<Security, TxnError>(
            TxnError::Connection,
        ),
{
    if n_endpoints == 0 {
        return Err(TxnError::Connection);
    }
    if has_ca && has_cert && has_key {
        Ok(Security::Tls)
    } else if !has_ca && !has_cert && !has_key {
        Ok(Security::Plaintext)
    } else {
        Err(TxnError::Connection)
    }
}

} // verus!
