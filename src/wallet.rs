//! Choice of the key that signs a deployment transaction.
use vstd::prelude::*;

verus! {

/// How the signing key of a transaction is chosen.
#[derive(Debug, PartialEq, Eq)]
pub enum WalletSelectionMode {
    /// Sign with an account of the local wallet; holds the wallet's password.
    ForcWallet(String),
    /// Sign with a key given on the command line, or by hand.
    Manual,
}

} // verus!
