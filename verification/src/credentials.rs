//! How the credential of an account is obtained.

use crate::crypto::{secret_in, Crypto, CryptoError, CryptoFault};
use crate::types::AccountRow;
use vstd::prelude::*;

verus! {

/// A way to obtain the credential of an account.
pub trait CredentialStrategy {
    /// The name of the strategy.
    fn name(&self) -> (r: &'static str);

    /// The credential to send upstream for an account.
    fn credential(&self, account: &AccountRow) -> (r: Result<String, CryptoError>);
}

/// A static key that is stored encrypted.
pub struct StaticKeyStrategy {
    crypto: Crypto,
}

impl View for StaticKeyStrategy {
    type V = Seq<u8>;

    /// The key that the credentials are encrypted under.
    closed spec fn view(&self) -> Seq<u8> {
        self.crypto@
    }
}

impl StaticKeyStrategy {
    pub fn new(crypto: Crypto) -> (r: Self)
        ensures
            r@ == crypto@,
    {
        StaticKeyStrategy { crypto }
    }
}

impl CredentialStrategy for StaticKeyStrategy {
    fn name(&self) -> (r: &'static str)
        ensures
            r@ == "static_api_key"@,
    {
        "static_api_key"
    }

    /// The stored secret, decrypted.
    fn credential(&self, account: &AccountRow) -> (r: Result<String, CryptoError>)
        ensures
            match r {
                Ok(s) => secret_in(self@, account.secret_enc@) == Ok::<Seq<char>, CryptoFault>(s@),
                Err(e) => secret_in(self@, account.secret_enc@) == Err::<Seq<char>, CryptoFault>(
                    e@,
                ),
            },
    {
        self.crypto.decrypt(account.secret_enc.as_str())
    }
}

} // verus!
