//! Secret texts, kept in `secrecy::SecretString` so that they are wiped when
//! dropped and left out of debug output.

use vstd::prelude::*;

verus! {

/// A secret text. Its content is held by `secrecy::SecretString`, which
/// Verus does not look into.
#[verifier::external_body]
#[derive(Debug)]
pub struct SecretText {
    inner: secrecy::SecretString,
}

/// The text that a secret holds.
pub uninterp spec fn secret_text(s: SecretText) -> Seq<char>;

/// Calls `secrecy::Secret::new`. Trusted: the secret holds `value`.
#[verifier::external_body]
fn wrap(value: String) -> (r: SecretText)
    ensures
        secret_text(r) == value@,
{
    SecretText { inner: secrecy::Secret::new(value) }
}

/// Calls `secrecy::ExposeSecret::expose_secret`. Trusted: what comes out is
/// the text that the secret holds.
#[verifier::external_body]
fn exposed(s: &SecretText) -> (r: &str)
    ensures
        r@ == secret_text(*s),
{
    secrecy::ExposeSecret::expose_secret(&s.inner).as_str()
}

impl SecretText {
    /// Makes `value` a secret.
    pub fn new(value: String) -> (r: SecretText)
        ensures
            secret_text(r) == value@,
    {
        wrap(value)
    }

    /// The secret text itself, for the one who has to use it.
    pub fn expose(&self) -> (r: &str)
        ensures
            r@ == secret_text(*self),
    {
        exposed(self)
    }
}

} // verus!
