//! The credential of the mail account: held in memory for the login alone,
//! never rendered, and overwritten when it is let go.

use vstd::prelude::*;

verus! {

/// Overwrites a string with zeros and empties it (`Zeroize::zeroize` of the
/// zeroize crate, on a `String`): afterwards the string holds no character.
/// The call does not unwind: the sizes it checks are those of a live
/// allocation. That the memory itself was overwritten is not stated here.
#[verifier::external_body]
fn zeroize_string(s: &mut String)
    ensures
        final(s)@ == Seq::<char>::empty(),
    opens_invariants none
    no_unwind
{
    zeroize::Zeroize::zeroize(s)
}

/// The secret of the mail account. It has no rendering but `redacted`, and
/// its memory is overwritten when the value is dropped.
pub struct Credential {
    secret: String,
}

impl Credential {
    /// The secret text.
    pub closed spec fn view(&self) -> Seq<char> {
        self.secret@
    }

    /// Takes charge of `secret`.
    pub fn new(secret: String) -> (c: Credential)
        ensures
            c@ == secret@,
    {
        Credential { secret }
    }

    /// The secret itself, for the login.
    pub fn expose(&self) -> (secret: &str)
        ensures
            secret@ == self@,
    {
        self.secret.as_str()
    }

    /// What stands for the credential wherever it would be shown: a fixed
    /// text, whatever the secret is.
    pub fn redacted(&self) -> (shown: String)
        ensures
            shown@ == "<password>"@,
    {
        "<password>".to_owned()
    }

    /// Overwrites the secret; the credential is empty afterwards.
    pub fn wipe(&mut self)
        ensures
            final(self)@ == Seq::<char>::empty(),
    {
        zeroize_string(&mut self.secret);
    }
}

impl Default for Credential {
    /// The empty credential.
    fn default() -> (c: Credential)
        ensures
            c@ == Seq::<char>::empty(),
    {
        Credential { secret: String::new() }
    }
}

impl Drop for Credential {
    /// Overwrites the secret before its memory is given back.
    fn drop(&mut self)
        opens_invariants none
        no_unwind
    {
        zeroize_string(&mut self.secret);
    }
}

} // verus!
