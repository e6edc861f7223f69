//! The authenticator's side of a login conversation: the password handed
//! over for one attempt, and what is told to the user when it fails.

use crate::secret::Secret;
use vstd::prelude::*;

verus! {

/// The state of the conversation with the authentication service for the
/// current attempt.
pub struct LockConversation {
    password: Option<Secret>,
    had_message: bool,
}

impl LockConversation {
    /// The password not yet handed to the service, if any.
    pub closed spec fn secret(&self) -> Option<Seq<u8>> {
        match self.password {
            Some(p) => Some(p@),
            None => None,
        }
    }

    /// Whether the service sent any text during this attempt.
    pub closed spec fn heard(&self) -> bool {
        self.had_message
    }

    pub fn new() -> (c: Self)
        ensures
            c.secret() is None,
            !c.heard(),
    {
        LockConversation { password: None, had_message: false }
    }

    /// Start an attempt with `password` (a password left from an earlier
    /// attempt is dropped, which wipes it); nothing has been heard yet.
    pub fn begin(&mut self, password: Secret)
        ensures
            final(self).secret() == Some(password@),
            !final(self).heard(),
    {
        self.password = Some(password);
        self.had_message = false;
    }

    /// The service asks for the secret (without echo): the password is
    /// handed over once; asked again, there is none and the service is to
    /// be refused.
    pub fn answer_secret(&mut self) -> (answer: Option<Secret>)
        ensures
            match answer {
                Some(p) => old(self).secret() == Some(p@),
                None => old(self).secret() is None,
            },
            final(self).secret() is None,
            final(self).heard() == old(self).heard(),
    {
        self.password.take()
    }

    /// The service sent information or an error text, which goes on to the
    /// lock screen.
    pub fn note_message(&mut self)
        ensures
            final(self).heard(),
            final(self).secret() == old(self).secret(),
    {
        self.had_message = true;
    }

    pub fn had_message(&self) -> (heard: bool)
        ensures
            heard == self.heard(),
    {
        self.had_message
    }
}

/// What a failed attempt tells the user when the service itself said
/// nothing: a refusal for too many tries means the account is locked.
pub fn failure_notice(had_message: bool, max_tries: bool) -> (notice: Option<&'static str>)
    ensures
        notice is Some <==> (!had_message && max_tries),
        notice matches Some(n) ==> n@ == "Account locked — too many failed attempts"@,
{
    if !had_message && max_tries {
        Some("Account locked — too many failed attempts")
    } else {
        None
    }
}

} // verus!
