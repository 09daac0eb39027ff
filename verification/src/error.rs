//! The kinds of failure of a run.

use vstd::prelude::*;

verus! {

/// Why a run failed. A kind carries no text of its own, so nothing of the
/// account or its credential can reach a message.
#[derive(Clone, Copy, PartialEq, Eq, Structural, Debug)]
pub enum ErrorKind {
    /// The settings are missing or malformed.
    ConfigError,
    /// The server could not be reached, or the encrypted channel could not
    /// be set up with it.
    ConnectionFailed,
    /// The server refused the account or its credential.
    AuthenticationFailed,
    /// The mailbox is missing or cannot be opened.
    MailboxUnavailable,
    /// The search was refused or its answer could not be read.
    SearchFailed,
    /// One message could not be fetched.
    FetchFailed,
    /// The output could not be written.
    IOError,
}

impl ErrorKind {
    /// The text of the message for this kind.
    pub open spec fn message_text(self) -> Seq<char> {
        match self {
            ErrorKind::ConfigError => "the settings are missing or malformed"@,
            ErrorKind::ConnectionFailed => "the connection to the mail server failed"@,
            ErrorKind::AuthenticationFailed => "the mail server refused the login"@,
            ErrorKind::MailboxUnavailable => "the mailbox cannot be opened"@,
            ErrorKind::SearchFailed => "the search failed"@,
            ErrorKind::FetchFailed => "a message could not be fetched"@,
            ErrorKind::IOError => "the output could not be written"@,
        }
    }

    /// A message for the operator.
    pub fn message(self) -> (text: String)
        ensures
            text@ == self.message_text(),
    {
        match self {
            ErrorKind::ConfigError => "the settings are missing or malformed".to_owned(),
            ErrorKind::ConnectionFailed => "the connection to the mail server failed".to_owned(),
            ErrorKind::AuthenticationFailed => "the mail server refused the login".to_owned(),
            ErrorKind::MailboxUnavailable => "the mailbox cannot be opened".to_owned(),
            ErrorKind::SearchFailed => "the search failed".to_owned(),
            ErrorKind::FetchFailed => "a message could not be fetched".to_owned(),
            ErrorKind::IOError => "the output could not be written".to_owned(),
        }
    }
}

} // verus!
