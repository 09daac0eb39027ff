//! The settings of a run.

use crate::error::ErrorKind;
use crate::secret::Credential;
use crate::text::strings;
use vstd::prelude::*;

verus! {

/// The settings of a run as a mathematical value. The credential is no part
/// of it.
pub struct SettingsView {
    /// The name of the mail server.
    pub domain: Seq<char>,
    /// The account at the server.
    pub account: Seq<char>,
    /// The subject that is searched for.
    pub subject: Seq<char>,
    /// The names of the fields, in the order of the columns.
    pub fields: Seq<Seq<char>>,
    /// What stands between two cells of a row.
    pub delimiter: Seq<char>,
    /// Where the table goes.
    pub output: Seq<char>,
}

/// The delimiter that is used where none is given.
pub open spec fn default_delimiter() -> Seq<char> {
    seq![',']
}

/// The settings of a run. There is at least one field.
pub struct Settings {
    domain: String,
    account: String,
    credential: Credential,
    subject: String,
    fields: Vec<String>,
    delimiter: String,
    output: String,
}

impl Settings {
    #[verifier::type_invariant]
    spec fn well_formed(&self) -> bool {
        self.fields.len() > 0
    }

    /// The settings as a mathematical value.
    pub closed spec fn view(&self) -> SettingsView {
        SettingsView {
            domain: self.domain@,
            account: self.account@,
            subject: self.subject@,
            fields: strings(self.fields@),
            delimiter: self.delimiter@,
            output: self.output@,
        }
    }

    /// The secret that these settings hold.
    pub closed spec fn secret(&self) -> Seq<char> {
        self.credential@
    }

    /// Settings with the given values and an empty credential. Without a
    /// delimiter the comma is taken. Settings without a field are refused
    /// with `ConfigError`.
    pub fn new(
        domain: String,
        account: String,
        subject: String,
        fields: Vec<String>,
        delimiter: Option<String>,
        output: String,
    ) -> (result: Result<Settings, ErrorKind>)
        ensures
            fields.len() == 0 <==> result is Err,
            result is Err ==> result == Err::<Settings, ErrorKind>(ErrorKind::ConfigError),
            result is Ok ==> result->Ok_0@ == (SettingsView {
                domain: domain@,
                account: account@,
                subject: subject@,
                fields: strings(fields@),
                delimiter: match delimiter {
                    Some(d) => d@,
                    None => default_delimiter(),
                },
                output: output@,
            }) && result->Ok_0.secret() == Seq::<char>::empty(),
    {
        if fields.len() == 0 {
            return Err(ErrorKind::ConfigError);
        }
        let delimiter = match delimiter {
            Some(d) => d,
            None => {
                proof {
                    reveal_strlit(",");
                }
                assert(","@ =~= default_delimiter());
                ",".to_owned()
            },
        };
        Ok(
            Settings {
                domain,
                account,
                credential: Credential::default(),
                subject,
                fields,
                delimiter,
                output,
            },
        )
    }

    /// The same settings with `credential` in place of the one they held.
    pub fn with_credential(self, credential: Credential) -> (next: Settings)
        ensures
            next@ == self@,
            next.secret() == credential@,
    {
        proof {
            use_type_invariant(&self);
        }
        let Settings { domain, account, credential: _, subject, fields, delimiter, output } = self;
        Settings { domain, account, credential, subject, fields, delimiter, output }
    }

    /// The name of the mail server.
    pub fn domain(&self) -> (domain: &str)
        ensures
            domain@ == self@.domain,
    {
        self.domain.as_str()
    }

    /// The account at the server.
    pub fn account(&self) -> (account: &str)
        ensures
            account@ == self@.account,
    {
        self.account.as_str()
    }

    /// The credential of the account.
    pub fn credential(&self) -> (credential: &Credential)
        ensures
            credential@ == self.secret(),
    {
        &self.credential
    }

    /// The subject that is searched for.
    pub fn subject(&self) -> (subject: &str)
        ensures
            subject@ == self@.subject,
    {
        self.subject.as_str()
    }

    /// The names of the fields, in the order of the columns; at least one.
    pub fn fields(&self) -> (fields: &Vec<String>)
        ensures
            strings(fields@) == self@.fields,
            fields.len() > 0,
    {
        proof {
            use_type_invariant(self);
        }
        &self.fields
    }

    /// What stands between two cells of a row.
    pub fn delimiter(&self) -> (delimiter: &str)
        ensures
            delimiter@ == self@.delimiter,
    {
        self.delimiter.as_str()
    }

    /// Where the table goes.
    pub fn output(&self) -> (output: &str)
        ensures
            output@ == self@.output,
    {
        self.output.as_str()
    }
}

} // verus!
