//! The failures that the library reports.

use vstd::prelude::*;
use vstd::string::StringExecFns;

verus! {

/// Why an operation failed.
#[derive(Debug)]
pub enum Failure {
    /// A marked key holds a value that is not a string.
    NonStringValue { key: String },
    /// A placeholder has no `:` between its prefix and its payload.
    MissingDelimiter { placeholder: String },
    /// No resolver is registered under the prefix of a placeholder.
    UnknownPrefix { prefix: String, known: Vec<String> },
    /// Resolved values kept bringing new placeholders, deeper than the
    /// bound on the levels of resolution.
    ResolutionTooDeep,
    /// A text that should hold a JSON document does not.
    InvalidJson { detail: String },
    /// The secret backend answered, but without a secret string.
    MissingSecretString,
    /// The service behind a resolver failed.
    Backend { detail: String },
    /// The backend of storage failed otherwise than by lacking a template:
    /// it could not be reached, or it refused.
    StorageFailed { detail: String },
    /// Storage holds no template for the environment.
    MissingTemplate { env: String },
    /// More than one storage backend was asked for.
    AmbiguousStorage,
    /// The server answered a request with a status from 500 to 599.
    ServerError { status: u16 },
    /// The server answered a request with a status that is neither a
    /// success nor a server error.
    RequestFailed { status: u16 },
}

/// The message of `failure`, as [`Failure::message`] returns it.
pub open spec fn message_text(failure: Failure) -> Seq<char> {
    match failure {
        Failure::NonStringValue { key } => "templated key "@ + key@ + " is of non-string type"@,
        Failure::MissingDelimiter { placeholder } => "templated value "@ + placeholder@
            + " is missing delimiter character ':'"@,
        Failure::UnknownPrefix { prefix, known } => listed(
            "could not find prefix "@ + prefix@ + " in the list of resolvers:"@,
            known@,
        ),
        Failure::ResolutionTooDeep => "resolved values nest placeholders too deeply"@,
        Failure::InvalidJson { detail } => "invalid JSON: "@ + detail@,
        Failure::MissingSecretString => "missing secret string"@,
        Failure::Backend { detail } => "backend failure: "@ + detail@,
        Failure::StorageFailed { detail } => "storage failure: "@ + detail@,
        Failure::MissingTemplate { env } => "missing template "@ + env@,
        Failure::AmbiguousStorage => "must specify at most one of --bucket or --local-dir"@,
        Failure::ServerError { status } => "cadre server error: "@ + decimal(status as nat),
        Failure::RequestFailed { status } => "cadre request failed: "@ + decimal(status as nat),
    }
}

/// The character of a digit.
pub open spec fn digit(d: nat) -> char
    recommends
        d < 10,
{
    if d == 0 {
        '0'
    } else if d == 1 {
        '1'
    } else if d == 2 {
        '2'
    } else if d == 3 {
        '3'
    } else if d == 4 {
        '4'
    } else if d == 5 {
        '5'
    } else if d == 6 {
        '6'
    } else if d == 7 {
        '7'
    } else if d == 8 {
        '8'
    } else {
        '9'
    }
}

/// A number in decimal digits, without leading zeros.
pub open spec fn decimal(n: nat) -> Seq<char>
    decreases n,
{
    if n < 10 {
        seq![digit(n)]
    } else {
        decimal(n / 10).push(digit(n % 10))
    }
}

/// `head`, followed by each of `names` behind a space.
pub open spec fn listed(head: Seq<char>, names: Seq<String>) -> Seq<char>
    decreases names.len(),
{
    if names.len() == 0 {
        head
    } else {
        listed(head, names.drop_last()) + " "@ + names.last()@
    }
}

impl Failure {
    /// A sentence that says what went wrong.
    pub fn message(&self) -> (text: String)
        ensures
            text@ == message_text(*self),
    {
        match self {
            Failure::NonStringValue { key } => String::from_str("templated key ").concat(
                key.as_str(),
            ).concat(" is of non-string type"),
            Failure::MissingDelimiter { placeholder } => String::from_str("templated value ").concat(
                placeholder.as_str(),
            ).concat(" is missing delimiter character ':'"),
            Failure::UnknownPrefix { prefix, known } => {
                let mut text = String::from_str("could not find prefix ").concat(
                    prefix.as_str(),
                ).concat(" in the list of resolvers:");
                let ghost head = text@;
                let mut i: usize = 0;
                while i < known.len()
                    invariant
                        i <= known@.len(),
                        text@ == listed(head, known@.take(i as int)),
                    decreases known@.len() - i,
                {
                    proof {
                        assert(known@.take(i + 1).drop_last() == known@.take(i as int));
                    }
                    text = text.concat(" ").concat(known[i].as_str());
                    i += 1;
                }
                proof {
                    assert(known@.take(i as int) == known@);
                }
                text
            },
            Failure::ResolutionTooDeep => String::from_str(
                "resolved values nest placeholders too deeply",
            ),
            Failure::InvalidJson { detail } => String::from_str("invalid JSON: ").concat(
                detail.as_str(),
            ),
            Failure::MissingSecretString => String::from_str("missing secret string"),
            Failure::Backend { detail } => String::from_str("backend failure: ").concat(
                detail.as_str(),
            ),
            Failure::StorageFailed { detail } => String::from_str("storage failure: ").concat(
                detail.as_str(),
            ),
            Failure::MissingTemplate { env } => String::from_str("missing template ").concat(
                env.as_str(),
            ),
            Failure::AmbiguousStorage => String::from_str(
                "must specify at most one of --bucket or --local-dir",
            ),
            Failure::ServerError { status } => String::from_str("cadre server error: ").concat(
                decimal_text(*status).as_str(),
            ),
            Failure::RequestFailed { status } => String::from_str("cadre request failed: ").concat(
                decimal_text(*status).as_str(),
            ),
        }
    }
}

/// The text of one digit.
fn digit_text(d: u16) -> (text: &'static str)
    requires
        d < 10,
    ensures
        text@ == seq![digit(d as nat)],
{
    proof {
        reveal_strlit("0");
        reveal_strlit("1");
        reveal_strlit("2");
        reveal_strlit("3");
        reveal_strlit("4");
        reveal_strlit("5");
        reveal_strlit("6");
        reveal_strlit("7");
        reveal_strlit("8");
        reveal_strlit("9");
    }
    let text = if d == 0 {
        "0"
    } else if d == 1 {
        "1"
    } else if d == 2 {
        "2"
    } else if d == 3 {
        "3"
    } else if d == 4 {
        "4"
    } else if d == 5 {
        "5"
    } else if d == 6 {
        "6"
    } else if d == 7 {
        "7"
    } else if d == 8 {
        "8"
    } else {
        "9"
    };
    assert(text@ =~= seq![digit(d as nat)]);
    text
}

/// A number in decimal digits.
pub fn decimal_text(n: u16) -> (text: String)
    ensures
        text@ == decimal(n as nat),
    decreases n,
{
    if n < 10 {
        String::from_str(digit_text(n))
    } else {
        let front = decimal_text(n / 10);
        let text = front.concat(digit_text(n % 10));
        assert(text@ =~= decimal((n / 10) as nat).push(digit((n % 10) as nat)));
        text
    }
}

} // verus!
