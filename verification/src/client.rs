//! What a client of the server computes: the addresses of its requests and
//! what a response status means.

use crate::failure::Failure;
use vstd::prelude::*;
use vstd::string::StringExecFns;

verus! {

/// The address of the raw template of `env` on the server at `origin`.
pub fn template_url(origin: &str, env: &str) -> (url: String)
    ensures
        url@ == origin@ + "/t/"@ + env@,
{
    String::from_str(origin).concat("/t/").concat(env)
}

/// The address of the populated configuration of `env` on the server at
/// `origin`.
pub fn config_url(origin: &str, env: &str) -> (url: String)
    ensures
        url@ == origin@ + "/c/"@ + env@,
{
    String::from_str(origin).concat("/c/").concat(env)
}

/// The address of the list of environments on the server at `origin`.
pub fn configs_url(origin: &str) -> (url: String)
    ensures
        url@ == origin@ + "/c"@,
{
    String::from_str(origin).concat("/c")
}

/// What the status of a response means: a status from 500 to 599 is a
/// failure of the server, any other status outside 200 to 299 a failed
/// request.
pub fn check_status(status: u16) -> (outcome: Result<(), Failure>)
    ensures
        match outcome {
            Ok(_) => 200 <= status < 300,
            Err(Failure::ServerError { status: reported }) => reported == status && 500 <= status
                < 600,
            Err(Failure::RequestFailed { status: reported }) => reported == status && !(200
                <= status < 300) && !(500 <= status < 600),
            Err(_) => false,
        },
{
    if 500 <= status && status < 600 {
        Err(Failure::ServerError { status })
    } else if 200 <= status && status < 300 {
        Ok(())
    } else {
        Err(Failure::RequestFailed { status })
    }
}

} // verus!
