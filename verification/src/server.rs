//! What the configuration server decides: resolution of placeholders,
//! templates, their cache and their storage.

pub mod cache;
pub mod resolver;
pub mod secrets;
pub mod state;
pub mod storage;
pub mod template;

use crate::failure::Failure;
use vstd::prelude::*;

verus! {

/// The header in which a client presents the shared secret.
pub const SECRET_HEADER: &'static str = "X-Cadre-Secret";

/// Authorization token validation: a request passes where it presents a
/// secret and that secret is the configured one, character for character.
pub fn authorized(presented: Option<&str>, secret: &str) -> (pass: bool)
    ensures
        pass == (presented matches Some(token) && token@ == secret@),
{
    match presented {
        Some(token) => crate::json::same_text(token, secret),
        None => false,
    }
}

/// What a client may ask of the server.
#[derive(Debug, Clone, Copy, PartialEq, Eq, Structural)]
pub enum Operation {
    /// Read the raw template of an environment.
    ReadTemplate,
    /// Write the raw template of an environment.
    WriteTemplate,
    /// Read the populated configuration of an environment.
    LoadConfig,
    /// List the environments.
    ListConfigs,
}

/// The status of the answer to a request without the right secret.
pub const STATUS_UNAUTHORIZED: u16 = 401;

/// The status of the answer to a request that succeeded.
pub const STATUS_OK: u16 = 200;

/// The status of the answer to a request for what is not there, or for what
/// cannot be resolved.
pub const STATUS_NOT_FOUND: u16 = 404;

/// The status of the answer to a request on which the server or its storage
/// failed.
pub const STATUS_SERVER_ERROR: u16 = 500;

/// The status that answers `operation` when it ended in `failure`, or
/// without one.
///
/// Success is 200. A write that failed is a fault of the server, and so is
/// any operation on which the backend of storage failed: 500. Any other
/// failure of a read means that the template is missing or that a
/// placeholder did not resolve: 404.
pub open spec fn status(operation: Operation, failure: Option<Failure>) -> u16 {
    match failure {
        None => STATUS_OK,
        Some(failure) => if operation == Operation::WriteTemplate || failure is StorageFailed {
            STATUS_SERVER_ERROR
        } else {
            STATUS_NOT_FOUND
        },
    }
}

/// The status with which the server answers a request that ended in
/// `failure`, or without one.
pub fn status_of(operation: Operation, failure: Option<&Failure>) -> (code: u16)
    ensures
        code == status(
            operation,
            match failure {
                Some(f) => Some(*f),
                None => None,
            },
        ),
{
    match failure {
        None => STATUS_OK,
        Some(failure) => {
            let storage_failed = match failure {
                Failure::StorageFailed { .. } => true,
                _ => false,
            };
            match operation {
                Operation::WriteTemplate => STATUS_SERVER_ERROR,
                _ => if storage_failed {
                    STATUS_SERVER_ERROR
                } else {
                    STATUS_NOT_FOUND
                },
            }
        },
    }
}

} // verus!
