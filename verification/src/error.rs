//! Why a request to the proxy itself is refused.

use vstd::prelude::*;

verus! {

/// A refusal, with what to tell the client.
#[derive(Clone, Debug)]
pub enum AppError {
    BadRequest(String),
}

impl AppError {
    /// What to tell the client.
    pub open spec fn text(self) -> Seq<char> {
        match self {
            AppError::BadRequest(message) => message@,
        }
    }

    /// What to tell the client.
    pub fn message(&self) -> (message: String)
        ensures
            message@ == self.text(),
    {
        match self {
            AppError::BadRequest(message) => message.clone(),
        }
    }
}

}
