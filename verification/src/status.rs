//! The status of a reply.

use vstd::prelude::*;

verus! {

#[derive(Clone, Copy, Debug, PartialEq, Eq, Structural)]
pub enum Status {
    Success,
    PartialContent,
    BadRequest,
    Forbidden,
    NotFound,
    InternalServerError,
}

impl Status {
    /// The number of the status in HTTP.
    pub open spec fn number(self) -> u16 {
        match self {
            Status::Success => 200,
            Status::PartialContent => 206,
            Status::BadRequest => 400,
            Status::Forbidden => 403,
            Status::NotFound => 404,
            Status::InternalServerError => 500,
        }
    }

    /// The number of the status in HTTP.
    pub fn code(self) -> (r: u16)
        ensures
            r == self.number(),
    {
        match self {
            Status::Success => 200,
            Status::PartialContent => 206,
            Status::BadRequest => 400,
            Status::Forbidden => 403,
            Status::NotFound => 404,
            Status::InternalServerError => 500,
        }
    }
}

} // verus!
