//! The outcome of a request that could not be served.
use crate::ordered::Duplicate;
use vstd::prelude::*;

verus! {

/// The status codes of gRPC that the services use.
#[derive(Clone, Copy, PartialEq, Eq, Debug, Structural)]
pub enum Code {
    Cancelled,
    InvalidArgument,
    NotFound,
    AlreadyExists,
    ResourceExhausted,
    FailedPrecondition,
    Unimplemented,
    Internal,
    Unavailable,
}

impl Code {
    /// The number of the code on the wire.
    pub open spec fn number_spec(self) -> i32 {
        match self {
            Code::Cancelled => 1,
            Code::InvalidArgument => 3,
            Code::NotFound => 5,
            Code::AlreadyExists => 6,
            Code::ResourceExhausted => 8,
            Code::FailedPrecondition => 9,
            Code::Unimplemented => 12,
            Code::Internal => 13,
            Code::Unavailable => 14,
        }
    }

    pub fn number(self) -> (r: i32)
        ensures
            r == self.number_spec(),
    {
        match self {
            Code::Cancelled => 1,
            Code::InvalidArgument => 3,
            Code::NotFound => 5,
            Code::AlreadyExists => 6,
            Code::ResourceExhausted => 8,
            Code::FailedPrecondition => 9,
            Code::Unimplemented => 12,
            Code::Internal => 13,
            Code::Unavailable => 14,
        }
    }
}

/// Why a request was refused.
#[derive(Clone, PartialEq, Eq, Debug)]
pub struct Status {
    pub code: Code,
    pub message: String,
}

/// What a [`Status`] stands for.
#[verifier::ext_equal]
pub struct StatusView {
    pub code: Code,
    pub message: Seq<char>,
}

impl View for Status {
    type V = StatusView;

    open spec fn view(&self) -> StatusView {
        StatusView { code: self.code, message: self.message@ }
    }
}

pub open spec fn status_view(code: Code, message: Seq<char>) -> StatusView {
    StatusView { code, message }
}

/// A refused argument.
pub open spec fn invalid(message: Seq<char>) -> StatusView {
    status_view(Code::InvalidArgument, message)
}

impl Status {
    pub fn new(code: Code, message: &str) -> (r: Status)
        ensures
            r@ == status_view(code, message@),
    {
        Status { code, message: message.to_owned() }
    }

    pub fn invalid_argument(message: &str) -> (r: Status)
        ensures
            r@ == invalid(message@),
    {
        Status::new(Code::InvalidArgument, message)
    }
}

impl Duplicate for Status {
    fn duplicate(&self) -> (r: Self) {
        Status { code: self.code, message: self.message.clone() }
    }
}

/// The view of a result whose success is a value with a view.
pub open spec fn result_view<T: View>(r: Result<T, Status>) -> Result<T::V, StatusView> {
    match r {
        Ok(v) => Ok(v@),
        Err(e) => Err(e@),
    }
}

/// The view of a result whose success carries nothing.
pub open spec fn unit_result(r: Result<(), Status>) -> Result<(), StatusView> {
    match r {
        Ok(v) => Ok(v),
        Err(e) => Err(e@),
    }
}

} // verus!
