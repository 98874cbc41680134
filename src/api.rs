use vstd::prelude::*;

verus! {

/// Outcome of a request against the entity store, surfaced to scripts as an
/// integer code.
#[derive(PartialEq, Eq, Structural, Clone, Copy, Debug)]
pub enum ResultCode {
    Success,
    InvalidArgument,
    NotFound,
    UnprocessableEntity,
    TransportError,
}

impl ResultCode {
    /// The integer code handed to scripts.
    pub open spec fn spec_code(&self) -> i32 {
        match self {
            ResultCode::Success => 200,
            ResultCode::InvalidArgument => 400,
            ResultCode::NotFound => 404,
            ResultCode::UnprocessableEntity => 422,
            ResultCode::TransportError => 503,
        }
    }

    #[verifier::when_used_as_spec(spec_code)]
    pub fn code(&self) -> (r: i32)
        ensures
            r == self.spec_code(),
    {
        match self {
            ResultCode::Success => 200,
            ResultCode::InvalidArgument => 400,
            ResultCode::NotFound => 404,
            ResultCode::UnprocessableEntity => 422,
            ResultCode::TransportError => 503,
        }
    }
}

/// The kind of a mutation requested by a script.
#[derive(PartialEq, Eq, Structural, Clone, Copy, Debug)]
pub enum IndvOp {
    Put,
    Remove,
    AddTo,
    SetIn,
    RemoveFrom,
}

impl IndvOp {
    /// An incremental operation is a diff against the entity's current state.
    pub open spec fn spec_is_incremental(&self) -> bool {
        *self == IndvOp::AddTo || *self == IndvOp::SetIn || *self == IndvOp::RemoveFrom
    }

    #[verifier::when_used_as_spec(spec_is_incremental)]
    pub fn is_incremental(&self) -> (r: bool)
        ensures
            r == self.spec_is_incremental(),
    {
        match self {
            IndvOp::AddTo | IndvOp::SetIn | IndvOp::RemoveFrom => true,
            _ => false,
        }
    }
}

} // verus!
