use vstd::prelude::*;

verus! {

/// Failure classes surfaced by the stores.
///
/// `InvalidArgument` covers malformed selectors and non-positive pagination
/// parameters, `NotFound` an identifier that an operation requires to
/// resolve, `AlreadyExists` a duplicate live reaction triple, and `Internal`
/// a failure of the backing store itself (here: identifier exhaustion).
#[derive(Clone, Copy, Debug, PartialEq, Eq, Structural)]
pub enum StoreError {
    InvalidArgument,
    NotFound,
    AlreadyExists,
    Internal,
}

} // verus!
