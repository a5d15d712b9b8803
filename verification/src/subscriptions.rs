//! The subscription form: the values a new subscriber submits. The handler
//! around it only stores them, so the type carries no further logic.

use vstd::prelude::*;

verus! {

/// What a subscription submission carries.
pub struct FormData {
    pub name: String,
    pub email: String,
}

} // verus!
