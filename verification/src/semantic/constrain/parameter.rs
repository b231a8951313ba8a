//! Constraints on the parameters of a function definition (6.7.1).

use vstd::prelude::*;

use crate::semantic::diagnosis::{Diag, Diagnosis};
use crate::semantic::model::resolved_type::QualifiedType;

verus! {

/// 6.7.1 Each parameter of a function definition shall have an object type
/// once adjusted.
pub fn check_complete_parameter(is_complete: bool, ty: QualifiedType) -> (d: Diag<()>)
    ensures
        d.diagnosis == if is_complete { None } else { Some(Diagnosis::IncompleteParameter(ty)) },
{
    if is_complete {
        Diag::ok(())
    } else {
        Diag::err((), Diagnosis::IncompleteParameter(ty))
    }
}

} // verus!
