//! The tagged runtime value the engine formats. A value is immutable and
//! carries no formatting configuration.

use vstd::prelude::*;
use crate::fixed::Fixed;
use crate::unit::Unit;

verus! {

/// One typed value handed to a formatter.
#[derive(Debug, Clone)]
pub enum Value {
    /// Arbitrary text.
    Text(String),
    /// A scalar paired with its physical unit.
    Number { val: Fixed, unit: Unit },
    /// A pre-resolved icon string; never escaped.
    Icon(String),
    /// A bare presence signal with no payload.
    Flag,
}

impl Value {
    /// A numeric payload stays within the magnitude range the engine accepts.
    pub open spec fn wf(self) -> bool {
        match self {
            Value::Number { val, .. } => val.wf(),
            _ => true,
        }
    }
}

} // verus!
