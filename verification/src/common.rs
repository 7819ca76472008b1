use vstd::prelude::*;

verus! {

/// Maximum number of frames the surface is allowed to queue ahead.
pub const MAX_FRAME_LATENCY: u32 = 2;

/// Depth comparison functions, numbered in declaration order from 0
/// (`Undefined`) to 8 (`Always`).
#[derive(Copy, Clone, Debug, Hash, PartialEq, Eq, Structural)]
pub enum CompareFunction {
    Undefined,
    Never,
    Less,
    Equal,
    LessEqual,
    Greater,
    NotEqual,
    GreaterEqual,
    Always,
}

} // verus!
