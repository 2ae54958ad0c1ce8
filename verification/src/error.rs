//! Error kinds surfaced by the engine's public operations.

use vstd::prelude::*;

verus! {

/// Why a public operation rejected its input. Every rejected
/// operation leaves the engine state unchanged.
#[derive(Clone, Copy, Debug, PartialEq, Eq, Structural)]
pub enum MapError {
    /// A latitude outside [-90, 90] degrees.
    LatOutOfRange,
    /// A longitude outside [-180, 180] degrees.
    LngOutOfRange,
    /// Bounds whose north-east corner does not exceed the south-west
    /// corner on both axes.
    BoundsNotOrdered,
    /// A layer index past the end of the layer list.
    LayerIndexOutOfBounds,
    /// A textual geometry document whose top level is not an object.
    NotAnObject,
    /// A geometry or document object without a usable `type` field.
    MissingType,
    /// A `type` field naming an unsupported kind of object.
    UnsupportedType,
    /// A coordinate array of the wrong shape or arity.
    BadCoordinates,
    /// Text that could not be parsed at all.
    ParseFailed,
}

impl MapError {
    /// A short description of the error.
    pub fn describe(&self) -> (r: &'static str) {
        match self {
            MapError::LatOutOfRange => "latitude must be between -90 and 90",
            MapError::LngOutOfRange => "longitude must be between -180 and 180",
            MapError::BoundsNotOrdered => "north-east must exceed south-west",
            MapError::LayerIndexOutOfBounds => "layer index out of bounds",
            MapError::NotAnObject => "document must be an object",
            MapError::MissingType => "missing 'type' field",
            MapError::UnsupportedType => "unsupported 'type' field",
            MapError::BadCoordinates => "malformed coordinates",
            MapError::ParseFailed => "failed to parse",
        }
    }
}

} // verus!
