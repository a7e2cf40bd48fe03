//! One error taxonomy for the whole import pipeline: decode errors,
//! referential errors (an out-of-range index, reported with the offending
//! record and value) and build errors. All are unrecoverable for the map
//! being processed; none of them panics.

use vstd::prelude::*;

verus! {

/// Which cross-reference a referential error is about.
#[derive(Clone, Copy, Debug, PartialEq, Eq, Structural)]
pub enum RefKind {
    /// A sidedef's sector index against the sector array.
    SidedefSector,
    /// A linedef's vertex index (either end) against the vertex array.
    LinedefVertex,
    /// A linedef's sidedef index (either slot) against the sidedef array.
    LinedefSidedef,
    /// A seg's linedef index against the linedef array.
    SegLinedef,
    /// A seg's vertex index against the vertex array its tag selects.
    SegVertex,
    /// A seg's partner index against the seg array.
    SegPartner,
    /// A subsector's first-seg index against the seg array.
    SubsectorFirstSeg,
    /// A subsector's seg range end against the seg array.
    SubsectorSegCount,
    /// A node's leaf child against the subsector array.
    NodeChildSubsector,
    /// A node's internal child against the node array.
    NodeChildNode,
    /// A texture directory patch record's name index against the
    /// patch-name table.
    TexturePatchName,
}

/// Everything that can go wrong while importing or building an asset.
#[derive(Clone, Copy, Debug, PartialEq, Eq, Structural)]
pub enum AssetError {
    /// The data source has no blob under the requested name.
    NotFound,
    /// A lump's byte length does not divide into whole records, or a
    /// length-prefixed directory runs past the end of its lump.
    Truncated,
    /// The GL vertex lump does not start with its 4-byte signature.
    BadMagic,
    /// An 8-byte name field holds bytes that are not valid UTF-8.
    InvalidText,
    /// A decoded index is out of range for the array it points into.
    BadReference { kind: RefKind, record: usize, value: usize },
    /// No seg of a subsector's range has a resolved sidedef on its side.
    NoSectorForSubsector { subsector: usize },
    /// Two linedef slots claim the same sidedef, so ownership transfer
    /// cannot give it to both.
    SidedefReused { sidedef: usize },
    /// The registry's monotonic id space is exhausted; loading more assets
    /// would overflow the allocator.
    IdSpaceExhausted,
}

} // verus!
