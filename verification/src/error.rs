use vstd::prelude::*;

verus! {

/// Why a buffer could not be read as a save, or why a node's byte count
/// cannot be relied on.
#[derive(Clone, Copy, Debug, PartialEq, Eq, Structural)]
pub enum SaveError {
    /// The buffer ended before a field that had to be there.
    TruncatedInput,
    /// The trailer or the node table does not carry its marker.
    BadSignature,
    /// A name is not valid text in the encoding its length prefix selects.
    InvalidText,
    /// The node table announces a negative number of nodes.
    MalformedCount,
    /// A sibling or child link is neither the sentinel nor the index of a node.
    MalformedLink,
    /// The immediate children of a node claim more bytes than the node spans,
    /// or its chain of children never ends.
    InconsistentAccounting,
}

} // verus!
