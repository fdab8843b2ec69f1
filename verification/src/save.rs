//! The save as a whole: the trailer, the node table it points at, and the
//! decoded tree.
//!
//! The last eight bytes of a save are a little-endian 32-bit offset and the
//! marker `ENOD`. At that offset stands the marker `EDON`, then a packed
//! integer that counts the nodes, then that many records.

use crate::error::SaveError;
use crate::fields::{has_bytes, le_u32_at, read_u32_le};
use crate::node::{
    link_ok, links_valid, node_at, node_views, nodes_from, read_nodes, CPNode, NodeView, NO_LINK,
};
use crate::packed_int::{packed_int_at, read_packed_int};
use vstd::prelude::*;
use vstd::slice::slice_to_vec;

verus! {

/// The marker that ends the trailer: the bytes of `ENOD`.
pub open spec fn trailer_marker() -> Seq<u8> {
    seq![0x45u8, 0x4Eu8, 0x4Fu8, 0x44u8]
}

/// The marker that starts the node table: the bytes of `EDON`.
pub open spec fn table_marker() -> Seq<u8> {
    seq![0x45u8, 0x44u8, 0x4Fu8, 0x4Eu8]
}

/// Whether the four bytes at `pos` are those of `marker`.
pub open spec fn marker_at(buf: Seq<u8>, pos: int, marker: Seq<u8>) -> bool {
    has_bytes(buf.len(), pos, 4) && buf.subrange(pos, pos + 4) == marker
}

/// The position of the node count, just past the table's marker. The trailer
/// is checked first and the table's marker after it; each of the two can be
/// missing from the buffer (`TruncatedInput`) or wrong (`BadSignature`).
pub open spec fn tree_start(buf: Seq<u8>) -> Result<int, SaveError> {
    let len = buf.len() as int;
    if len < 8 {
        Err(SaveError::TruncatedInput)
    } else if !marker_at(buf, len - 4, trailer_marker()) {
        Err(SaveError::BadSignature)
    } else if !has_bytes(buf.len(), le_u32_at(buf, len - 8), 4) {
        Err(SaveError::TruncatedInput)
    } else if !marker_at(buf, le_u32_at(buf, len - 8), table_marker()) {
        Err(SaveError::BadSignature)
    } else {
        Ok(le_u32_at(buf, len - 8) + 4)
    }
}

/// The node table whose count stands at `pos`: `TruncatedInput` where the
/// count cannot be read, `MalformedCount` where it is negative, else the
/// records that follow it.
pub open spec fn table_at(buf: Seq<u8>, pos: int) -> Result<Seq<NodeView>, SaveError> {
    match packed_int_at(buf, pos) {
        None => Err(SaveError::TruncatedInput),
        Some((count, first)) => if count < 0 {
            Err(SaveError::MalformedCount)
        } else {
            nodes_from(buf, first, count, Seq::empty())
        },
    }
}

/// The nodes that a buffer holds, in table order. The first error met on the
/// way from the trailer to the last record fails the buffer; a table that was
/// read whole fails with `MalformedLink` where a link leads outside it.
pub open spec fn save_nodes(buf: Seq<u8>) -> Result<Seq<NodeView>, SaveError> {
    match tree_start(buf) {
        Err(e) => Err(e),
        Ok(pos) => match table_at(buf, pos) {
            Err(e) => Err(e),
            Ok(nodes) => if links_valid(nodes) {
                Ok(nodes)
            } else {
                Err(SaveError::MalformedLink)
            },
        },
    }
}

/// A decoded save: the buffer it was read from and its nodes in table order.
/// Every link of every node is the sentinel or the index of a node.
#[derive(Debug)]
pub struct CPSave {
    payload: Vec<u8>,
    nodes: Vec<CPNode>,
}

/// A save as contracts see it.
pub ghost struct SaveView {
    pub payload: Seq<u8>,
    pub nodes: Seq<NodeView>,
}

impl View for CPSave {
    type V = SaveView;

    closed spec fn view(&self) -> SaveView {
        SaveView { payload: self.payload@, nodes: node_views(self.nodes@) }
    }
}

/// Whether the four bytes at `pos` are `a`, `b`, `c`, `d`.
fn has_marker(buf: &[u8], pos: usize, a: u8, b: u8, c: u8, d: u8) -> (found: bool)
    requires
        pos + 4 <= buf@.len(),
    ensures
        found == marker_at(buf@, pos as int, seq![a, b, c, d]),
{
    let found = buf[pos] == a && buf[pos + 1] == b && buf[pos + 2] == c && buf[pos + 3] == d;
    proof {
        let here = buf@.subrange(pos as int, pos + 4);
        let marker = seq![a, b, c, d];
        if found {
            assert(here =~= marker);
        } else {
            assert(here[0] == buf@[pos as int]);
            assert(here[1] == buf@[pos + 1]);
            assert(here[2] == buf@[pos + 2]);
            assert(here[3] == buf@[pos + 3]);
            assert(marker[0] == a && marker[1] == b && marker[2] == c && marker[3] == d);
        }
    }
    found
}

/// Checks the trailer and the table's marker and returns the position of the
/// node count.
pub fn find_tree(buf: &[u8]) -> (r: Result<usize, SaveError>)
    ensures
        match r {
            Ok(pos) => tree_start(buf@) == Ok::<int, SaveError>(pos as int) && 4 <= pos
                <= buf@.len(),
            Err(e) => tree_start(buf@) == Err::<int, SaveError>(e),
        },
{
    let len = buf.len();
    if len < 8 {
        return Err(SaveError::TruncatedInput);
    }
    let (tree_offset, _) = match read_u32_le(buf, len - 8) {
        Ok(found) => found,
        Err(e) => {
            return Err(e);
        },
    };
    if !has_marker(buf, len - 4, 0x45, 0x4E, 0x4F, 0x44) {
        return Err(SaveError::BadSignature);
    }
    if tree_offset as u64 + 4 > len as u64 {
        return Err(SaveError::TruncatedInput);
    }
    let at = tree_offset as usize;
    if !has_marker(buf, at, 0x45, 0x44, 0x4F, 0x4E) {
        return Err(SaveError::BadSignature);
    }
    Ok(at + 4)
}

/// Reads the node table whose count stands at `pos`.
pub fn read_table(buf: &[u8], pos: usize) -> (r: Result<Vec<CPNode>, SaveError>)
    ensures
        match r {
            Ok(nodes) => table_at(buf@, pos as int) == Ok::<Seq<NodeView>, SaveError>(
                node_views(nodes@),
            ),
            Err(e) => table_at(buf@, pos as int) == Err::<Seq<NodeView>, SaveError>(e),
        },
{
    let (count, first) = match read_packed_int(buf, pos) {
        Ok(found) => found,
        Err(e) => {
            return Err(e);
        },
    };
    if count < 0 {
        return Err(SaveError::MalformedCount);
    }
    read_nodes(buf, first, count)
}

proof fn lemma_nodes_from_len(buf: Seq<u8>, pos: int, count: int, done: Seq<NodeView>)
    requires
        done.len() <= count,
        nodes_from(buf, pos, count, done) is Ok,
    ensures
        nodes_from(buf, pos, count, done)->Ok_0.len() == count,
    decreases count - done.len(),
{
    if done.len() < count {
        let (node, next) = node_at(buf, pos)->Ok_0;
        lemma_nodes_from_len(buf, next, count, done.push(node));
    }
}

/// A table that was read holds exactly as many nodes as it announces.
pub proof fn lemma_table_len(buf: Seq<u8>, pos: int)
    requires
        table_at(buf, pos) is Ok,
    ensures
        match packed_int_at(buf, pos) {
            Some((count, _)) => table_at(buf, pos)->Ok_0.len() == count,
            None => false,
        },
{
    let (count, first) = packed_int_at(buf, pos)->0;
    lemma_nodes_from_len(buf, first, count, Seq::empty());
}

/// A buffer that holds a trailer but does not end in the trailer's marker is
/// no save: it fails with `BadSignature` whatever else it holds, the offset
/// and the table included.
pub proof fn lemma_wrong_trailer_marker(buf: Seq<u8>)
    requires
        buf.len() >= 8,
        buf.subrange(buf.len() - 4, buf.len() as int) != trailer_marker(),
    ensures
        save_nodes(buf) == Err::<Seq<NodeView>, SaveError>(SaveError::BadSignature),
{
}

/// A buffer that ends in a good trailer whose offset points at four bytes
/// other than the table's marker fails with `BadSignature`, whatever follows
/// those bytes.
pub proof fn lemma_wrong_table_marker(buf: Seq<u8>)
    requires
        buf.len() >= 8,
        buf.subrange(buf.len() - 4, buf.len() as int) == trailer_marker(),
        has_bytes(buf.len(), le_u32_at(buf, buf.len() - 8), 4),
        buf.subrange(le_u32_at(buf, buf.len() - 8), le_u32_at(buf, buf.len() - 8) + 4)
            != table_marker(),
    ensures
        save_nodes(buf) == Err::<Seq<NodeView>, SaveError>(SaveError::BadSignature),
{
}

impl CPSave {
    #[verifier::type_invariant]
    spec fn well_linked(&self) -> bool {
        links_valid(node_views(self.nodes@))
    }

    /// Builds a save from a buffer and nodes that did not come out of it by
    /// decoding. Fails with `MalformedLink` unless every link is the sentinel
    /// or the index of one of `nodes`.
    pub fn new(payload: Vec<u8>, nodes: Vec<CPNode>) -> (r: Result<CPSave, SaveError>)
        ensures
            match r {
                Ok(save) => links_valid(node_views(nodes@)) && save@ == (SaveView {
                    payload: payload@,
                    nodes: node_views(nodes@),
                }),
                Err(e) => e == SaveError::MalformedLink && !links_valid(node_views(nodes@)),
            },
    {
        let count = nodes.len();
        let mut i: usize = 0;
        while i < count
            invariant
                i <= count,
                count == nodes@.len(),
                forall|j: int|
                    0 <= j < i ==> link_ok((#[trigger] node_views(nodes@)[j]).next_idx, count as int)
                        && link_ok(node_views(nodes@)[j].child_idx, count as int),
            decreases count - i,
        {
            let node = &nodes[i];
            if !links_to(node.next_idx, count) || !links_to(node.child_idx, count) {
                assert(node_views(nodes@)[i as int] == node@);
                return Err(SaveError::MalformedLink);
            }
            assert(node_views(nodes@)[i as int] == node@);
            i = i + 1;
        }
        Ok(CPSave { payload, nodes })
    }

    /// The nodes in table order.
    pub fn nodes(&self) -> (nodes: &Vec<CPNode>)
        ensures
            node_views(nodes@) == self@.nodes,
            links_valid(self@.nodes),
    {
        proof {
            use_type_invariant(self);
        }
        &self.nodes
    }

    /// The buffer that the save was read from.
    pub fn payload(&self) -> (payload: &Vec<u8>)
        ensures
            payload@ == self@.payload,
    {
        &self.payload
    }
}

/// Whether `link` is the sentinel or the index of one of `count` nodes.
pub fn links_to(link: i32, count: usize) -> (ok: bool)
    ensures
        ok == link_ok(link as int, count as int),
{
    link == NO_LINK || (link >= 0 && (link as usize) < count)
}

/// Decodes a whole save. The trailer is checked, then the table's marker,
/// then the records are read in order, then the links are checked; the first
/// of these to fail fails the whole buffer and no nodes are returned.
pub fn read_save_structure(payload: &[u8]) -> (r: Result<CPSave, SaveError>)
    ensures
        match r {
            Ok(save) => save_nodes(payload@) == Ok::<Seq<NodeView>, SaveError>(save@.nodes)
                && save@.payload == payload@ && links_valid(save@.nodes),
            Err(e) => save_nodes(payload@) == Err::<Seq<NodeView>, SaveError>(e),
        },
{
    let pos = match find_tree(payload) {
        Ok(pos) => pos,
        Err(e) => {
            return Err(e);
        },
    };
    let nodes = match read_table(payload, pos) {
        Ok(nodes) => nodes,
        Err(e) => {
            return Err(e);
        },
    };
    CPSave::new(slice_to_vec(payload), nodes)
}

} // verus!
