//! Nodes and the table that holds them.
//!
//! A node names one entry of the save's hierarchy. Nodes refer to each other
//! by their index in the table: `next_idx` is the next sibling and `child_idx`
//! the first child, each either the sentinel `NO_LINK` or the index of a node.

use crate::error::SaveError;
use crate::fields::{has_bytes, le_i32_at, le_u32_at, read_i32_le, read_u32_le};
use crate::pstr::{pstr_at, read_pstr};
use vstd::prelude::*;

verus! {

/// The link value that stands for "no sibling" or "no child".
pub const NO_LINK: i32 = -1;

/// One record of the node table.
#[derive(Clone, Debug, PartialEq, Eq)]
pub struct CPNode {
    /// The node's name.
    pub name: String,
    /// Index of the next sibling, or `NO_LINK`.
    pub next_idx: i32,
    /// Index of the first child, or `NO_LINK`.
    pub child_idx: i32,
    /// Where in the buffer the node's bytes start.
    pub data_offset: u32,
    /// How many bytes the node spans, its children included.
    pub data_size: u32,
}

/// A node as contracts see it.
pub ghost struct NodeView {
    pub name: Seq<char>,
    pub next_idx: int,
    pub child_idx: int,
    pub data_offset: nat,
    pub data_size: nat,
}

impl View for CPNode {
    type V = NodeView;

    open spec fn view(&self) -> NodeView {
        NodeView {
            name: self.name@,
            next_idx: self.next_idx as int,
            child_idx: self.child_idx as int,
            data_offset: self.data_offset as nat,
            data_size: self.data_size as nat,
        }
    }
}

/// The nodes of a table as contracts see them, in table order.
pub open spec fn node_views(nodes: Seq<CPNode>) -> Seq<NodeView> {
    nodes.map_values(|node: CPNode| node@)
}

/// Whether `link` is the sentinel or the index of one of `count` nodes.
pub open spec fn link_ok(link: int, count: int) -> bool {
    NO_LINK <= link < count
}

/// Whether every link of every node is the sentinel or the index of a node
/// of the same table.
pub open spec fn links_valid(nodes: Seq<NodeView>) -> bool {
    forall|i: int|
        0 <= i < nodes.len() ==> link_ok((#[trigger] nodes[i]).next_idx, nodes.len() as int)
            && link_ok(nodes[i].child_idx, nodes.len() as int)
}

/// The record at `pos` and the position just past it. A record is a
/// prefixed string, two signed and two unsigned 32-bit fields; the first
/// field that cannot be read decides the error.
pub open spec fn node_at(buf: Seq<u8>, pos: int) -> Result<(NodeView, int), SaveError> {
    match pstr_at(buf, pos) {
        Err(e) => Err(e),
        Ok((name, fields)) => if !has_bytes(buf.len(), fields, 16) {
            Err(SaveError::TruncatedInput)
        } else {
            Ok(
                (
                    NodeView {
                        name,
                        next_idx: le_i32_at(buf, fields),
                        child_idx: le_i32_at(buf, fields + 4),
                        data_offset: le_u32_at(buf, fields + 8) as nat,
                        data_size: le_u32_at(buf, fields + 12) as nat,
                    },
                    fields + 16,
                ),
            )
        },
    }
}

/// The table of `count` nodes of which `done` have been read and the next
/// record stands at `pos`: records are appended in buffer order until the
/// table is full, and the first record that cannot be read fails the table.
pub open spec fn nodes_from(buf: Seq<u8>, pos: int, count: int, done: Seq<NodeView>) -> Result<
    Seq<NodeView>,
    SaveError,
>
    decreases count - done.len(),
{
    if done.len() >= count {
        Ok(done)
    } else {
        match node_at(buf, pos) {
            Err(e) => Err(e),
            Ok((node, next)) => nodes_from(buf, next, count, done.push(node)),
        }
    }
}

/// Reads the record at `pos` and returns the node with the position just
/// past it. The links are returned as they stand in the buffer.
pub fn read_node(buf: &[u8], pos: usize) -> (r: Result<(CPNode, usize), SaveError>)
    ensures
        match r {
            Ok((node, next)) => node_at(buf@, pos as int) == Ok::<(NodeView, int), SaveError>(
                (node@, next as int),
            ) && pos < next <= buf@.len(),
            Err(e) => node_at(buf@, pos as int) == Err::<(NodeView, int), SaveError>(e),
        },
{
    let (name, fields) = match read_pstr(buf, pos) {
        Ok(found) => found,
        Err(e) => {
            return Err(e);
        },
    };
    let (next_idx, at_child) = match read_i32_le(buf, fields) {
        Ok(found) => found,
        Err(e) => {
            return Err(e);
        },
    };
    let (child_idx, at_offset) = match read_i32_le(buf, at_child) {
        Ok(found) => found,
        Err(e) => {
            return Err(e);
        },
    };
    let (data_offset, at_size) = match read_u32_le(buf, at_offset) {
        Ok(found) => found,
        Err(e) => {
            return Err(e);
        },
    };
    let (data_size, next) = match read_u32_le(buf, at_size) {
        Ok(found) => found,
        Err(e) => {
            return Err(e);
        },
    };
    Ok((CPNode { name, next_idx, child_idx, data_offset, data_size }, next))
}

/// Reads `count` records starting at `pos`, in buffer order.
pub fn read_nodes(buf: &[u8], pos: usize, count: i64) -> (r: Result<Vec<CPNode>, SaveError>)
    ensures
        match r {
            Ok(nodes) => nodes_from(buf@, pos as int, count as int, Seq::empty()) == Ok::<
                Seq<NodeView>,
                SaveError,
            >(node_views(nodes@)),
            Err(e) => nodes_from(buf@, pos as int, count as int, Seq::empty()) == Err::<
                Seq<NodeView>,
                SaveError,
            >(e),
        },
{
    let mut nodes: Vec<CPNode> = Vec::new();
    let mut at: usize = pos;
    let mut read: i64 = 0;
    assert(node_views(nodes@) =~= Seq::empty());
    while read < count
        invariant
            0 <= read,
            read == nodes@.len(),
            nodes_from(buf@, pos as int, count as int, Seq::empty()) == nodes_from(
                buf@,
                at as int,
                count as int,
                node_views(nodes@),
            ),
        decreases count - read,
    {
        let ghost before = node_views(nodes@);
        let (node, next) = match read_node(buf, at) {
            Ok(found) => found,
            Err(e) => {
                return Err(e);
            },
        };
        nodes.push(node);
        assert(node_views(nodes@) =~= before.push(node@));
        at = next;
        read = read + 1;
    }
    Ok(nodes)
}

} // verus!
