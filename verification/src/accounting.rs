//! Byte accounting: how many of a node's bytes are its own.
//!
//! A node's `data_size` covers its children. Its immediate children are the
//! node at `child_idx` and the nodes reached from there by following
//! `next_idx` up to the sentinel. What the node owns is its size less the
//! sizes of those children; deeper descendants are already counted in their
//! parents' sizes.

use crate::error::SaveError;
use crate::node::{links_valid, node_views, NodeView, NO_LINK};
use crate::save::{read_save_structure, save_nodes, CPSave};
use vstd::prelude::*;

verus! {

/// The sizes of the nodes on the sibling chain that starts at `first`, added
/// up, following at most `fuel` links. `None` where the chain leaves the
/// table or has not reached the sentinel when the fuel runs out.
pub open spec fn chain_bytes(nodes: Seq<NodeView>, first: int, fuel: nat) -> Option<int>
    decreases fuel,
{
    if first == NO_LINK {
        Some(0)
    } else if fuel == 0 || !(0 <= first < nodes.len()) {
        None
    } else {
        match chain_bytes(nodes, nodes[first].next_idx, (fuel - 1) as nat) {
            Some(rest) => Some(nodes[first].data_size + rest),
            None => None,
        }
    }
}

/// The sizes of the immediate children of node `idx`, added up. A chain of
/// children has at most as many members as the table has nodes; `None` where
/// the chain has not ended by then.
pub open spec fn child_bytes(nodes: Seq<NodeView>, idx: int) -> Option<int> {
    chain_bytes(nodes, nodes[idx].child_idx, nodes.len())
}

/// The bytes that node `idx` owns: its size less its children's sizes.
/// `InconsistentAccounting` where the children claim more than the node
/// spans or their chain does not end.
pub open spec fn own_bytes_of(nodes: Seq<NodeView>, idx: int) -> Result<int, SaveError> {
    match child_bytes(nodes, idx) {
        Some(children) => if children <= nodes[idx].data_size {
            Ok(nodes[idx].data_size - children)
        } else {
            Err(SaveError::InconsistentAccounting)
        },
        None => Err(SaveError::InconsistentAccounting),
    }
}

/// What the accounting says of one node.
#[derive(Debug, PartialEq, Eq)]
pub struct NodeUsage {
    /// The node's name.
    pub name: String,
    /// The bytes that are the node's own, or `InconsistentAccounting`.
    pub own_bytes: Result<u32, SaveError>,
    /// The bytes that the node spans, its children included.
    pub total_bytes: u32,
}

/// A node's usage as contracts see it.
pub ghost struct UsageView {
    pub name: Seq<char>,
    pub own_bytes: Result<int, SaveError>,
    pub total_bytes: nat,
}

impl View for NodeUsage {
    type V = UsageView;

    open spec fn view(&self) -> UsageView {
        UsageView {
            name: self.name@,
            own_bytes: match self.own_bytes {
                Ok(own) => Ok(own as int),
                Err(e) => Err(e),
            },
            total_bytes: self.total_bytes as nat,
        }
    }
}

/// The usages of a list as contracts see them, in order.
pub open spec fn usage_views(usage: Seq<NodeUsage>) -> Seq<UsageView> {
    usage.map_values(|entry: NodeUsage| entry@)
}

/// The usage of node `idx`.
pub open spec fn usage_of(nodes: Seq<NodeView>, idx: int) -> UsageView {
    UsageView {
        name: nodes[idx].name,
        own_bytes: own_bytes_of(nodes, idx),
        total_bytes: nodes[idx].data_size,
    }
}

/// The usage of every node, in table order.
pub open spec fn usage_of_all(nodes: Seq<NodeView>) -> Seq<UsageView> {
    Seq::new(nodes.len(), |idx: int| usage_of(nodes, idx))
}

proof fn lemma_chain_bytes_bounds(nodes: Seq<NodeView>, first: int, fuel: nat)
    ensures
        chain_bytes(nodes, first, fuel) matches Some(sum) ==> 0 <= sum,
    decreases fuel,
{
    if first != NO_LINK && fuel != 0 && 0 <= first < nodes.len() {
        lemma_chain_bytes_bounds(nodes, nodes[first].next_idx, (fuel - 1) as nat);
    }
}

impl CPSave {
    /// Works out the bytes that node `idx` owns.
    pub fn own_bytes(&self, idx: usize) -> (r: Result<u32, SaveError>)
        requires
            idx < self@.nodes.len(),
        ensures
            match r {
                Ok(own) => own_bytes_of(self@.nodes, idx as int) == Ok::<int, SaveError>(
                    own as int,
                ),
                Err(e) => own_bytes_of(self@.nodes, idx as int) == Err::<int, SaveError>(e),
            },
    {
        let nodes = self.nodes();
        let count = nodes.len();
        let ghost views = node_views(nodes@);
        let total = nodes[idx].data_size;
        let first = nodes[idx].child_idx;
        assert(views[idx as int] == nodes@[idx as int]@);
        let mut cur: i32 = first;
        let mut children: u128 = 0;
        let mut steps: usize = 0;
        while cur != NO_LINK && steps < count
            invariant
                steps <= count,
                count == nodes@.len(),
                views == node_views(nodes@),
                links_valid(views),
                NO_LINK <= cur < count,
                children <= steps * 0xFFFF_FFFF,
                chain_bytes(views, first as int, count as nat) == match chain_bytes(
                    views,
                    cur as int,
                    (count - steps) as nat,
                ) {
                    Some(rest) => Some(children + rest),
                    None => None,
                },
            decreases count - steps,
        {
            let child = &nodes[cur as usize];
            assert(views[cur as int] == child@);
            children = children + child.data_size as u128;
            cur = child.next_idx;
            steps = steps + 1;
        }
        if cur != NO_LINK || children > total as u128 {
            Err(SaveError::InconsistentAccounting)
        } else {
            Ok(total - children as u32)
        }
    }

    /// Works out the usage of every node, in table order. A node whose
    /// children do not add up is flagged in its own entry and leaves the
    /// other entries as they are.
    pub fn account(&self) -> (usage: Vec<NodeUsage>)
        ensures
            usage_views(usage@) == usage_of_all(self@.nodes),
    {
        let nodes = self.nodes();
        let count = nodes.len();
        let mut usage: Vec<NodeUsage> = Vec::new();
        let mut idx: usize = 0;
        while idx < count
            invariant
                idx <= count,
                count == nodes@.len(),
                node_views(nodes@) == self@.nodes,
                usage@.len() == idx,
                forall|i: int| 0 <= i < idx ==> (#[trigger] usage@[i])@ == usage_of(self@.nodes, i),
            decreases count - idx,
        {
            let node = &nodes[idx];
            assert(node_views(nodes@)[idx as int] == node@);
            let own_bytes = self.own_bytes(idx);
            usage.push(NodeUsage { name: node.name.clone(), own_bytes, total_bytes: node.data_size });
            idx = idx + 1;
        }
        assert(usage_views(usage@) =~= usage_of_all(self@.nodes));
        usage
    }
}

/// Decodes a buffer and works out the usage of every node: the nodes' names
/// with their own and total bytes in table order, or the error that the
/// buffer fails with.
pub fn read_usage(payload: &[u8]) -> (r: Result<Vec<NodeUsage>, SaveError>)
    ensures
        match r {
            Ok(usage) => save_nodes(payload@) matches Ok(nodes) && usage_views(usage@)
                == usage_of_all(nodes),
            Err(e) => save_nodes(payload@) == Err::<Seq<NodeView>, SaveError>(e),
        },
{
    match read_save_structure(payload) {
        Ok(save) => Ok(save.account()),
        Err(e) => Err(e),
    }
}

/// A node without children owns all the bytes it spans.
pub proof fn lemma_leaf_owns_all(nodes: Seq<NodeView>, idx: int)
    requires
        0 <= idx < nodes.len(),
        nodes[idx].child_idx == NO_LINK,
    ensures
        own_bytes_of(nodes, idx) == Ok::<int, SaveError>(nodes[idx].data_size as int),
{
}

/// A node whose immediate children claim more bytes than it spans is
/// flagged: its own bytes are an error, never a number.
pub proof fn lemma_excess_is_flagged(nodes: Seq<NodeView>, idx: int)
    requires
        0 <= idx < nodes.len(),
        child_bytes(nodes, idx) matches Some(children) && children > nodes[idx].data_size,
    ensures
        own_bytes_of(nodes, idx) == Err::<int, SaveError>(SaveError::InconsistentAccounting),
{
}

/// Own bytes and children's bytes add up to the node's size, and neither is
/// negative, wherever own bytes are a number.
pub proof fn lemma_own_and_children_add_up(nodes: Seq<NodeView>, idx: int)
    requires
        0 <= idx < nodes.len(),
        own_bytes_of(nodes, idx) is Ok,
    ensures
        child_bytes(nodes, idx) is Some,
        0 <= own_bytes_of(nodes, idx)->Ok_0 <= nodes[idx].data_size,
        own_bytes_of(nodes, idx)->Ok_0 + child_bytes(nodes, idx)->0 == nodes[idx].data_size,
{
    lemma_chain_bytes_bounds(nodes, nodes[idx].child_idx, nodes.len());
}

/// How many links lead from `first` to the sentinel, following at most
/// `fuel`.
spec fn chain_len(nodes: Seq<NodeView>, first: int, fuel: nat) -> Option<nat>
    decreases fuel,
{
    if first == NO_LINK {
        Some(0)
    } else if fuel == 0 || !(0 <= first < nodes.len()) {
        None
    } else {
        match chain_len(nodes, nodes[first].next_idx, (fuel - 1) as nat) {
            Some(rest) => Some(rest + 1),
            None => None,
        }
    }
}

/// The nodes on the chain that starts at `first`, following at most `fuel`
/// links.
spec fn chain_members(nodes: Seq<NodeView>, first: int, fuel: nat) -> Set<int>
    decreases fuel,
{
    if first == NO_LINK || fuel == 0 || !(0 <= first < nodes.len()) {
        Set::empty()
    } else {
        chain_members(nodes, nodes[first].next_idx, (fuel - 1) as nat).insert(first)
    }
}

proof fn lemma_chain_len_exists(nodes: Seq<NodeView>, first: int, fuel: nat)
    ensures
        chain_bytes(nodes, first, fuel) is Some <==> chain_len(nodes, first, fuel) is Some,
    decreases fuel,
{
    if first != NO_LINK && fuel != 0 && 0 <= first < nodes.len() {
        lemma_chain_len_exists(nodes, nodes[first].next_idx, (fuel - 1) as nat);
    }
}

proof fn lemma_chain_len_bound(nodes: Seq<NodeView>, first: int, fuel: nat)
    requires
        chain_len(nodes, first, fuel) is Some,
    ensures
        chain_len(nodes, first, fuel)->0 <= fuel,
    decreases fuel,
{
    if first != NO_LINK {
        lemma_chain_len_bound(nodes, nodes[first].next_idx, (fuel - 1) as nat);
    }
}

proof fn lemma_chain_fuel(nodes: Seq<NodeView>, first: int, fuel: nat, other: nat)
    requires
        chain_len(nodes, first, fuel) is Some,
        other >= chain_len(nodes, first, fuel)->0,
    ensures
        chain_len(nodes, first, other) == chain_len(nodes, first, fuel),
        chain_bytes(nodes, first, other) == chain_bytes(nodes, first, fuel),
    decreases fuel,
{
    if first != NO_LINK {
        lemma_chain_fuel(nodes, nodes[first].next_idx, (fuel - 1) as nat, (other - 1) as nat);
    }
}

proof fn lemma_chain_members(nodes: Seq<NodeView>, first: int, fuel: nat)
    requires
        chain_len(nodes, first, fuel) is Some,
    ensures
        chain_members(nodes, first, fuel).finite(),
        chain_members(nodes, first, fuel).len() == chain_len(nodes, first, fuel)->0,
        forall|member: int| #[trigger]
            chain_members(nodes, first, fuel).contains(member) ==> {
                &&& 0 <= member < nodes.len()
                &&& chain_len(nodes, member, fuel) is Some
                &&& chain_len(nodes, member, fuel)->0 <= chain_len(nodes, first, fuel)->0
            },
    decreases fuel,
{
    if first != NO_LINK {
        let next = nodes[first].next_idx;
        let less = (fuel - 1) as nat;
        let rest = chain_members(nodes, next, less);
        lemma_chain_members(nodes, next, less);
        assert forall|member: int| #[trigger] rest.contains(member) implies {
            &&& chain_len(nodes, member, fuel) is Some
            &&& chain_len(nodes, member, fuel)->0 <= chain_len(nodes, next, less)->0
        } by {
            lemma_chain_len_bound(nodes, member, less);
            lemma_chain_fuel(nodes, member, less, fuel);
        }
        // Every member of the rest is nearer to the end than `first` is.
        assert(!rest.contains(first));
    }
}

/// A chain of siblings that ends at all ends within as many links as the
/// table has nodes: a longer walk would meet some node twice and then go
/// round for ever. Following a chain for more links than that changes
/// nothing.
pub proof fn lemma_chain_ends_within_table(nodes: Seq<NodeView>, first: int, fuel: nat)
    requires
        chain_bytes(nodes, first, fuel) is Some,
    ensures
        chain_bytes(nodes, first, nodes.len()) == chain_bytes(nodes, first, fuel),
{
    lemma_chain_len_exists(nodes, first, fuel);
    lemma_chain_members(nodes, first, fuel);
    let members = chain_members(nodes, first, fuel);
    let indices = vstd::set_lib::set_int_range(0, nodes.len() as int);
    vstd::set_lib::lemma_int_range(0, nodes.len() as int);
    assert(members.subset_of(indices));
    vstd::set_lib::lemma_len_subset(members, indices);
    lemma_chain_fuel(nodes, first, fuel, nodes.len());
}

/// Where the children of a node are not a number of bytes, their chain never
/// reaches the sentinel, however far it is followed.
pub proof fn lemma_unbounded_children(nodes: Seq<NodeView>, idx: int, fuel: nat)
    requires
        child_bytes(nodes, idx) is None,
    ensures
        chain_bytes(nodes, nodes[idx].child_idx, fuel) is None,
{
    if chain_bytes(nodes, nodes[idx].child_idx, fuel) is Some {
        lemma_chain_ends_within_table(nodes, nodes[idx].child_idx, fuel);
    }
}

} // verus!
