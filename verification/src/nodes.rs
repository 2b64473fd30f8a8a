//! The loading-node bookkeeping that the pipeline reports into.
//!
//! The host's node tracking structure owns the full node lifecycle
//! (activation, eviction, quadtree placement); the pipeline only ever
//! touches the nodes currently loading, through the two operations modeled
//! here: reserving an attachment slot, and reporting a label as loaded.
//! Both are kept as append-only logs so that "reported exactly once" is a
//! statement about the record itself.

use std::collections::HashMap;

use vstd::prelude::*;

use crate::texture::NodeAttachment;
use crate::NodeId;

verus! {

broadcast use vstd::std_specs::hash::group_hash_axioms;

/// How often `label` occurs in the report log `s`.
pub open spec fn count_label(s: Seq<String>, label: Seq<char>) -> nat
    decreases s.len(),
{
    if s.len() == 0 {
        0
    } else {
        count_label(s.drop_last(), label) + if s.last()@ == label {
            1nat
        } else {
            0nat
        }
    }
}

/// A loaded-report adds exactly one report for its label and none for any
/// other label: with every completion claimed at most once by the
/// correlation table, a label is reported loaded at most once per load.
pub proof fn lemma_report_count_push(s: Seq<String>, label: String, other: Seq<char>)
    ensures
        count_label(s.push(label), label@) == count_label(s, label@) + 1,
        other != label@ ==> count_label(s.push(label), other) == count_label(s, other),
{
    assert(s.push(label).drop_last() =~= s);
    assert(s.push(label).last() == label);
}

/// The record of one node that is currently loading.
pub struct LoadingNode {
    loaded_reports: Vec<String>,
    attachment_slots: Vec<(String, NodeAttachment)>,
}

impl LoadingNode {
    /// The labels reported loaded for this node, in report order.
    pub closed spec fn reports(&self) -> Seq<String> {
        self.loaded_reports@
    }

    /// The attachment slot writes for this node, in write order; the
    /// current slot for a label is the last write carrying it.
    pub closed spec fn slots(&self) -> Seq<(String, NodeAttachment)> {
        self.attachment_slots@
    }

    pub fn new() -> (r: Self)
        ensures
            r.reports() == Seq::<String>::empty(),
            r.slots() == Seq::<(String, NodeAttachment)>::empty(),
    {
        LoadingNode { loaded_reports: Vec::new(), attachment_slots: Vec::new() }
    }

    /// Reports the attachment `label` as loaded for this node.
    pub fn loaded(&mut self, label: &String)
        ensures
            final(self).reports() == old(self).reports().push(*label),
            final(self).slots() == old(self).slots(),
    {
        let entry = label.clone();
        self.loaded_reports.push(entry);
    }

    /// Reserves or overwrites the attachment slot for `label`.
    pub fn set_attachment(&mut self, label: String, attachment: NodeAttachment)
        ensures
            final(self).slots() == old(self).slots().push((label, attachment)),
            final(self).reports() == old(self).reports(),
    {
        self.attachment_slots.push((label, attachment));
    }

    /// The report log, for inspection by the host.
    pub fn loaded_reports(&self) -> (r: &Vec<String>)
        ensures
            r@ == self.reports(),
    {
        &self.loaded_reports
    }

    /// The slot-write log, for inspection by the host.
    pub fn attachment_slots(&self) -> (r: &Vec<(String, NodeAttachment)>)
        ensures
            r@ == self.slots(),
    {
        &self.attachment_slots
    }
}

/// The set of nodes currently loading, keyed by node id.
pub struct LoadingNodes {
    nodes: HashMap<NodeId, LoadingNode>,
}

impl LoadingNodes {
    pub closed spec fn map(&self) -> Map<NodeId, LoadingNode> {
        self.nodes@
    }

    pub fn new() -> (r: Self)
        ensures
            r.map() == Map::<NodeId, LoadingNode>::empty(),
    {
        LoadingNodes { nodes: HashMap::new() }
    }

    /// Enters `node_id` into the loading set with an empty record,
    /// replacing any record it already had.
    pub fn begin_loading(&mut self, node_id: NodeId)
        ensures
            final(self).map().contains_key(node_id),
            final(self).map()[node_id].reports() == Seq::<String>::empty(),
            final(self).map()[node_id].slots() == Seq::<(String, NodeAttachment)>::empty(),
            final(self).map() == old(self).map().insert(node_id, final(self).map()[node_id]),
    {
        self.nodes.insert(node_id, LoadingNode::new());
    }

    /// Drops `node_id` from the loading set, as the host does when a node
    /// is discarded before its loads finish.
    pub fn discard(&mut self, node_id: NodeId)
        ensures
            final(self).map() == old(self).map().remove(node_id),
    {
        self.nodes.remove(&node_id);
        proof {
            if !old(self).map().contains_key(node_id) {
                assert(old(self).map().remove(node_id) =~= old(self).map());
            }
        }
    }

    pub fn contains(&self, node_id: NodeId) -> (r: bool)
        ensures
            r == self.map().contains_key(node_id),
    {
        self.nodes.contains_key(&node_id)
    }

    /// The record of `node_id`, for inspection by the host.
    pub fn node(&self, node_id: NodeId) -> (r: Option<&LoadingNode>)
        ensures
            match r {
                Some(n) => self.map().contains_key(node_id) && *n == self.map()[node_id],
                None => !self.map().contains_key(node_id),
            },
    {
        self.nodes.get(&node_id)
    }

    /// Removes and returns the record of `node_id` for in-place update.
    pub(crate) fn take(&mut self, node_id: NodeId) -> (r: Option<LoadingNode>)
        ensures
            match r {
                Some(n) => old(self).map().contains_key(node_id) && n == old(self).map()[node_id]
                    && final(self).map() == old(self).map().remove(node_id),
                None => !old(self).map().contains_key(node_id) && final(self).map() == old(
                    self,
                ).map(),
            },
    {
        let r = self.nodes.remove(&node_id);
        proof {
            if !old(self).map().contains_key(node_id) {
                assert(old(self).map().remove(node_id) =~= old(self).map());
            }
        }
        r
    }

    /// Puts a record back under `node_id`.
    pub(crate) fn put(&mut self, node_id: NodeId, node: LoadingNode)
        ensures
            final(self).map() == old(self).map().insert(node_id, node),
    {
        self.nodes.insert(node_id, node);
    }
}

} // verus!
