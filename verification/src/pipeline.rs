//! The two per-tick pipeline steps: dispatching the attachment loads of a
//! node, and finalizing a completed load.
//!
//! The host performs the asset-service calls themselves.  For a dispatch it
//! requests one load per registered attachment (the source identifiers come
//! from [`TextureAttachmentFromDiskLoader::source_paths`]) and passes the
//! tickets and immediate load states in as [`LoadProbe`]s, in registry
//! order.  For a completion it passes the ticket of the notification and
//! the metadata of the now-resident image.

use vstd::prelude::*;

use crate::nodes::LoadingNodes;
use crate::registry::TextureAttachmentFromDisk;
use crate::registry::TextureAttachmentFromDiskLoader;
use crate::texture::{NodeAttachment, ResidentImage};
use crate::{AttachmentError, HandleId, NodeId};

verus! {

/// What the asset service reports for a freshly requested load.
#[derive(Clone, Copy, Debug, PartialEq, Eq, Structural)]
pub enum LoadState {
    Pending,
    Loaded,
}

/// What the host learned from the asset service for one attachment of the
/// node being dispatched: the ticket the request returned, and whether the
/// resource is already fully resident.
#[derive(Clone, Copy, Debug, PartialEq, Eq, Structural)]
pub struct LoadProbe {
    pub handle: HandleId,
    pub state: LoadState,
}

/// Whether some pending probe carries ticket `t`.
pub open spec fn pending_handle(probes: Seq<LoadProbe>, t: HandleId) -> bool {
    exists|i: int| 0 <= i < probes.len() && probes[i].state is Pending && probes[i].handle == t
}

/// Whether recording the pending probes into the correlation table `m`
/// would hit a ticket twice: one of them is already recorded, or two of
/// them share a ticket.
pub open spec fn duplicate_pending(
    m: Map<HandleId, (NodeId, String)>,
    probes: Seq<LoadProbe>,
) -> bool {
    exists|i: int|
        #![trigger probes[i]]
        0 <= i < probes.len() && probes[i].state is Pending && (m.contains_key(probes[i].handle)
            || pending_handle(probes.take(i), probes[i].handle))
}

/// The labels resolved on the fast path: those whose probe found the
/// resource already resident, in registry order.
pub open spec fn fast_labels(
    atts: Seq<(String, TextureAttachmentFromDisk)>,
    probes: Seq<LoadProbe>,
) -> Seq<String>
    decreases probes.len(),
{
    if atts.len() == 0 || probes.len() == 0 {
        Seq::empty()
    } else {
        fast_labels(atts.drop_last(), probes.drop_last()) + if probes.last().state is Loaded {
            seq![atts.last().0]
        } else {
            Seq::empty()
        }
    }
}

/// The attachment slot writes a dispatch performs: one per registered
/// label, carrying the ticket of its load, in registry order.
pub open spec fn slot_entries(
    atts: Seq<(String, TextureAttachmentFromDisk)>,
    probes: Seq<LoadProbe>,
) -> Seq<(String, NodeAttachment)>
    decreases probes.len(),
{
    if atts.len() == 0 || probes.len() == 0 {
        Seq::empty()
    } else {
        slot_entries(atts.drop_last(), probes.drop_last()).push(
            (atts.last().0, NodeAttachment::Texture { handle: probes.last().handle }),
        )
    }
}

proof fn lemma_take_step(
    atts: Seq<(String, TextureAttachmentFromDisk)>,
    probes: Seq<LoadProbe>,
    i: int,
)
    requires
        atts.len() == probes.len(),
        0 <= i < probes.len(),
    ensures
        fast_labels(atts.take(i + 1), probes.take(i + 1)) == fast_labels(
            atts.take(i),
            probes.take(i),
        ) + (if probes[i].state is Loaded {
            seq![atts[i].0]
        } else {
            Seq::<String>::empty()
        }),
        slot_entries(atts.take(i + 1), probes.take(i + 1)) == slot_entries(
            atts.take(i),
            probes.take(i),
        ).push((atts[i].0, NodeAttachment::Texture { handle: probes[i].handle })),
{
    assert(atts.take(i + 1).drop_last() =~= atts.take(i));
    assert(probes.take(i + 1).drop_last() =~= probes.take(i));
    assert(atts.take(i + 1).last() == atts[i]);
    assert(probes.take(i + 1).last() == probes[i]);
    if i == 0 && probes[0].state is Loaded {
        assert(fast_labels(atts.take(0), probes.take(0)) + seq![atts[0].0] =~= seq![atts[0].0]);
    }
}

proof fn lemma_pending_take_step(probes: Seq<LoadProbe>, i: int, t: HandleId)
    requires
        0 <= i < probes.len(),
    ensures
        pending_handle(probes.take(i + 1), t) <==> (pending_handle(probes.take(i), t) || (
        probes[i].state is Pending && probes[i].handle == t)),
{
    if pending_handle(probes.take(i + 1), t) {
        let k = choose|k: int|
            #![trigger probes.take(i + 1)[k]]
            0 <= k < i + 1 && probes.take(i + 1)[k].state is Pending && probes.take(i + 1)[k].handle
                == t;
        if k < i {
            assert(probes.take(i)[k].state is Pending && probes.take(i)[k].handle == t);
        } else {
            assert(probes[i].state is Pending && probes[i].handle == t);
        }
    }
    if pending_handle(probes.take(i), t) {
        let k = choose|k: int|
            #![trigger probes.take(i)[k]]
            0 <= k < i && probes.take(i)[k].state is Pending && probes.take(i)[k].handle == t;
        assert(probes.take(i + 1)[k].state is Pending && probes.take(i + 1)[k].handle == t);
    }
    if probes[i].state is Pending && probes[i].handle == t {
        assert(probes.take(i + 1)[i].state is Pending && probes.take(i + 1)[i].handle == t);
    }
}

/// With no duplicate among the pending probes, probe `i`'s ticket is
/// neither recorded already nor shared with an earlier pending probe.
proof fn lemma_no_duplicate_entry(
    m: Map<HandleId, (NodeId, String)>,
    probes: Seq<LoadProbe>,
    i: int,
)
    requires
        !duplicate_pending(m, probes),
        0 <= i < probes.len(),
        probes[i].state is Pending,
    ensures
        !m.contains_key(probes[i].handle),
        !pending_handle(probes.take(i), probes[i].handle),
{
    if m.contains_key(probes[i].handle) || pending_handle(probes.take(i), probes[i].handle) {
        assert(0 <= i < probes.len() && probes[i].state is Pending && (m.contains_key(
            probes[i].handle,
        ) || pending_handle(probes.take(i), probes[i].handle)));
        assert(duplicate_pending(m, probes));
    }
}

/// How the correlation table evolves over a dispatch: after the first `k`
/// probes, the table of a context that started as `m0` holds exactly its
/// old entries plus one entry per pending probe seen so far, each mapping
/// that probe's ticket to the node and the probe's attachment label.
pub open spec fn mapping_evolved(
    m0: Map<HandleId, (NodeId, String)>,
    m: Map<HandleId, (NodeId, String)>,
    probes: Seq<LoadProbe>,
    atts: Seq<(String, TextureAttachmentFromDisk)>,
    node_id: NodeId,
    k: int,
) -> bool {
    &&& forall|t: HandleId|
        #![trigger m.contains_key(t)]
        m.contains_key(t) <==> (m0.contains_key(t) || pending_handle(probes.take(k), t))
    &&& forall|t: HandleId| #![trigger m0.contains_key(t)] m0.contains_key(t) ==> m[t] == m0[t]
    &&& forall|j: int|
        #![trigger probes[j]]
        0 <= j < k && probes[j].state is Pending ==> m[probes[j].handle] == (node_id, atts[j].0)
}

proof fn lemma_evolved_start(
    m0: Map<HandleId, (NodeId, String)>,
    probes: Seq<LoadProbe>,
    atts: Seq<(String, TextureAttachmentFromDisk)>,
    node_id: NodeId,
)
    ensures
        mapping_evolved(m0, m0, probes, atts, node_id, 0),
{
    assert(probes.take(0) =~= Seq::<LoadProbe>::empty());
    assert forall|t: HandleId| !pending_handle(probes.take(0), t) by {
        if pending_handle(probes.take(0), t) {
            let k = choose|k: int|
                #![trigger probes.take(0)[k]]
                0 <= k < probes.take(0).len() && probes.take(0)[k].state is Pending && probes.take(
                    0,
                )[k].handle == t;
            assert(false);
        }
    }
}

proof fn lemma_evolved_step_loaded(
    m0: Map<HandleId, (NodeId, String)>,
    m: Map<HandleId, (NodeId, String)>,
    probes: Seq<LoadProbe>,
    atts: Seq<(String, TextureAttachmentFromDisk)>,
    node_id: NodeId,
    i: int,
)
    requires
        mapping_evolved(m0, m, probes, atts, node_id, i),
        0 <= i < probes.len(),
        !(probes[i].state is Pending),
    ensures
        mapping_evolved(m0, m, probes, atts, node_id, i + 1),
{
    assert forall|t: HandleId|
        #![trigger m.contains_key(t)]
        m.contains_key(t) <==> (m0.contains_key(t) || pending_handle(probes.take(i + 1), t)) by {
        lemma_pending_take_step(probes, i, t);
    }
}

proof fn lemma_evolved_step_pending(
    m0: Map<HandleId, (NodeId, String)>,
    m: Map<HandleId, (NodeId, String)>,
    probes: Seq<LoadProbe>,
    atts: Seq<(String, TextureAttachmentFromDisk)>,
    node_id: NodeId,
    i: int,
)
    requires
        mapping_evolved(m0, m, probes, atts, node_id, i),
        !duplicate_pending(m0, probes),
        0 <= i < probes.len(),
        probes[i].state is Pending,
        i < atts.len(),
    ensures
        !m.contains_key(probes[i].handle),
        mapping_evolved(
            m0,
            m.insert(probes[i].handle, (node_id, atts[i].0)),
            probes,
            atts,
            node_id,
            i + 1,
        ),
{
    let h = probes[i].handle;
    lemma_no_duplicate_entry(m0, probes, i);
    assert(!m.contains_key(h));
    let m1 = m.insert(h, (node_id, atts[i].0));
    assert forall|t: HandleId|
        #![trigger m1.contains_key(t)]
        m1.contains_key(t) <==> (m0.contains_key(t) || pending_handle(probes.take(i + 1), t)) by {
        lemma_pending_take_step(probes, i, t);
        assert(m.contains_key(t) <==> (m0.contains_key(t) || pending_handle(probes.take(i), t)));
    }
    assert forall|t: HandleId| #![trigger m0.contains_key(t)] m0.contains_key(t) implies m1[t]
        == m0[t] by {
        assert(m.contains_key(t));
        assert(t != h);
    }
    assert forall|j: int|
        #![trigger probes[j]]
        0 <= j < i + 1 && probes[j].state is Pending implies m1[probes[j].handle] == (
    node_id,
    atts[j].0,
    ) by {
        if j < i {
            if probes[j].handle == h {
                assert(probes.take(i)[j] == probes[j]);
                assert(pending_handle(probes.take(i), h));
            }
            assert(probes[j].handle != h);
            assert(m1[probes[j].handle] == m[probes[j].handle]);
        } else {
            assert(m1[h] == (node_id, atts[i].0));
        }
    }
}

/// Dispatches the attachment loads of node `node_id`: per registered
/// attachment, in registry order, either reports the label loaded at once
/// (the probe found the resource resident) or records the ticket in the
/// correlation table for a later completion, and in both cases reserves
/// the node's attachment slot for the label.
///
/// `probes` holds the asset service's answers for the node's attachments,
/// aligned with the registry entries.  Dispatching for a node that is not
/// loading fails with `UnknownNode`; a ticket that is already recorded, or
/// shared between two pending probes, fails with `DuplicateTicket`.  A
/// failed dispatch changes nothing.
pub fn start_loading_attachment_from_disk(
    config: &mut TextureAttachmentFromDiskLoader,
    nodes: &mut LoadingNodes,
    node_id: NodeId,
    probes: &Vec<LoadProbe>,
) -> (r: Result<(), AttachmentError>)
    requires
        old(config).wf(),
        probes@.len() == old(config).attachments_seq().len(),
    ensures
        final(config).wf(),
        final(config).attachments_seq() == old(config).attachments_seq(),
        final(config).definitions_view() == old(config).definitions_view(),
        (r == Err::<(), AttachmentError>(AttachmentError::UnknownNode)) <==> !old(
            nodes,
        ).map().contains_key(node_id),
        (r == Err::<(), AttachmentError>(AttachmentError::DuplicateTicket)) <==> (old(
            nodes,
        ).map().contains_key(node_id) && duplicate_pending(old(config).mapping(), probes@)),
        r is Ok <==> (old(nodes).map().contains_key(node_id) && !duplicate_pending(
            old(config).mapping(),
            probes@,
        )),
        r is Err ==> final(config).mapping() == old(config).mapping() && final(nodes).map() == old(
            nodes,
        ).map(),
        r is Ok ==> ({
            &&& mapping_evolved(
                old(config).mapping(),
                final(config).mapping(),
                probes@,
                old(config).attachments_seq(),
                node_id,
                probes@.len() as int,
            )
            &&& final(nodes).map().contains_key(node_id)
            &&& final(nodes).map()[node_id].reports() == old(nodes).map()[node_id].reports()
                + fast_labels(old(config).attachments_seq(), probes@)
            &&& final(nodes).map()[node_id].slots() == old(nodes).map()[node_id].slots()
                + slot_entries(old(config).attachments_seq(), probes@)
            &&& final(nodes).map() == old(nodes).map().insert(
                node_id,
                final(nodes).map()[node_id],
            )
        }),
{
    if !nodes.contains(node_id) {
        return Err(AttachmentError::UnknownNode);
    }
    if has_duplicate_pending(config, probes) {
        return Err(AttachmentError::DuplicateTicket);
    }
    let taken = nodes.take(node_id);
    let mut node = match taken {
        Some(node) => node,
        None => {
            proof {
                assert(false);
            }
            return Err(AttachmentError::UnknownNode);
        },
    };
    let ghost atts = old(config).attachments_seq();
    let ghost m0 = old(config).mapping();
    let ghost node0 = old(nodes).map()[node_id];
    proof {
        lemma_evolved_start(m0, probes@, atts, node_id);
        assert(node.reports() =~= node0.reports() + fast_labels(atts.take(0), probes@.take(0)));
        assert(node.slots() =~= node0.slots() + slot_entries(atts.take(0), probes@.take(0)));
    }
    let n = probes.len();
    let mut i: usize = 0;
    while i < n
        invariant
            n == probes@.len(),
            i <= n,
            config.wf(),
            config.attachments_seq() == atts,
            config.definitions_view() == old(config).definitions_view(),
            atts.len() == n,
            !duplicate_pending(m0, probes@),
            mapping_evolved(m0, config.mapping(), probes@, atts, node_id, i as int),
            node.reports() == node0.reports() + fast_labels(
                atts.take(i as int),
                probes@.take(i as int),
            ),
            node.slots() == node0.slots() + slot_entries(
                atts.take(i as int),
                probes@.take(i as int),
            ),
            nodes.map() == old(nodes).map().remove(node_id),
        decreases n - i,
    {
        let ghost gi = i as int;
        let probe = probes[i];
        let label: String = {
            let defs = config.definitions();
            defs[i].0.clone()
        };
        proof {
            assert(label == atts[gi].0);
        }
        match probe.state {
            LoadState::Loaded => {
                node.loaded(&label);
                proof {
                    lemma_evolved_step_loaded(m0, config.mapping(), probes@, atts, node_id, gi);
                }
            },
            LoadState::Pending => {
                proof {
                    lemma_evolved_step_pending(m0, config.mapping(), probes@, atts, node_id, gi);
                    assert(!config.mapping().contains_key(probe.handle));
                }
                let recorded = config.record(probe.handle, node_id, label.clone());
                proof {
                    assert(recorded is Ok);
                }
            },
        }
        node.set_attachment(label, NodeAttachment::Texture { handle: probe.handle });
        proof {
            lemma_take_step(atts, probes@, gi);
        }
        i += 1;
    }
    proof {
        assert(atts.take(n as int) =~= atts);
        assert(probes@.take(n as int) =~= probes@);
    }
    let ghost gnode = node;
    nodes.put(node_id, node);
    proof {
        assert(old(nodes).map().remove(node_id).insert(node_id, gnode) =~= old(
            nodes,
        ).map().insert(node_id, gnode));
    }
    Ok(())
}

/// Which pending probes, if any, have not yet been seen to collide with
/// the table or an earlier pending probe.
spec fn no_collision_upto(
    m: Map<HandleId, (NodeId, String)>,
    probes: Seq<LoadProbe>,
    i: int,
) -> bool {
    forall|k: int|
        #![trigger probes[k]]
        0 <= k < i && probes[k].state is Pending ==> !m.contains_key(probes[k].handle)
            && !pending_handle(probes.take(k), probes[k].handle)
}

proof fn lemma_no_collision_full(m: Map<HandleId, (NodeId, String)>, probes: Seq<LoadProbe>)
    requires
        no_collision_upto(m, probes, probes.len() as int),
    ensures
        !duplicate_pending(m, probes),
{
    if duplicate_pending(m, probes) {
        let k = choose|k: int|
            #![trigger probes[k]]
            0 <= k < probes.len() && probes[k].state is Pending && (m.contains_key(probes[k].handle)
                || pending_handle(probes.take(k), probes[k].handle));
        assert(!m.contains_key(probes[k].handle) && !pending_handle(
            probes.take(k),
            probes[k].handle,
        ));
        assert(false);
    }
}

/// Whether recording the pending probes would hit a ticket twice.
fn has_duplicate_pending(config: &TextureAttachmentFromDiskLoader, probes: &Vec<LoadProbe>) -> (r:
    bool)
    ensures
        r == duplicate_pending(config.mapping(), probes@),
{
    let n = probes.len();
    let mut i: usize = 0;
    while i < n
        invariant
            n == probes@.len(),
            i <= n,
            no_collision_upto(config.mapping(), probes@, i as int),
        decreases n - i,
    {
        let probe = probes[i];
        let ghost gi = i as int;
        if matches!(probe.state, LoadState::Pending) {
            if config.contains_handle(probe.handle) {
                proof {
                    assert(0 <= gi < probes@.len() && probes@[gi].state is Pending
                        && config.mapping().contains_key(probes@[gi].handle));
                    assert(duplicate_pending(config.mapping(), probes@));
                }
                return true;
            }
            let mut j: usize = 0;
            while j < i
                invariant
                    j <= i,
                    i < n,
                    n == probes@.len(),
                    gi == i as int,
                    probes@[gi].state is Pending,
                    probe == probes@[gi],
                    forall|k: int|
                        #![trigger probes@[k]]
                        0 <= k < j ==> !(probes@[k].state is Pending && probes@[k].handle
                            == probe.handle),
                decreases i - j,
            {
                let other = probes[j];
                if matches!(other.state, LoadState::Pending) && other.handle == probe.handle {
                    proof {
                        assert(0 <= j < i && gi == i as int);
                        assert(probes@.take(gi)[j as int] == probes@[j as int]);
                        assert(probes@.take(gi)[j as int].state is Pending && probes@.take(
                            gi,
                        )[j as int].handle == probes@[gi].handle);
                        assert(pending_handle(probes@.take(gi), probes@[gi].handle));
                    }
                    return true;
                }
                j += 1;
            }
            proof {
                if pending_handle(probes@.take(gi), probes@[gi].handle) {
                    let k = choose|k: int|
                        #![trigger probes@.take(gi)[k]]
                        0 <= k < probes@.take(gi).len() && probes@.take(gi)[k].state is Pending
                            && probes@.take(gi)[k].handle == probes@[gi].handle;
                    assert(probes@.take(gi)[k] == probes@[k]);
                    assert(false);
                }
            }
        }
        i += 1;
    }
    proof {
        lemma_no_collision_full(config.mapping(), probes@);
    }
    false
}


/// Fast-path law, first half: a probe that found its resource already
/// resident has its label reported loaded within the dispatch itself.
pub proof fn lemma_fast_path_reports(
    atts: Seq<(String, TextureAttachmentFromDisk)>,
    probes: Seq<LoadProbe>,
    i: int,
)
    requires
        atts.len() == probes.len(),
        0 <= i < probes.len(),
        probes[i].state is Loaded,
    ensures
        fast_labels(atts, probes).contains(atts[i].0),
    decreases probes.len(),
{
    let fl = fast_labels(atts, probes);
    let rec = fast_labels(atts.drop_last(), probes.drop_last());
    if i == probes.len() - 1 {
        assert(fl[rec.len() as int] == atts[i].0);
    } else {
        assert(atts.drop_last()[i] == atts[i]);
        assert(probes.drop_last()[i] == probes[i]);
        lemma_fast_path_reports(atts.drop_last(), probes.drop_last(), i);
        let idx = choose|idx: int| 0 <= idx < rec.len() && rec[idx] == atts.drop_last()[i].0;
        assert(fl[idx] == atts[i].0);
    }
}

/// Fast-path law, second half: a dispatch adds correlation entries only
/// for pending probes, so a ticket that no pending probe carries is in the
/// table afterwards only if it already was before.
pub proof fn lemma_fast_path_adds_no_entry(
    m0: Map<HandleId, (NodeId, String)>,
    m: Map<HandleId, (NodeId, String)>,
    probes: Seq<LoadProbe>,
    atts: Seq<(String, TextureAttachmentFromDisk)>,
    node_id: NodeId,
    t: HandleId,
)
    requires
        mapping_evolved(m0, m, probes, atts, node_id, probes.len() as int),
        !m0.contains_key(t),
        !pending_handle(probes, t),
    ensures
        !m.contains_key(t),
{
    assert(probes.take(probes.len() as int) =~= probes);
}

/// Every label a dispatch reports loaded belongs to a probe that found its
/// resource resident.
proof fn lemma_fast_labels_from_loaded(
    atts: Seq<(String, TextureAttachmentFromDisk)>,
    probes: Seq<LoadProbe>,
    l: String,
)
    requires
        atts.len() == probes.len(),
        fast_labels(atts, probes).contains(l),
    ensures
        exists|j: int|
            #![trigger probes[j]]
            0 <= j < probes.len() && probes[j].state is Loaded && atts[j].0 == l,
    decreases probes.len(),
{
    let fl = fast_labels(atts, probes);
    let rec = fast_labels(atts.drop_last(), probes.drop_last());
    let idx = choose|idx: int| 0 <= idx < fl.len() && fl[idx] == l;
    if idx < rec.len() {
        assert(rec[idx] == l);
        lemma_fast_labels_from_loaded(atts.drop_last(), probes.drop_last(), l);
        let j = choose|j: int|
            #![trigger probes.drop_last()[j]]
            0 <= j < probes.drop_last().len() && probes.drop_last()[j].state is Loaded
                && atts.drop_last()[j].0 == l;
        assert(probes[j].state is Loaded && atts[j].0 == l);
    } else {
        assert(probes.last().state is Loaded);
        assert(l == atts.last().0);
        assert(probes[probes.len() - 1].state is Loaded && atts[probes.len() - 1].0 == l);
    }
}

/// Slow-path law: a probe that found its resource still pending leaves
/// exactly one correlation entry, mapping its ticket to the node and its
/// label, and its label is not among the loaded-reports of the dispatch.
pub proof fn lemma_slow_path(
    m0: Map<HandleId, (NodeId, String)>,
    m: Map<HandleId, (NodeId, String)>,
    probes: Seq<LoadProbe>,
    atts: Seq<(String, TextureAttachmentFromDisk)>,
    node_id: NodeId,
    i: int,
)
    requires
        mapping_evolved(m0, m, probes, atts, node_id, probes.len() as int),
        crate::registry::unique_labels(atts),
        atts.len() == probes.len(),
        0 <= i < probes.len(),
        probes[i].state is Pending,
    ensures
        m.contains_key(probes[i].handle),
        m[probes[i].handle] == (node_id, atts[i].0),
        !fast_labels(atts, probes).contains(atts[i].0),
{
    assert(probes.take(probes.len() as int) =~= probes);
    assert(pending_handle(probes, probes[i].handle));
    if fast_labels(atts, probes).contains(atts[i].0) {
        lemma_fast_labels_from_loaded(atts, probes, atts[i].0);
        let j = choose|j: int|
            #![trigger probes[j]]
            0 <= j < probes.len() && probes[j].state is Loaded && atts[j].0 == atts[i].0;
        assert(j != i);
        assert(atts[j].0@ == atts[i].0@);
        assert(false);
    }
}

/// How one completion notification was resolved.
#[derive(Debug)]
pub enum CompletionOutcome {
    /// The ticket is not recorded in this context's correlation table: the
    /// notification belongs to another context or an unrelated asset, and
    /// this context ignored it.
    Unmatched,
    /// The ticket was recorded, but its node has left the loading set in
    /// the meantime; the loaded-report was dropped.
    NodeGone { node_id: NodeId, label: String },
    /// The attachment was finalized and reported loaded to its node.
    Completed { node_id: NodeId, label: String },
}

/// Handles one asset-service completion notification for this streaming
/// context: consumes the correlation entry for `handle` if it is ours,
/// imposes the registered buffer layout of the recorded label on the
/// now-resident image, and reports the label loaded to the recorded node.
///
/// An unknown ticket leaves the context and the image untouched and is
/// reported as `Unmatched`, never as an error: other contexts share the
/// same notification stream.  A consumed entry whose label has left the
/// registry is the fatal `UnknownLabel` inconsistency; the entry stays
/// consumed, nothing else changes.
pub fn finish_loading_attachment_from_disk(
    config: &mut TextureAttachmentFromDiskLoader,
    nodes: &mut LoadingNodes,
    handle: HandleId,
    image: &mut ResidentImage,
) -> (r: Result<CompletionOutcome, AttachmentError>)
    requires
        old(config).wf(),
    ensures
        final(config).wf(),
        final(config).attachments_seq() == old(config).attachments_seq(),
        final(config).definitions_view() == old(config).definitions_view(),
        !old(config).mapping().contains_key(handle) ==> ({
            &&& r is Ok && (r matches Ok(o) ==> o is Unmatched)
            &&& final(config).mapping() == old(config).mapping()
            &&& final(nodes).map() == old(nodes).map()
            &&& *final(image) == *old(image)
        }),
        old(config).mapping().contains_key(handle) ==> ({
            let target = old(config).mapping()[handle];
            let node_id = target.0;
            let label = target.1;
            &&& final(config).mapping() == old(config).mapping().remove(handle)
            &&& (!old(config).definitions_view().contains_key(label@) ==> {
                &&& r == Err::<CompletionOutcome, AttachmentError>(AttachmentError::UnknownLabel)
                &&& final(nodes).map() == old(nodes).map()
                &&& *final(image) == *old(image)
            })
            &&& (old(config).definitions_view().contains_key(label@) ==> {
                &&& final(image).texture_descriptor == old(config).definitions_view()[
                    label@
                ].texture_descriptor
                &&& (!old(nodes).map().contains_key(node_id) ==> ({
                    &&& r == Ok::<CompletionOutcome, AttachmentError>(
                        (CompletionOutcome::NodeGone { node_id, label }),
                    )
                    &&& final(nodes).map() == old(nodes).map()
                }))
                &&& (old(nodes).map().contains_key(node_id) ==> ({
                    &&& r == Ok::<CompletionOutcome, AttachmentError>(
                        (CompletionOutcome::Completed { node_id, label }),
                    )
                    &&& final(nodes).map().contains_key(node_id)
                    &&& final(nodes).map()[node_id].reports() == old(
                        nodes,
                    ).map()[node_id].reports().push(label)
                    &&& final(nodes).map()[node_id].slots() == old(nodes).map()[node_id].slots()
                    &&& final(nodes).map() == old(nodes).map().insert(
                        node_id,
                        final(nodes).map()[node_id],
                    )
                }))
            })
        }),
{
    let target = config.consume(handle);
    match target {
        None => Ok(CompletionOutcome::Unmatched),
        Some((node_id, label)) => {
            let descriptor = match config.get_attachment(&label) {
                None => {
                    return Err(AttachmentError::UnknownLabel);
                },
                Some(attachment) => attachment.texture_descriptor,
            };
            image.texture_descriptor = descriptor;
            match nodes.take(node_id) {
                None => Ok(CompletionOutcome::NodeGone { node_id, label }),
                Some(node) => {
                    let mut node = node;
                    node.loaded(&label);
                    let ghost gnode = node;
                    nodes.put(node_id, node);
                    proof {
                        assert(old(nodes).map().remove(node_id).insert(node_id, gnode) =~= old(
                            nodes,
                        ).map().insert(node_id, gnode));
                    }
                    Ok(CompletionOutcome::Completed { node_id, label })
                },
            }
        },
    }
}

} // verus!
