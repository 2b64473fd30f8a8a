//! The attachment registry and the correlation table.
//!
//! A streaming context owns one [`TextureAttachmentFromDiskLoader`]: the
//! set of attachment definitions registered for its terrain, and the live
//! table that maps each in-flight load ticket back to the `(node, label)`
//! pair that issued it.

use std::collections::HashMap;

use vstd::prelude::*;

use crate::source_path::{attachment_source_path, source_path_spec};
use crate::texture::TextureDescriptor;
use crate::{AttachmentError, HandleId, NodeId};

verus! {

broadcast use vstd::std_specs::hash::group_hash_axioms;

/// One attachment definition: where to load the image of a node from, and
/// the buffer layout to impose on it once its bytes are resident.
pub struct TextureAttachmentFromDisk {
    /// Directory prefix of the source files; the node id and extension are
    /// appended per node.
    pub path: String,
    /// The layout that the decoded image must end up with, overriding
    /// whatever default the asset service picked.
    pub texture_descriptor: TextureDescriptor,
}

/// The mathematical content of a definition.
pub ghost struct AttachmentInfo {
    pub path: Seq<char>,
    pub texture_descriptor: TextureDescriptor,
}

impl View for TextureAttachmentFromDisk {
    type V = AttachmentInfo;

    open spec fn view(&self) -> AttachmentInfo {
        AttachmentInfo { path: self.path@, texture_descriptor: self.texture_descriptor }
    }
}

/// The label-to-definition map described by a list of registry entries,
/// later entries overriding earlier ones with the same label.
pub open spec fn entries_map(s: Seq<(String, TextureAttachmentFromDisk)>) -> Map<
    Seq<char>,
    AttachmentInfo,
>
    decreases s.len(),
{
    if s.len() == 0 {
        Map::empty()
    } else {
        entries_map(s.drop_last()).insert(s.last().0@, s.last().1@)
    }
}

/// No two entries carry the same label.
pub open spec fn unique_labels(s: Seq<(String, TextureAttachmentFromDisk)>) -> bool {
    forall|i: int, j: int| 0 <= i < j < s.len() ==> s[i].0@ != s[j].0@
}

pub proof fn lemma_entries_map_dom(s: Seq<(String, TextureAttachmentFromDisk)>, l: Seq<char>)
    ensures
        entries_map(s).contains_key(l) <==> exists|i: int| 0 <= i < s.len() && s[i].0@ == l,
    decreases s.len(),
{
    if s.len() > 0 {
        lemma_entries_map_dom(s.drop_last(), l);
        if entries_map(s).contains_key(l) {
            if s.last().0@ != l {
                let i = choose|i: int| 0 <= i < s.drop_last().len() && s.drop_last()[i].0@ == l;
                assert(s[i].0@ == l);
            } else {
                assert(s[s.len() - 1].0@ == l);
            }
        }
        if exists|i: int| 0 <= i < s.len() && s[i].0@ == l {
            let i = choose|i: int| 0 <= i < s.len() && s[i].0@ == l;
            if i < s.len() - 1 {
                assert(s.drop_last()[i].0@ == l);
            }
        }
    }
}

pub proof fn lemma_entries_map_value(
    s: Seq<(String, TextureAttachmentFromDisk)>,
    i: int,
)
    requires
        unique_labels(s),
        0 <= i < s.len(),
    ensures
        entries_map(s).contains_key(s[i].0@),
        entries_map(s)[s[i].0@] == s[i].1@,
    decreases s.len(),
{
    if i == s.len() - 1 {
        assert(entries_map(s) == entries_map(s.drop_last()).insert(s.last().0@, s.last().1@));
    } else {
        assert(unique_labels(s.drop_last()));
        assert(s.drop_last()[i] == s[i]);
        lemma_entries_map_value(s.drop_last(), i);
        assert(s[i].0@ != s.last().0@);
    }
}

pub proof fn lemma_entries_map_remove(s: Seq<(String, TextureAttachmentFromDisk)>, i: int)
    requires
        unique_labels(s),
        0 <= i < s.len(),
    ensures
        entries_map(s.remove(i)) == entries_map(s).remove(s[i].0@),
    decreases s.len(),
{
    if i == s.len() - 1 {
        assert(s.remove(i) =~= s.drop_last());
        lemma_entries_map_dom(s.drop_last(), s[i].0@);
        assert(!entries_map(s.drop_last()).contains_key(s[i].0@));
        assert(entries_map(s.drop_last()).insert(s.last().0@, s.last().1@).remove(s[i].0@)
            =~= entries_map(s.drop_last()));
    } else {
        assert(unique_labels(s.drop_last()));
        assert(s.remove(i).drop_last() =~= s.drop_last().remove(i));
        assert(s.remove(i).last() == s.last());
        lemma_entries_map_remove(s.drop_last(), i);
        assert(s[i].0@ != s.last().0@);
        assert(entries_map(s.remove(i)) == entries_map(s.drop_last().remove(i)).insert(
            s.last().0@,
            s.last().1@,
        ));
        assert(entries_map(s.drop_last()).remove(s[i].0@).insert(s.last().0@, s.last().1@)
            =~= entries_map(s.drop_last()).insert(s.last().0@, s.last().1@).remove(s[i].0@));
    }
}

/// The registry of attachment definitions of one streaming context,
/// together with its correlation table.
pub struct TextureAttachmentFromDiskLoader {
    attachments: Vec<(String, TextureAttachmentFromDisk)>,
    /// Maps the ticket of an in-flight load to the node id and attachment
    /// label that issued it.
    handle_mapping: HashMap<HandleId, (NodeId, String)>,
}

impl TextureAttachmentFromDiskLoader {
    /// The registered definition entries, in registration order.
    pub closed spec fn attachments_seq(&self) -> Seq<(String, TextureAttachmentFromDisk)> {
        self.attachments@
    }

    /// The label-to-definition view of the registry.
    pub open spec fn definitions_view(&self) -> Map<Seq<char>, AttachmentInfo> {
        entries_map(self.attachments_seq())
    }

    /// The correlation table: ticket to `(node id, label)`.
    pub closed spec fn mapping(&self) -> Map<HandleId, (NodeId, String)> {
        self.handle_mapping@
    }

    /// Each label is registered at most once.
    pub open spec fn wf(&self) -> bool {
        unique_labels(self.attachments_seq())
    }

    pub fn new() -> (r: Self)
        ensures
            r.wf(),
            r.attachments_seq() == Seq::<(String, TextureAttachmentFromDisk)>::empty(),
            r.definitions_view() == Map::<Seq<char>, AttachmentInfo>::empty(),
            r.mapping() == Map::<HandleId, (NodeId, String)>::empty(),
    {
        TextureAttachmentFromDiskLoader { attachments: Vec::new(), handle_mapping: HashMap::new() }
    }

    /// The position of `label` among the registered entries, if any.
    fn find_label(&self, label: &String) -> (r: Option<usize>)
        ensures
            match r {
                Some(i) => i < self.attachments_seq().len() && self.attachments_seq()[i as int].0@
                    == label@,
                None => forall|k: int|
                    0 <= k < self.attachments_seq().len() ==> self.attachments_seq()[k].0@
                        != label@,
            },
    {
        let n = self.attachments.len();
        let mut i: usize = 0;
        while i < n
            invariant
                n == self.attachments.len(),
                i <= n,
                forall|k: int| 0 <= k < i ==> self.attachments@[k].0@ != label@,
            decreases n - i,
        {
            if self.attachments[i].0 == *label {
                return Some(i);
            }
            i += 1;
        }
        None
    }

    /// Inserts or overwrites the definition for `label`; last write wins.
    pub fn add_attachment(&mut self, label: String, attachment: TextureAttachmentFromDisk)
        requires
            old(self).wf(),
        ensures
            final(self).wf(),
            final(self).definitions_view() == old(self).definitions_view().insert(
                label@,
                attachment@,
            ),
            final(self).mapping() == old(self).mapping(),
            !old(self).definitions_view().contains_key(label@) ==> final(self).attachments_seq()
                == old(self).attachments_seq().push((label, attachment)),
            old(self).definitions_view().contains_key(label@) ==> exists|i: int|
                #![trigger old(self).attachments_seq()[i]]
                0 <= i < old(self).attachments_seq().len() && old(self).attachments_seq()[i].0@
                    == label@ && final(self).attachments_seq() == old(
                    self,
                ).attachments_seq().remove(i).push((label, attachment)),
    {
        let found = self.find_label(&label);
        if let Some(i) = found {
            let ghost s0 = self.attachments@;
            let ghost idx = i as int;
            proof {
                lemma_entries_map_remove(s0, idx);
            }
            self.attachments.remove(i);
            let ghost pre = self.attachments@;
            proof {
                assert(pre == s0.remove(idx));
                assert forall|a: int, b: int| 0 <= a < b < pre.len() implies pre[a].0@
                    != pre[b].0@ by {
                    let a0 = if a < idx { a } else { a + 1 };
                    let b0 = if b < idx { b } else { b + 1 };
                    assert(pre[a] == s0[a0]);
                    assert(pre[b] == s0[b0]);
                }
                assert forall|k: int| 0 <= k < pre.len() implies pre[k].0@ != label@ by {
                    let k0 = if k < idx { k } else { k + 1 };
                    assert(pre[k] == s0[k0]);
                    assert(s0[idx].0@ == label@);
                }
            }
            self.attachments.push((label, attachment));
            proof {
                assert(self.attachments@.drop_last() =~= pre);
                assert(entries_map(self.attachments@) == entries_map(pre).insert(
                    label@,
                    attachment@,
                ));
                assert(entries_map(pre) == entries_map(s0).remove(s0[idx].0@));
                assert(entries_map(s0).remove(label@).insert(label@, attachment@)
                    =~= entries_map(s0).insert(label@, attachment@));
                assert(unique_labels(self.attachments@));
                lemma_entries_map_dom(s0, label@);
                assert(old(self).definitions_view().contains_key(label@));
                assert(0 <= idx < old(self).attachments_seq().len() && old(
                    self,
                ).attachments_seq()[idx].0@ == label@);
            }
        } else {
            let ghost pre = self.attachments@;
            self.attachments.push((label, attachment));
            proof {
                assert(self.attachments@.drop_last() =~= pre);
                assert(entries_map(self.attachments@) == entries_map(pre).insert(
                    label@,
                    attachment@,
                ));
                assert forall|k: int| 0 <= k < pre.len() implies pre[k].0@ != label@ by {
                    assert(pre[k] == old(self).attachments_seq()[k]);
                }
                assert(unique_labels(self.attachments@));
                lemma_entries_map_dom(pre, label@);
                assert(!old(self).definitions_view().contains_key(label@));
            }
        }
    }

    /// The list of `(label, definition)` pairs, for iteration by the host;
    /// labels are unique, order carries no meaning.
    pub fn definitions(&self) -> (r: &Vec<(String, TextureAttachmentFromDisk)>)
        ensures
            r@ == self.attachments_seq(),
    {
        &self.attachments
    }

    /// Looks the definition for `label` up.
    pub fn get_attachment(&self, label: &String) -> (r: Option<&TextureAttachmentFromDisk>)
        requires
            self.wf(),
        ensures
            match r {
                Some(a) => self.definitions_view().contains_key(label@) && a@
                    == self.definitions_view()[label@],
                None => !self.definitions_view().contains_key(label@),
            },
    {
        let n = self.attachments.len();
        let mut i: usize = 0;
        while i < n
            invariant
                self.wf(),
                n == self.attachments.len(),
                i <= n,
                forall|k: int| 0 <= k < i ==> self.attachments@[k].0@ != label@,
            decreases n - i,
        {
            if self.attachments[i].0 == *label {
                proof {
                    lemma_entries_map_value(self.attachments@, i as int);
                }
                return Some(&self.attachments[i].1);
            }
            i += 1;
        }
        proof {
            lemma_entries_map_dom(self.attachments@, label@);
        }
        None
    }

    /// Whether ticket `handle` is currently recorded in the correlation
    /// table.
    pub fn contains_handle(&self, handle: HandleId) -> (r: bool)
        ensures
            r == self.mapping().contains_key(handle),
    {
        self.handle_mapping.contains_key(&handle)
    }

    /// Records that ticket `handle` belongs to `(node_id, label)`.  A
    /// ticket may be recorded at most once; a second recording is the
    /// defensive `DuplicateTicket` failure and leaves the table unchanged.
    pub fn record(&mut self, handle: HandleId, node_id: NodeId, label: String) -> (r: Result<
        (),
        AttachmentError,
    >)
        ensures
            final(self).attachments_seq() == old(self).attachments_seq(),
            final(self).definitions_view() == old(self).definitions_view(),
            final(self).wf() <==> old(self).wf(),
            match r {
                Ok(()) => !old(self).mapping().contains_key(handle) && final(self).mapping()
                    == old(self).mapping().insert(handle, (node_id, label)),
                Err(e) => e == AttachmentError::DuplicateTicket && old(
                    self,
                ).mapping().contains_key(handle) && final(self).mapping() == old(self).mapping(),
            },
    {
        if self.handle_mapping.contains_key(&handle) {
            Err(AttachmentError::DuplicateTicket)
        } else {
            self.handle_mapping.insert(handle, (node_id, label));
            Ok(())
        }
    }

    /// Returns and removes the `(node id, label)` pair recorded for ticket
    /// `handle`; `None` if the ticket is unknown here, which a caller must
    /// treat as "this notification is not mine", never as an error.
    pub fn consume(&mut self, handle: HandleId) -> (r: Option<(NodeId, String)>)
        ensures
            final(self).attachments_seq() == old(self).attachments_seq(),
            final(self).definitions_view() == old(self).definitions_view(),
            final(self).wf() <==> old(self).wf(),
            match r {
                Some(target) => old(self).mapping().contains_key(handle) && target == old(
                    self,
                ).mapping()[handle] && final(self).mapping() == old(self).mapping().remove(handle),
                None => !old(self).mapping().contains_key(handle) && final(self).mapping() == old(
                    self,
                ).mapping(),
            },
    {
        let r = self.handle_mapping.remove(&handle);
        proof {
            if !old(self).mapping().contains_key(handle) {
                assert(old(self).mapping().remove(handle) =~= old(self).mapping());
            }
        }
        r
    }

    /// The concrete source identifier of every registered attachment for
    /// node `node_id`, in registry order.
    pub fn source_paths(&self, node_id: NodeId) -> (r: Vec<String>)
        ensures
            r@.len() == self.attachments_seq().len(),
            forall|i: int|
                0 <= i < r@.len() ==> r@[i]@ == source_path_spec(
                    self.attachments_seq()[i].1.path@,
                    node_id,
                ),
    {
        let n = self.attachments.len();
        let mut r: Vec<String> = Vec::new();
        let mut i: usize = 0;
        while i < n
            invariant
                n == self.attachments.len(),
                i <= n,
                r@.len() == i,
                forall|k: int|
                    0 <= k < i ==> r@[k]@ == source_path_spec(
                        self.attachments@[k].1.path@,
                        node_id,
                    ),
            decreases n - i,
        {
            r.push(attachment_source_path(self.attachments[i].1.path.as_str(), node_id));
            i += 1;
        }
        r
    }
}

/// Completion-correlation law: consuming a recorded ticket removes it and
/// nothing else, so a matching notification is claimed exactly once — a
/// second consumption of the same ticket finds nothing.
pub proof fn lemma_completion_consumes_once(m: Map<HandleId, (NodeId, String)>, t: HandleId)
    requires
        m.contains_key(t),
    ensures
        !m.remove(t).contains_key(t),
        forall|u: HandleId|
            u != t ==> (#[trigger] m.remove(t).contains_key(u) <==> m.contains_key(u)),
        forall|u: HandleId|
            u != t && m.contains_key(u) ==> #[trigger] m.remove(t)[u] == m[u],
{
}

/// Cross-context isolation law: correlation tables of distinct streaming
/// contexts never share a ticket, so a ticket recorded by one context is
/// unknown to every other — its consumption there returns nothing and
/// leaves that context untouched.
pub proof fn lemma_cross_context_isolation(
    ours: Map<HandleId, (NodeId, String)>,
    other: Map<HandleId, (NodeId, String)>,
    t: HandleId,
)
    requires
        ours.dom().disjoint(other.dom()),
        ours.contains_key(t),
    ensures
        !other.contains_key(t),
{
    assert(ours.dom().contains(t));
}

/// Registering a label twice keeps a single entry for it, carrying the
/// second definition: the registry view is insensitive to the overwritten
/// first write.
pub proof fn lemma_register_last_write_wins(
    m: Map<Seq<char>, AttachmentInfo>,
    label: Seq<char>,
    first: AttachmentInfo,
    second: AttachmentInfo,
)
    ensures
        m.insert(label, first).insert(label, second) == m.insert(label, second),
        m.insert(label, first).insert(label, second)[label] == second,
{
    assert(m.insert(label, first).insert(label, second) =~= m.insert(label, second));
}

} // verus!
