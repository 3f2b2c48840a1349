//! What applying a change set, and replaying undo / redo entries, does to a
//! tree, stated over views.
use vstd::prelude::*;
use crate::model::document::{InverseKindV, InverseV};
use crate::model::edit::{
    insert_v, position_v, read_field_v, read_flag_v, remove_v, write_field_v, write_flag_v,
};
use crate::model::node::{FolderV, NodeId};
use crate::sanitize::treatment::{ChangeKindV, ChangeV};

verus! {

/// The approved changes of `cs`, in order.
pub open spec fn approved_only(cs: Seq<ChangeV>) -> Seq<ChangeV>
    decreases cs.len(),
{
    if cs.len() == 0 {
        Seq::empty()
    } else {
        let rest = approved_only(cs.drop_last());
        if cs.last().approved { rest.push(cs.last()) } else { rest }
    }
}

/// The node a change targets is present (and of a kind the change applies
/// to).
pub open spec fn change_target_present(f: FolderV, c: ChangeV) -> bool {
    match c.kind {
        ChangeKindV::SetField { field, .. } => read_field_v(f, c.node_id, field) is Some,
        ChangeKindV::DeleteNode => position_v(f, c.node_id) is Some,
        ChangeKindV::SetFlag { flag, .. } => read_flag_v(f, c.node_id, flag) is Some,
    }
}

/// The id of the first change (in order) whose target is missing.
pub open spec fn first_missing(f: FolderV, cs: Seq<ChangeV>) -> Option<NodeId>
    decreases cs.len(),
{
    if cs.len() == 0 {
        None
    } else {
        match first_missing(f, cs.drop_last()) {
            Some(id) => Some(id),
            None => if change_target_present(f, cs.last()) { None } else { Some(cs.last().node_id) },
        }
    }
}

/// One change applied to `f`, with the inverse that undoes it (none when
/// the target is gone).
pub open spec fn apply_step(f: FolderV, c: ChangeV) -> (FolderV, Option<InverseV>) {
    let id = c.node_id;
    match c.kind {
        ChangeKindV::SetField { field, after, .. } => match read_field_v(f, id, field) {
            Some(v) => (
                write_field_v(f, id, field, after),
                Some(InverseV { node_id: id, kind: InverseKindV::WriteField { field, value: v } }),
            ),
            None => (f, None),
        },
        ChangeKindV::DeleteNode => match position_v(f, id) {
            Some((pid, idx, n)) => (
                remove_v(f, id),
                Some(InverseV {
                    node_id: id,
                    kind: InverseKindV::RestoreNode { parent_id: pid, index: idx, snapshot: n },
                }),
            ),
            None => (f, None),
        },
        ChangeKindV::SetFlag { flag, after, .. } => match read_flag_v(f, id, flag) {
            Some(v) => (
                write_flag_v(f, id, flag, after),
                Some(InverseV { node_id: id, kind: InverseKindV::WriteFlag { flag, value: v } }),
            ),
            None => (f, None),
        },
    }
}

/// The changes applied in order, with the inverses collected in order.
pub open spec fn apply_steps(f: FolderV, cs: Seq<ChangeV>) -> (FolderV, Seq<InverseV>)
    decreases cs.len(),
{
    if cs.len() == 0 {
        (f, Seq::empty())
    } else {
        let (f1, invs) = apply_steps(f, cs.drop_last());
        let (f2, inv) = apply_step(f1, cs.last());
        match inv {
            Some(i) => (f2, invs.push(i)),
            None => (f2, invs),
        }
    }
}

/// The inverse that undoes applying `inv` to `f`, if it can be captured.
pub open spec fn capture_v(f: FolderV, inv: InverseV) -> Option<InverseKindV> {
    match inv.kind {
        InverseKindV::WriteField { field, .. } => match read_field_v(f, inv.node_id, field) {
            Some(v) => Some(InverseKindV::WriteField { field, value: v }),
            None => None,
        },
        InverseKindV::RestoreNode { .. } => Some(InverseKindV::RemoveNode),
        InverseKindV::RemoveNode => match position_v(f, inv.node_id) {
            Some((pid, idx, n)) => Some(InverseKindV::RestoreNode { parent_id: pid, index: idx, snapshot: n }),
            None => None,
        },
        InverseKindV::WriteFlag { flag, .. } => match read_flag_v(f, inv.node_id, flag) {
            Some(v) => Some(InverseKindV::WriteFlag { flag, value: v }),
            None => None,
        },
        InverseKindV::MoveNode { .. } => match position_v(f, inv.node_id) {
            Some((pid, idx, _)) => Some(InverseKindV::MoveNode { to_parent_id: pid, to_index: idx }),
            None => None,
        },
    }
}

/// `f` after applying one inverse.
pub open spec fn apply_inverse_v(f: FolderV, inv: InverseV) -> FolderV {
    let id = inv.node_id;
    match inv.kind {
        InverseKindV::WriteField { field, value } => write_field_v(f, id, field, value),
        InverseKindV::RestoreNode { parent_id, index, snapshot } => insert_v(f, parent_id, index, snapshot),
        InverseKindV::RemoveNode => remove_v(f, id),
        InverseKindV::WriteFlag { flag, value } => write_flag_v(f, id, flag, value),
        InverseKindV::MoveNode { to_parent_id, to_index } => match position_v(f, id) {
            Some((_, _, n)) => insert_v(remove_v(f, id), to_parent_id, to_index, n),
            None => f,
        },
    }
}

/// Replay `invs` newest first; returns the tree and the inverses that
/// reverse the replay, in the order they were captured.
pub open spec fn replay_v(f: FolderV, invs: Seq<InverseV>) -> (FolderV, Seq<InverseV>)
    decreases invs.len(),
{
    if invs.len() == 0 {
        (f, Seq::empty())
    } else {
        let inv = invs.last();
        let cap: Seq<InverseV> = match capture_v(f, inv) {
            Some(k) => seq![InverseV { node_id: inv.node_id, kind: k }],
            None => Seq::empty(),
        };
        let (f2, rest) = replay_v(apply_inverse_v(f, inv), invs.drop_last());
        (f2, cap + rest)
    }
}

} // verus!
