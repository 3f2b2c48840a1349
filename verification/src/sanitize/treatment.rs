//! Core sanitization types: [`Change`], [`ChangeSet`], treatment metadata.
use vstd::prelude::*;
use crate::model::document::Field;
use crate::model::ids::{DocumentId, NodeId};
pub use crate::model::node::BookmarkFlag;

verus! {

/// High-level grouping used by the UI to organise treatments in the picker.
#[derive(Debug, Clone, Copy, PartialEq, Eq, Structural)]
pub enum TreatmentCategory {
    UrlQueryParam,
    UrlPath,
    UrlFragment,
    UrlHost,
    Title,
    FolderName,
    CrossField,
}

/// Per-instance configuration for a treatment (currently empty).
#[derive(Debug, Clone, Copy, Default)]
pub struct TreatmentConfig {}

/// Contextual information passed to every treatment proposal.
#[derive(Debug, Clone, Copy)]
pub struct PassContext {
    pub document_id: DocumentId,
}

/// The kind of a single proposed change.
#[derive(Debug, Clone)]
pub enum ChangeKind {
    /// Mutate a single text field from `before` to `after`.
    SetField { field: Field, before: String, after: String },
    /// Remove a node (and its entire subtree) from the document.
    DeleteNode,
    /// Set a boolean flag on a bookmark node.
    SetFlag { flag: BookmarkFlag, before: bool, after: bool },
}

pub enum ChangeKindV {
    SetField { field: Field, before: Seq<char>, after: Seq<char> },
    DeleteNode,
    SetFlag { flag: BookmarkFlag, before: bool, after: bool },
}

impl View for ChangeKind {
    type V = ChangeKindV;

    open spec fn view(&self) -> ChangeKindV {
        match self {
            ChangeKind::SetField { field, before, after } => ChangeKindV::SetField {
                field: *field,
                before: before@,
                after: after@,
            },
            ChangeKind::DeleteNode => ChangeKindV::DeleteNode,
            ChangeKind::SetFlag { flag, before, after } => ChangeKindV::SetFlag {
                flag: *flag,
                before: *before,
                after: *after,
            },
        }
    }
}

/// A proposed mutation on one node.
///
/// `approved` starts as `!destructive`; the UI flips it per row before
/// calling `Document::apply`.
#[derive(Debug, Clone)]
pub struct Change {
    pub node_id: NodeId,
    pub kind: ChangeKind,
    /// Id of the treatment that proposed this change.
    pub treatment_id: String,
    /// Human-readable explanation (shown in the preview panel).
    pub rationale: String,
    /// True for changes that may alter the URL destination or lose information.
    pub destructive: bool,
    /// Whether this change will be executed by `Document::apply`.
    pub approved: bool,
}

pub struct ChangeV {
    pub node_id: NodeId,
    pub kind: ChangeKindV,
    pub treatment_id: Seq<char>,
    pub rationale: Seq<char>,
    pub destructive: bool,
    pub approved: bool,
}

impl View for Change {
    type V = ChangeV;

    open spec fn view(&self) -> ChangeV {
        ChangeV {
            node_id: self.node_id,
            kind: self.kind@,
            treatment_id: self.treatment_id@,
            rationale: self.rationale@,
            destructive: self.destructive,
            approved: self.approved,
        }
    }
}

pub open spec fn changes_v(s: Seq<Change>) -> Seq<ChangeV> {
    s.map_values(|c: Change| c@)
}

impl Change {
    /// Propose a single text-field mutation; `approved` is `!destructive`.
    pub fn set_field(
        node_id: NodeId,
        field: Field,
        before: &str,
        after: &str,
        treatment_id: &str,
        rationale: &str,
        destructive: bool,
    ) -> (r: Change)
        ensures
            r@ == (ChangeV {
                node_id,
                kind: ChangeKindV::SetField { field, before: before@, after: after@ },
                treatment_id: treatment_id@,
                rationale: rationale@,
                destructive,
                approved: !destructive,
            }),
    {
        Change {
            node_id,
            kind: ChangeKind::SetField { field, before: before.to_owned(), after: after.to_owned() },
            treatment_id: treatment_id.to_owned(),
            rationale: rationale.to_owned(),
            destructive,
            approved: !destructive,
        }
    }

    /// Propose the deletion of a node: destructive and not approved.
    pub fn delete_node(node_id: NodeId, treatment_id: &str, rationale: &str) -> (r: Change)
        ensures
            r@ == (ChangeV {
                node_id,
                kind: ChangeKindV::DeleteNode,
                treatment_id: treatment_id@,
                rationale: rationale@,
                destructive: true,
                approved: false,
            }),
    {
        Change {
            node_id,
            kind: ChangeKind::DeleteNode,
            treatment_id: treatment_id.to_owned(),
            rationale: rationale.to_owned(),
            destructive: true,
            approved: false,
        }
    }

    /// Propose setting a boolean flag on a bookmark: non-destructive and
    /// approved.
    pub fn set_flag(
        node_id: NodeId,
        flag: BookmarkFlag,
        before: bool,
        after: bool,
        treatment_id: &str,
        rationale: &str,
    ) -> (r: Change)
        ensures
            r@ == (ChangeV {
                node_id,
                kind: ChangeKindV::SetFlag { flag, before, after },
                treatment_id: treatment_id@,
                rationale: rationale@,
                destructive: false,
                approved: true,
            }),
    {
        Change {
            node_id,
            kind: ChangeKind::SetFlag { flag, before, after },
            treatment_id: treatment_id.to_owned(),
            rationale: rationale.to_owned(),
            destructive: false,
            approved: true,
        }
    }

    /// A copy with the same view.
    pub fn duplicate(&self) -> (r: Change)
        ensures
            r@ == self@,
    {
        let kind = match &self.kind {
            ChangeKind::SetField { field, before, after } => ChangeKind::SetField {
                field: *field,
                before: before.clone(),
                after: after.clone(),
            },
            ChangeKind::DeleteNode => ChangeKind::DeleteNode,
            ChangeKind::SetFlag { flag, before, after } => ChangeKind::SetFlag {
                flag: *flag,
                before: *before,
                after: *after,
            },
        };
        Change {
            node_id: self.node_id,
            kind,
            treatment_id: self.treatment_id.clone(),
            rationale: self.rationale.clone(),
            destructive: self.destructive,
            approved: self.approved,
        }
    }

    /// The `before` text for a `SetField` change; `None` for other kinds.
    pub fn field_before(&self) -> (r: Option<&str>)
        ensures
            match self.kind@ {
                ChangeKindV::SetField { before, .. } => r is Some && r->0@ == before,
                _ => r is None,
            },
    {
        match &self.kind {
            ChangeKind::SetField { before, .. } => Some(before.as_str()),
            _ => None,
        }
    }

    /// The `after` text for a `SetField` change; `None` for other kinds.
    pub fn field_after(&self) -> (r: Option<&str>)
        ensures
            match self.kind@ {
                ChangeKindV::SetField { after, .. } => r is Some && r->0@ == after,
                _ => r is None,
            },
    {
        match &self.kind {
            ChangeKind::SetField { after, .. } => Some(after.as_str()),
            _ => None,
        }
    }

    /// The targeted `Field` for a `SetField` change; `None` for other kinds.
    pub fn target_field(&self) -> (r: Option<Field>)
        ensures
            match self.kind@ {
                ChangeKindV::SetField { field, .. } => r == Some(field),
                _ => r is None,
            },
    {
        match &self.kind {
            ChangeKind::SetField { field, .. } => Some(*field),
            _ => None,
        }
    }
}

/// The complete output of a pass: all proposed changes from all treatments.
#[derive(Debug)]
pub struct ChangeSet {
    /// Name of the rule set that produced this output.
    pub rule_set_name: String,
    pub changes: Vec<Change>,
}

/// A proposed text-field change, as `Change::set_field` builds it.
pub open spec fn field_change(
    node_id: NodeId,
    field: Field,
    before: Seq<char>,
    after: Seq<char>,
    treatment_id: Seq<char>,
    rationale: Seq<char>,
    destructive: bool,
) -> ChangeV {
    ChangeV {
        node_id,
        kind: ChangeKindV::SetField { field, before, after },
        treatment_id,
        rationale,
        destructive,
        approved: !destructive,
    }
}

/// A rewrite of one text field: no change when the text stays the same.
pub open spec fn rewrite(
    node_id: NodeId,
    field: Field,
    before: Seq<char>,
    after: Seq<char>,
    treatment_id: Seq<char>,
    rationale: Seq<char>,
    destructive: bool,
) -> Seq<ChangeV> {
    if before == after {
        Seq::empty()
    } else {
        seq![field_change(node_id, field, before, after, treatment_id, rationale, destructive)]
    }
}

/// Propose rewriting `field` of node `node_id` from `before` to `after`,
/// or nothing when the text stays the same.
pub fn propose_rewrite(
    node_id: NodeId,
    field: Field,
    before: &str,
    after: &str,
    treatment_id: &str,
    rationale: &str,
    destructive: bool,
) -> (r: Vec<Change>)
    ensures
        changes_v(r@) == rewrite(node_id, field, before@, after@, treatment_id@, rationale@, destructive),
{
    let mut out: Vec<Change> = Vec::new();
    if !crate::text::same_text(before, after) {
        out.push(Change::set_field(node_id, field, before, after, treatment_id, rationale, destructive));
    }
    proof {
        assert(changes_v(out@) =~= rewrite(node_id, field, before@, after@, treatment_id@, rationale@, destructive));
    }
    out
}

} // verus!
