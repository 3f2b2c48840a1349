//! Error types of the library.
use vstd::prelude::*;
use crate::model::ids::NodeId;
use crate::text::{decimal, decimal_v};

verus! {

/// The error type for document operations.
#[derive(Debug)]
pub enum CoreError {
    /// The input could not be made sense of as a bookmark file.
    ParseFailed { line: u32, column: u32, reason: String },
    /// A caller passed arguments that violate an invariant (e.g. an unknown
    /// node id).
    InvalidOperation(String),
}

/// Why `Document::apply` refused a change set.
#[derive(Debug, Clone, Copy, PartialEq, Eq, Structural)]
pub enum ApplyError {
    /// An approved change targets a node that is not in the tree.
    NodeNotFound(NodeId),
}

/// The text of a core error.
pub open spec fn core_message_v(e: CoreError) -> Seq<char> {
    match e {
        CoreError::ParseFailed { line, column, reason } => "parse failed at line "@ + decimal_v(line as nat)
            + ", column "@ + decimal_v(column as nat) + ": "@ + reason@,
        CoreError::InvalidOperation(m) => "invalid operation: "@ + m@,
    }
}

impl CoreError {
    /// The error's message.
    pub fn message(&self) -> (r: String)
        ensures
            r@ == core_message_v(*self),
    {
        match self {
            CoreError::ParseFailed { line, column, reason } => {
                let mut s = "parse failed at line ".to_owned();
                s.append(decimal(*line as u64).as_str());
                s.append(", column ");
                s.append(decimal(*column as u64).as_str());
                s.append(": ");
                s.append(reason.as_str());
                s
            },
            CoreError::InvalidOperation(m) => {
                let mut s = "invalid operation: ".to_owned();
                s.append(m.as_str());
                s
            },
        }
    }
}

/// The text of an apply error.
pub open spec fn apply_message_v(e: ApplyError) -> Seq<char> {
    match e {
        ApplyError::NodeNotFound(id) => "node "@ + decimal_v(id as nat) + " not found in document tree"@,
    }
}

impl ApplyError {
    /// The error's message.
    pub fn message(&self) -> (r: String)
        ensures
            r@ == apply_message_v(*self),
    {
        match self {
            ApplyError::NodeNotFound(id) => {
                let mut s = "node ".to_owned();
                s.append(decimal(*id).as_str());
                s.append(" not found in document tree");
                s
            },
        }
    }
}

/// Every error condition that reaches the user interface.
#[derive(Debug)]
pub enum UiError {
    /// A filesystem read or write failed.
    Io(String),
    /// The bookmark file could not be parsed.
    Parse { line: u32, column: u32, reason: String },
    /// No tab has the requested id.
    TabNotFound(u64),
    /// No pending change set has the requested id (expired or applied).
    ChangeSetNotFound(u64),
    /// The operation is not valid in the current state.
    InvalidOperation(String),
    /// An unexpected internal error.
    Internal(String),
}

/// The text of an interface error.
pub open spec fn ui_message_v(e: UiError) -> Seq<char> {
    match e {
        UiError::Io(m) => "I/O error: "@ + m@,
        UiError::Parse { line, column, reason } => "parse error at "@ + decimal_v(line as nat) + ":"@ + decimal_v(
            column as nat,
        ) + ": "@ + reason@,
        UiError::TabNotFound(id) => "tab "@ + decimal_v(id as nat) + " not found"@,
        UiError::ChangeSetNotFound(id) => "change set "@ + decimal_v(id as nat) + " not found or already applied"@,
        UiError::InvalidOperation(m) => "invalid operation: "@ + m@,
        UiError::Internal(m) => "internal error: "@ + m@,
    }
}

/// The interface error a core error becomes.
pub open spec fn ui_of_core(e: CoreError) -> UiError {
    match e {
        CoreError::ParseFailed { line, column, reason } => UiError::Parse { line, column, reason },
        CoreError::InvalidOperation(m) => UiError::InvalidOperation(m),
    }
}

impl UiError {
    /// The error's message.
    pub fn message(&self) -> (r: String)
        ensures
            r@ == ui_message_v(*self),
    {
        match self {
            UiError::Io(m) => {
                let mut s = "I/O error: ".to_owned();
                s.append(m.as_str());
                s
            },
            UiError::Parse { line, column, reason } => {
                let mut s = "parse error at ".to_owned();
                s.append(decimal(*line as u64).as_str());
                s.append(":");
                s.append(decimal(*column as u64).as_str());
                s.append(": ");
                s.append(reason.as_str());
                s
            },
            UiError::TabNotFound(id) => {
                let mut s = "tab ".to_owned();
                s.append(decimal(*id).as_str());
                s.append(" not found");
                s
            },
            UiError::ChangeSetNotFound(id) => {
                let mut s = "change set ".to_owned();
                s.append(decimal(*id).as_str());
                s.append(" not found or already applied");
                s
            },
            UiError::InvalidOperation(m) => {
                let mut s = "invalid operation: ".to_owned();
                s.append(m.as_str());
                s
            },
            UiError::Internal(m) => {
                let mut s = "internal error: ".to_owned();
                s.append(m.as_str());
                s
            },
        }
    }
}

impl From<CoreError> for UiError {
    fn from(e: CoreError) -> (r: Self) {
        match e {
            CoreError::ParseFailed { line, column, reason } => UiError::Parse { line, column, reason },
            CoreError::InvalidOperation(m) => UiError::InvalidOperation(m),
        }
    }
}

impl vstd::std_specs::convert::FromSpecImpl<CoreError> for UiError {
    open spec fn obeys_from_spec() -> bool {
        true
    }

    open spec fn from_spec(e: CoreError) -> UiError {
        ui_of_core(e)
    }
}

} // verus!
