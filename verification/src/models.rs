use vstd::prelude::*;

use crate::process::{Process, ProcessView, Workflow, WorkflowView};

verus! {

/// The reported outcome of one process step of a workflow instance.
#[derive(Debug, Clone, Copy, PartialEq, Eq, Structural)]
pub enum Status {
    Success,
    InProgress,
    Failed,
}

/// A status report received from an orchestrated process.
#[derive(Debug)]
pub struct ToManager {
    pub uuid: String,
    /// Name of target workflow
    pub name: String,
    /// Version of target workflow; when absent, the latest registered
    /// version of the workflow applies
    pub version: Option<String>,
    pub process: Process,
    pub status: Status,
    /// Input schema version
    pub schema: String,
    /// Opaque data payload, carried through to triggered processes unchanged
    pub data: String,
}

/// Mathematical model of a [`ToManager`] report.
pub ghost struct ToManagerView {
    pub uuid: Seq<char>,
    pub name: Seq<char>,
    pub version: Option<Seq<char>>,
    pub process: ProcessView,
    pub status: Status,
    pub schema: Seq<char>,
    pub data: Seq<char>,
}

impl View for ToManager {
    type V = ToManagerView;

    open spec fn view(&self) -> ToManagerView {
        ToManagerView {
            uuid: self.uuid@,
            name: self.name@,
            version: match self.version {
                Some(v) => Some(v@),
                None => None,
            },
            process: self.process@,
            status: self.status,
            schema: self.schema@,
            data: self.data@,
        }
    }
}

/// A trigger message instructing a downstream process to begin work, either
/// as forward progress or as a compensation step.
#[derive(Debug)]
pub struct FromManager {
    pub uuid: String,
    /// Name of target workflow
    pub name: String,
    /// Version of target workflow
    pub version: String,
    pub process: Process,
    /// Output schema version
    pub schema: String,
    /// Opaque data payload, copied from the report that caused the trigger
    pub data: String,
}

/// Mathematical model of a [`FromManager`] trigger.
pub ghost struct FromManagerView {
    pub uuid: Seq<char>,
    pub name: Seq<char>,
    pub version: Seq<char>,
    pub process: ProcessView,
    pub schema: Seq<char>,
    pub data: Seq<char>,
}

impl View for FromManager {
    type V = FromManagerView;

    open spec fn view(&self) -> FromManagerView {
        FromManagerView {
            uuid: self.uuid@,
            name: self.name@,
            version: self.version@,
            process: self.process@,
            schema: self.schema@,
            data: self.data@,
        }
    }
}

/// The views of a sequence of trigger messages.
pub open spec fn triggers_view(s: Seq<FromManager>) -> Seq<FromManagerView> {
    s.map_values(|m: FromManager| m@)
}

/// An edit message defining or updating a workflow's forward graph for one
/// name and version.
#[derive(Debug)]
pub struct ToManagerEdits {
    /// Name of target workflow
    pub name: String,
    /// Version of target workflow
    pub version: String,
    /// Input schema version
    pub schema: String,
    /// The graph of the workflow
    pub workflow: Workflow,
}

/// Mathematical model of a [`ToManagerEdits`] message.
pub ghost struct ToManagerEditsView {
    pub name: Seq<char>,
    pub version: Seq<char>,
    pub schema: Seq<char>,
    pub workflow: WorkflowView,
}

impl View for ToManagerEdits {
    type V = ToManagerEditsView;

    open spec fn view(&self) -> ToManagerEditsView {
        ToManagerEditsView {
            name: self.name@,
            version: self.version@,
            schema: self.schema@,
            workflow: self.workflow@,
        }
    }
}

/// The decode outcome of one inbound status message.  The transport hands
/// the control loop raw payloads; a payload that does not decode is recorded
/// as `Malformed` and skipped without disturbing the rest of the batch.
#[derive(Debug)]
pub enum InboundReport {
    Report(ToManager),
    Malformed,
}

impl View for InboundReport {
    type V = Option<ToManagerView>;

    open spec fn view(&self) -> Option<ToManagerView> {
        match self {
            InboundReport::Report(m) => Some(m@),
            InboundReport::Malformed => None,
        }
    }
}

/// The decode outcome of one inbound edit message.
#[derive(Debug)]
pub enum InboundEdit {
    Edit(ToManagerEdits),
    Malformed,
}

impl View for InboundEdit {
    type V = Option<ToManagerEditsView>;

    open spec fn view(&self) -> Option<ToManagerEditsView> {
        match self {
            InboundEdit::Edit(m) => Some(m@),
            InboundEdit::Malformed => None,
        }
    }
}

} // verus!
