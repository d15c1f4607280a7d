//! Errors of the drawing model and the validation report shared by the
//! command layer and the project-file checks.

use vstd::prelude::*;

use crate::ids::{id_label, DimensionId, DrawingId, EntityId, LayerId, ProjectId};

verus! {

/// Why an operation on the drawing model was refused.
#[derive(Clone, Copy, Debug, PartialEq, Eq, Structural)]
pub enum CoreError {
    DuplicateEntityId(EntityId),
    MissingEntity(EntityId),
    DuplicateLayerId(LayerId),
    MissingLayer(LayerId),
    DuplicateDimensionId(DimensionId),
    MissingDimension(DimensionId),
}

/// The message text of a `CoreError`.
pub open spec fn core_error_text(e: CoreError) -> Seq<char> {
    match e {
        CoreError::DuplicateEntityId(id) => "duplicate entity id: "@ + id_label("EntityId"@, id.spec_value()),
        CoreError::MissingEntity(id) => "missing entity id: "@ + id_label("EntityId"@, id.spec_value()),
        CoreError::DuplicateLayerId(id) => "duplicate layer id: "@ + id_label("LayerId"@, id.spec_value()),
        CoreError::MissingLayer(id) => "missing layer id: "@ + id_label("LayerId"@, id.spec_value()),
        CoreError::DuplicateDimensionId(id) => "duplicate dimension id: "@ + id_label(
            "DimensionId"@,
            id.spec_value(),
        ),
        CoreError::MissingDimension(id) => "missing dimension id: "@ + id_label(
            "DimensionId"@,
            id.spec_value(),
        ),
    }
}

fn prefixed(prefix: &str, label: String) -> (s: String)
    ensures
        s@ == prefix@ + label@,
{
    let mut s = String::from_str(prefix);
    s.append(label.as_str());
    s
}

impl CoreError {
    /// The human-readable message, e.g. `duplicate entity id: EntityId(1)`.
    pub fn message(&self) -> (s: String)
        ensures
            s@ == core_error_text(*self),
    {
        match self {
            CoreError::DuplicateEntityId(id) => prefixed("duplicate entity id: ", id.label()),
            CoreError::MissingEntity(id) => prefixed("missing entity id: ", id.label()),
            CoreError::DuplicateLayerId(id) => prefixed("duplicate layer id: ", id.label()),
            CoreError::MissingLayer(id) => prefixed("missing layer id: ", id.label()),
            CoreError::DuplicateDimensionId(id) => prefixed("duplicate dimension id: ", id.label()),
            CoreError::MissingDimension(id) => prefixed("missing dimension id: ", id.label()),
        }
    }
}

/// Problems that block saving, exporting or running a command are errors;
/// problems the user can work around are warnings.
#[derive(Clone, Copy, Debug, PartialEq, Eq, Structural)]
pub enum ValidationSeverity {
    Error,
    Warning,
}

/// The persistent object an issue applies to.
#[derive(Clone, Copy, Debug, PartialEq, Eq, Structural)]
pub enum ValidationTarget {
    Project(ProjectId),
    Drawing(DrawingId),
    Entity(EntityId),
    Layer(LayerId),
    Dimension(DimensionId),
}

/// One problem found by validation.
#[derive(Debug, PartialEq)]
pub struct ValidationIssue {
    pub severity: ValidationSeverity,
    pub target: ValidationTarget,
    pub message: String,
    pub suggestion: String,
}

/// An issue with its texts taken as character sequences.
pub struct IssueView {
    pub severity: ValidationSeverity,
    pub target: ValidationTarget,
    pub message: Seq<char>,
    pub suggestion: Seq<char>,
}

impl View for ValidationIssue {
    type V = IssueView;

    open spec fn view(&self) -> IssueView {
        IssueView {
            severity: self.severity,
            target: self.target,
            message: self.message@,
            suggestion: self.suggestion@,
        }
    }
}

/// The issues found by a validation pass, in the order they were found.
#[derive(Debug, PartialEq)]
pub struct ValidationReport {
    pub issues: Vec<ValidationIssue>,
}

impl View for ValidationReport {
    type V = Seq<IssueView>;

    open spec fn view(&self) -> Seq<IssueView> {
        self.issues@.map_values(|i: ValidationIssue| i@)
    }
}

/// Whether any issue in the sequence is an error.
pub open spec fn issues_have_errors(issues: Seq<IssueView>) -> bool {
    exists|i: int| 0 <= i < issues.len() && issues[i].severity == ValidationSeverity::Error
}

impl Default for ValidationReport {
    fn default() -> (r: Self)
        ensures
            r@.len() == 0,
    {
        ValidationReport { issues: Vec::new() }
    }
}

impl ValidationReport {
    /// Whether the report holds at least one error (warnings do not count).
    pub fn has_errors(&self) -> (b: bool)
        ensures
            b == issues_have_errors(self@),
    {
        let mut i: usize = 0;
        while i < self.issues.len()
            invariant
                i <= self.issues@.len(),
                forall|j: int| 0 <= j < i ==> self@[j].severity != ValidationSeverity::Error,
            decreases self.issues@.len() - i,
        {
            if self.issues[i].severity == ValidationSeverity::Error {
                assert(self@[i as int].severity == ValidationSeverity::Error);
                return true;
            }
            i = i + 1;
        }
        false
    }
}

} // verus!
