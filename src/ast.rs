//! The command sequence that a dump file is made of, and its mathematical view.
use vstd::prelude::*;

verus! {

/// All commands of one dump, in file order.
#[derive(Debug)]
pub struct ValueChangeDumpDefinition {
    pub declaration_commands: Vec<DeclarationCommand>,
    pub simulation_commands: Vec<SimulationCommand>,
}

#[derive(Debug)]
pub enum DeclarationCommand {
    Comment(GenericComment),
    Date(DeclarationDate),
    EndDefinitions,
    Scope(DeclarationScope),
    Timescale(DeclarationTimescale),
    Upscope,
    Var(DeclarationVar),
    Version(DeclarationVersion),
}

#[derive(Debug)]
pub struct DeclarationDate {
    pub value: String,
}

#[derive(Debug)]
pub struct DeclarationVersion {
    pub value: String,
}

#[derive(Debug)]
pub struct DeclarationTimescale {
    pub time_number: usize,
    pub time_unit: String,
}

#[derive(Debug)]
pub struct DeclarationScope {
    pub scope_type: String,
    pub scope_identifier: String,
}

#[derive(Debug)]
pub struct DeclarationVar {
    pub var_type: String,
    pub size: usize,
    pub identifier_code: String,
    pub reference: String,
}

#[derive(Debug)]
pub enum SimulationCommand {
    KeywordCommand(SimulationKeywordCommand),
    Comment(GenericComment),
    SimulationTime(SimulationTime),
    ValueChange(SimulationValueChange),
}

#[derive(Debug)]
pub struct SimulationKeywordCommand {
    pub ty: SimulationType,
    pub value_changes: Vec<SimulationValueChange>,
}

/// A `#<time>` marker.
#[derive(Debug)]
pub struct SimulationTime {
    pub value: usize,
}

#[derive(Debug, Clone, Copy, PartialEq, Eq, Structural)]
pub enum SimulationType {
    DumpAll,
    DumpOff,
    DumpOn,
    DumpVars,
}

#[derive(Debug)]
pub enum SimulationValueChange {
    Scalar(ScalarValueChange),
    Vector(VectorValueChange),
}

/// A one-character level (`0`, `1`, `x` or `z`) written against a code.
#[derive(Debug)]
pub struct ScalarValueChange {
    pub value: String,
    pub identifier_code: String,
}

#[derive(Debug)]
pub enum VectorValueChange {
    Binary(BinaryVectorValueChange),
    Real(RealVectorValueChange),
}

/// A binary vector value, radix letter included (`b1010`).
#[derive(Debug)]
pub struct BinaryVectorValueChange {
    pub value: String,
    pub identifier_code: String,
}

/// A real value, radix letter included (`r1.5`).
#[derive(Debug)]
pub struct RealVectorValueChange {
    pub value: String,
    pub identifier_code: String,
}

#[derive(Debug)]
pub struct GenericComment {
    pub value: String,
}

/// A value change as text: its kind, its value and its identifier code.
pub enum ChangeView {
    Scalar(Seq<char>, Seq<char>),
    Binary(Seq<char>, Seq<char>),
    Real(Seq<char>, Seq<char>),
}

impl ChangeView {
    pub open spec fn value(self) -> Seq<char> {
        match self {
            ChangeView::Scalar(v, _) => v,
            ChangeView::Binary(v, _) => v,
            ChangeView::Real(v, _) => v,
        }
    }

    pub open spec fn code(self) -> Seq<char> {
        match self {
            ChangeView::Scalar(_, c) => c,
            ChangeView::Binary(_, c) => c,
            ChangeView::Real(_, c) => c,
        }
    }
}

pub enum DeclView {
    Comment(Seq<char>),
    Date(Seq<char>),
    EndDefinitions,
    /// Kind and name.
    Scope(Seq<char>, Seq<char>),
    /// Number and unit.
    Timescale(usize, Seq<char>),
    Upscope,
    /// Kind, width, identifier code and reference.
    Var(Seq<char>, usize, Seq<char>, Seq<char>),
    Version(Seq<char>),
}

pub enum SimView {
    Keyword(SimulationType, Seq<ChangeView>),
    Comment(Seq<char>),
    Time(usize),
    Change(ChangeView),
}

pub struct DefinitionView {
    pub declarations: Seq<DeclView>,
    pub simulation: Seq<SimView>,
}

impl View for SimulationValueChange {
    type V = ChangeView;

    open spec fn view(&self) -> ChangeView {
        match self {
            SimulationValueChange::Scalar(s) => ChangeView::Scalar(s.value@, s.identifier_code@),
            SimulationValueChange::Vector(VectorValueChange::Binary(b)) => ChangeView::Binary(
                b.value@,
                b.identifier_code@,
            ),
            SimulationValueChange::Vector(VectorValueChange::Real(r)) => ChangeView::Real(
                r.value@,
                r.identifier_code@,
            ),
        }
    }
}

impl View for DeclarationCommand {
    type V = DeclView;

    open spec fn view(&self) -> DeclView {
        match self {
            DeclarationCommand::Comment(c) => DeclView::Comment(c.value@),
            DeclarationCommand::Date(d) => DeclView::Date(d.value@),
            DeclarationCommand::EndDefinitions => DeclView::EndDefinitions,
            DeclarationCommand::Scope(s) => DeclView::Scope(s.scope_type@, s.scope_identifier@),
            DeclarationCommand::Timescale(t) => DeclView::Timescale(t.time_number, t.time_unit@),
            DeclarationCommand::Upscope => DeclView::Upscope,
            DeclarationCommand::Var(v) => DeclView::Var(
                v.var_type@,
                v.size,
                v.identifier_code@,
                v.reference@,
            ),
            DeclarationCommand::Version(v) => DeclView::Version(v.value@),
        }
    }
}

/// The views of a sequence of value changes.
pub open spec fn changes_view(v: Seq<SimulationValueChange>) -> Seq<ChangeView> {
    v.map_values(|c: SimulationValueChange| c@)
}

impl View for SimulationCommand {
    type V = SimView;

    open spec fn view(&self) -> SimView {
        match self {
            SimulationCommand::KeywordCommand(k) => SimView::Keyword(
                k.ty,
                changes_view(k.value_changes@),
            ),
            SimulationCommand::Comment(c) => SimView::Comment(c.value@),
            SimulationCommand::SimulationTime(t) => SimView::Time(t.value),
            SimulationCommand::ValueChange(c) => SimView::Change(c@),
        }
    }
}

impl View for ValueChangeDumpDefinition {
    type V = DefinitionView;

    open spec fn view(&self) -> DefinitionView {
        DefinitionView {
            declarations: self.declaration_commands@.map_values(|d: DeclarationCommand| d@),
            simulation: self.simulation_commands@.map_values(|s: SimulationCommand| s@),
        }
    }
}

impl SimulationValueChange {
    /// The identifier code that the change is written against.
    pub fn identifier_code(&self) -> (r: String)
        ensures
            r@ == self@.code(),
    {
        match self {
            SimulationValueChange::Scalar(s) => s.identifier_code.clone(),
            SimulationValueChange::Vector(v) => match v {
                VectorValueChange::Binary(b) => b.identifier_code.clone(),
                VectorValueChange::Real(r) => r.identifier_code.clone(),
            },
        }
    }

    /// The value text of the change.
    pub fn value(&self) -> (r: String)
        ensures
            r@ == self@.value(),
    {
        match self {
            SimulationValueChange::Scalar(s) => s.value.clone(),
            SimulationValueChange::Vector(v) => match v {
                VectorValueChange::Binary(b) => b.value.clone(),
                VectorValueChange::Real(r) => r.value.clone(),
            },
        }
    }
}

} // verus!
