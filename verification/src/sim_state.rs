//! The editor's model of a schematic: grid positions, rotations, component
//! kinds, pins, wires and the editor's selection and mode.
use vstd::prelude::*;
use crate::nodes::NodeId;

verus! {

/// A point of the schematic grid.
#[derive(Clone, Copy, Debug, PartialEq, Eq, Hash, Structural)]
pub struct Position {
    pub x: i32,
    pub y: i32,
}

impl Position {
    pub fn new(x: i32, y: i32) -> (p: Self)
        ensures
            p.x == x,
            p.y == y,
    {
        Self { x, y }
    }
}

/// The orientation of a block on the grid, in quarter turns.
#[derive(Clone, Copy, Debug, PartialEq, Eq, Structural)]
pub enum Rotation {
    Deg0,
    Deg90,
    Deg180,
    Deg270,
}

/// The rotation one quarter turn further than `r`.
pub open spec fn next_rotation(r: Rotation) -> Rotation {
    match r {
        Rotation::Deg0 => Rotation::Deg90,
        Rotation::Deg90 => Rotation::Deg180,
        Rotation::Deg180 => Rotation::Deg270,
        Rotation::Deg270 => Rotation::Deg0,
    }
}

impl Rotation {
    pub fn next(self) -> (r: Self)
        ensures
            r == next_rotation(self),
    {
        match self {
            Self::Deg0 => Self::Deg90,
            Self::Deg90 => Self::Deg180,
            Self::Deg180 => Self::Deg270,
            Self::Deg270 => Self::Deg0,
        }
    }
}

/// Four quarter turns bring every rotation back to itself.
pub proof fn lemma_rotation_full_turn(r: Rotation)
    ensures
        next_rotation(next_rotation(next_rotation(next_rotation(r)))) == r,
{
}

impl Default for Rotation {
    fn default() -> (r: Self)
        ensures
            r == Rotation::Deg0,
    {
        Self::Deg0
    }
}

/// The kinds of block the editor can place.
#[derive(Clone, Copy, Debug, PartialEq, Eq, Structural)]
pub enum ComponentKind {
    Resistor,
    Capacitor,
    Inductor,
    VoltageSource,
    CurrentSource,
    FunctionalVoltageSource,
    FunctionalCurrentSource,
    Ground,
}

/// The number of pins of a block of kind `k`.
pub open spec fn pins_of(k: ComponentKind) -> nat {
    match k {
        ComponentKind::Ground => 1,
        _ => 2,
    }
}

/// Every block but ground is a two-terminal block; ground has one pin.
pub proof fn lemma_terminals(k: ComponentKind)
    ensures
        k != ComponentKind::Ground ==> pins_of(k) == 2,
        pins_of(ComponentKind::Ground) == 1,
{
}

/// The name shown for a block of kind `k`.
pub open spec fn kind_label(k: ComponentKind) -> Seq<char> {
    match k {
        ComponentKind::Resistor => "Resistor"@,
        ComponentKind::Capacitor => "Capacitor"@,
        ComponentKind::Inductor => "Inductor"@,
        ComponentKind::VoltageSource => "VSource"@,
        ComponentKind::CurrentSource => "ISource"@,
        ComponentKind::FunctionalVoltageSource => "V_func"@,
        ComponentKind::FunctionalCurrentSource => "I_func"@,
        ComponentKind::Ground => "Ground"@,
    }
}

impl ComponentKind {
    pub fn label(self) -> (r: &'static str)
        ensures
            r@ == kind_label(self),
    {
        match self {
            Self::Resistor => "Resistor",
            Self::Capacitor => "Capacitor",
            Self::Inductor => "Inductor",
            Self::VoltageSource => "VSource",
            Self::CurrentSource => "ISource",
            Self::FunctionalVoltageSource => "V_func",
            Self::FunctionalCurrentSource => "I_func",
            Self::Ground => "Ground",
        }
    }

    pub fn pin_count(self) -> (r: usize)
        ensures
            r == pins_of(self),
    {
        match self {
            Self::Ground => 1,
            _ => 2,
        }
    }
}

/// One pin of one block, by the block's id and the pin's index.
#[derive(Clone, Debug, PartialEq, Eq, Hash)]
pub struct PinRef {
    pub component_id: String,
    pub pin_index: usize,
}

impl View for PinRef {
    type V = (Seq<char>, int);

    open spec fn view(&self) -> (Seq<char>, int) {
        (self.component_id@, self.pin_index as int)
    }
}

impl PinRef {
    /// A copy of this pin reference.
    pub fn duplicate(&self) -> (r: PinRef)
        ensures
            r@ == self@,
    {
        PinRef { component_id: self.component_id.clone(), pin_index: self.pin_index }
    }

    /// Both refer to the same pin of the same block id.
    pub fn same_pin(&self, other: &PinRef) -> (r: bool)
        ensures
            r == (self@ == other@),
    {
        self.pin_index == other.pin_index && self.component_id == other.component_id
    }
}

/// A wire drawn between two pins.
#[derive(Clone, Debug)]
pub struct Wire {
    pub from: PinRef,
    pub to: PinRef,
}

/// What the editor has selected.
#[derive(Clone, Debug, PartialEq, Eq)]
pub enum SelectedEntity {
    /// Nothing is selected.
    Nothing,
    Node(NodeId),
    Component(String),
    NodePair(NodeId, NodeId),
}

impl Default for SelectedEntity {
    fn default() -> (r: Self)
        ensures
            r is Nothing,
    {
        Self::Nothing
    }
}

/// Whether clicks select and drag blocks, or draw wires.
#[derive(Clone, Copy, Debug, PartialEq, Eq, Structural)]
pub enum EditorMode {
    Select,
    Wire,
}

impl Default for EditorMode {
    fn default() -> (r: Self)
        ensures
            r == EditorMode::Select,
    {
        Self::Select
    }
}

/// A line of the editor's console.
#[derive(Clone)]
pub struct ConsoleLine {
    pub text: String,
    pub is_error: bool,
}

/// The result tabs below the schematic.
#[derive(Clone, Copy, PartialEq, Eq, Structural)]
pub enum PlotTab {
    Transient,
    Bode,
    IvCurve,
}

} // verus!
