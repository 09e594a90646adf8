//! Small choices of the schematic canvas: label kinds, net kinds, marquee modes, the pin
//! side cycle and canvas rotations.
use vstd::prelude::*;
use crate::board::{SketchPinSide, normalize_rotation_deg, normalized_rotation, rotation_ok};

verus! {

/// Whether a net label names the net on this sheet or connects it to another sheet.
#[derive(Clone, Copy, Debug, PartialEq, Eq, Structural)]
pub enum SketchNetLabelKind {
    Local,
    OffPage,
}

impl SketchNetLabelKind {
    /// The stored form of the kind.
    pub fn as_str(self) -> (r: &'static str)
        ensures
            r@ == (match self {
                SketchNetLabelKind::Local => "local"@,
                SketchNetLabelKind::OffPage => "off_page"@,
            }),
    {
        match self {
            SketchNetLabelKind::Local => "local",
            SketchNetLabelKind::OffPage => "off_page",
        }
    }

    /// The name shown for the kind.
    pub fn label(self) -> (r: &'static str)
        ensures
            r@ == (match self {
                SketchNetLabelKind::Local => "Net Label"@,
                SketchNetLabelKind::OffPage => "Off-Page Connector"@,
            }),
    {
        match self {
            SketchNetLabelKind::Local => "Net Label",
            SketchNetLabelKind::OffPage => "Off-Page Connector",
        }
    }
}

/// The kinds of nets on a board.
#[derive(Clone, Copy, PartialEq, Eq, Structural)]
pub enum NetKind {
    Power,
    Ground,
    DigitalOrAnalog,
}

/// The stored form of a net kind.
pub fn net_kind_label(kind: &NetKind) -> (r: &'static str)
    ensures
        r@ == (match *kind {
            NetKind::Power => "power"@,
            NetKind::Ground => "ground"@,
            NetKind::DigitalOrAnalog => "digital_or_analog"@,
        }),
{
    match kind {
        NetKind::Power => "power",
        NetKind::Ground => "ground",
        NetKind::DigitalOrAnalog => "digital_or_analog",
    }
}

/// What a marquee drag does with the selection.
#[derive(Clone, Copy, PartialEq, Eq, Structural)]
pub enum SketchSelectionBoxMode {
    Replace,
    Add,
    Subtract,
}

impl SketchSelectionBoxMode {
    /// The marquee mode that the held modifier keys ask for: Alt subtracts, Command or Ctrl
    /// adds, Shift replaces (in that order of precedence); with none of them held there is
    /// no marquee.
    pub fn from_modifiers(alt: bool, command: bool, ctrl: bool, shift: bool) -> (r: Option<Self>)
        ensures
            r == (if alt {
                Some(SketchSelectionBoxMode::Subtract)
            } else if command || ctrl {
                Some(SketchSelectionBoxMode::Add)
            } else if shift {
                Some(SketchSelectionBoxMode::Replace)
            } else {
                None
            }),
    {
        if alt {
            Some(SketchSelectionBoxMode::Subtract)
        } else if command || ctrl {
            Some(SketchSelectionBoxMode::Add)
        } else if shift {
            Some(SketchSelectionBoxMode::Replace)
        } else {
            None
        }
    }

    /// The name shown while dragging.
    pub fn label(self) -> (r: &'static str)
        ensures
            r@ == (match self {
                SketchSelectionBoxMode::Replace => "Select"@,
                SketchSelectionBoxMode::Add => "Add"@,
                SketchSelectionBoxMode::Subtract => "Subtract"@,
            }),
    {
        match self {
            SketchSelectionBoxMode::Replace => "Select",
            SketchSelectionBoxMode::Add => "Add",
            SketchSelectionBoxMode::Subtract => "Subtract",
        }
    }
}

/// A canvas rotation as a quarter turn: modulo 360, rounded down to 90.
pub fn normalize_canvas_rotation(rotation_deg: i32) -> (r: i32)
    ensures
        r == normalized_rotation(rotation_deg as int),
        rotation_ok(r),
{
    normalize_rotation_deg(rotation_deg)
}

/// The pin side after `pin_side` in the cycle auto, right, left.
pub fn next_pin_side(pin_side: SketchPinSide) -> (r: SketchPinSide)
    ensures
        r == (match pin_side {
            SketchPinSide::Auto => SketchPinSide::Right,
            SketchPinSide::Right => SketchPinSide::Left,
            SketchPinSide::Left => SketchPinSide::Auto,
        }),
{
    match pin_side {
        SketchPinSide::Auto => SketchPinSide::Right,
        SketchPinSide::Right => SketchPinSide::Left,
        SketchPinSide::Left => SketchPinSide::Auto,
    }
}

} // verus!
