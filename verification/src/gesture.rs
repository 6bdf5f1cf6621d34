//! Mouse gestures: the operation that each of the eight drag directions
//! stands for.
use vstd::prelude::*;

verus! {

/// The supported mouse gesture operations.
#[derive(Debug, Clone, Copy, PartialEq, Eq, Structural)]
pub enum GestureKind {
    ZoomToFit,
    ZoomIn,
    ZoomOut,
    GoToEnd,
    GoToStart,
    Cancel,
}

/// The text shown next to the pointer while a gesture of `kind` is drawn.
pub open spec fn gesture_kind_label(kind: GestureKind) -> Seq<char> {
    match kind {
        GestureKind::ZoomToFit => "Zoom to fit"@,
        GestureKind::ZoomIn => "Zoom in"@,
        GestureKind::ZoomOut => "Zoom out"@,
        GestureKind::GoToEnd => "Go to end"@,
        GestureKind::GoToStart => "Go to start"@,
        GestureKind::Cancel => "Cancel"@,
    }
}

impl GestureKind {
    /// The text shown next to the pointer while this gesture is drawn.
    pub fn label(self) -> (r: &'static str)
        ensures
            r@ == gesture_kind_label(self),
    {
        match self {
            GestureKind::ZoomToFit => "Zoom to fit",
            GestureKind::ZoomIn => "Zoom in",
            GestureKind::ZoomOut => "Zoom out",
            GestureKind::GoToEnd => "Go to end",
            GestureKind::GoToStart => "Go to start",
            GestureKind::Cancel => "Cancel",
        }
    }
}

/// The compass direction of a drag; north is up on the screen.
#[derive(Debug, Clone, Copy, PartialEq, Eq, Structural)]
pub enum GestureDirection {
    North,
    NorthEast,
    East,
    SouthEast,
    South,
    SouthWest,
    West,
    NorthWest,
}

/// The gesture bound to each of the eight drag directions.
#[derive(Debug, Clone, Copy, PartialEq, Eq, Structural)]
pub struct GestureZones {
    pub north: GestureKind,
    pub northeast: GestureKind,
    pub east: GestureKind,
    pub southeast: GestureKind,
    pub south: GestureKind,
    pub southwest: GestureKind,
    pub west: GestureKind,
    pub northwest: GestureKind,
}

/// The gesture that `zones` binds to `direction`.
pub open spec fn zone_kind(zones: GestureZones, direction: GestureDirection) -> GestureKind {
    match direction {
        GestureDirection::North => zones.north,
        GestureDirection::NorthEast => zones.northeast,
        GestureDirection::East => zones.east,
        GestureDirection::SouthEast => zones.southeast,
        GestureDirection::South => zones.south,
        GestureDirection::SouthWest => zones.southwest,
        GestureDirection::West => zones.west,
        GestureDirection::NorthWest => zones.northwest,
    }
}

impl GestureZones {
    /// The gesture drawn by a drag in `direction`.
    pub fn kind_in(&self, direction: GestureDirection) -> (r: GestureKind)
        ensures
            r == zone_kind(*self, direction),
    {
        match direction {
            GestureDirection::North => self.north,
            GestureDirection::NorthEast => self.northeast,
            GestureDirection::East => self.east,
            GestureDirection::SouthEast => self.southeast,
            GestureDirection::South => self.south,
            GestureDirection::SouthWest => self.southwest,
            GestureDirection::West => self.west,
            GestureDirection::NorthWest => self.northwest,
        }
    }
}

} // verus!
