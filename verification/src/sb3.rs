//! The vocabulary of a Scratch 3 project: the kinds of input slots,
//! monitors and rotation, and the menu choices of the blocks.

pub mod asset;
pub mod opcode;
pub mod uid;

pub use opcode::{
    ForwardBack, FrontBack, GraphicEffect, KeyOption, MathOp, NumberName, ObjectMenu,
    ObjectProperty, PointTarget, PositionTarget, SensingType, SoundEffect, SpriteOption,
    StopOption, TimeOption, TouchingOption,
};
use vstd::prelude::*;

verus! {

/// The kind of value that an input slot of a block takes.
#[derive(Debug, Clone, Copy, PartialEq, Eq, Structural)]
pub enum InputType {
    Number,
    PositiveNumber,
    WholeNumber,
    Integer,
    Angle,
    Color,
    String,
    Broadcast,
}

/// How the monitor of a variable is shown on the stage.
#[derive(Debug, Clone, Copy, PartialEq, Eq, Structural)]
pub enum MonitorMode {
    Small,
    Large,
    Slider,
}

/// How a sprite turns when its direction changes.
#[derive(Debug, Clone, Copy, PartialEq, Eq, Structural)]
pub enum RotationStyle {
    DontRotate,
    LeftRight,
    AllAround,
}

impl InputType {
    /// The number that marks an input of this kind in a project file, for
    /// the kinds that have one so far.
    pub open spec fn spec_code(self) -> Option<u8> {
        match self {
            InputType::Number => Some(4u8),
            InputType::String => Some(10u8),
            _ => None,
        }
    }

    /// Gives the number that marks an input of this kind in a project
    /// file: 4 for a number and 10 for a string. The other kinds have none
    /// so far.
    pub fn code(&self) -> (r: Option<u8>)
        ensures
            r == self.spec_code(),
    {
        match self {
            InputType::Number => Some(4),
            InputType::String => Some(10),
            _ => None,
        }
    }
}

impl MonitorMode {
    /// The name of the mode in a project file.
    pub open spec fn name(self) -> Seq<char> {
        match self {
            MonitorMode::Small => "default"@,
            MonitorMode::Large => "large"@,
            MonitorMode::Slider => "slider"@,
        }
    }

    /// Gives the name of the mode in a project file.
    pub fn as_str(&self) -> (r: &'static str)
        ensures
            r@ == self.name(),
    {
        match self {
            MonitorMode::Small => "default",
            MonitorMode::Large => "large",
            MonitorMode::Slider => "slider",
        }
    }
}

impl RotationStyle {
    /// The name of the style in a project file.
    pub open spec fn name(self) -> Seq<char> {
        match self {
            RotationStyle::DontRotate => "don't rotate"@,
            RotationStyle::LeftRight => "left-right"@,
            RotationStyle::AllAround => "all around"@,
        }
    }

    /// Gives the name of the style in a project file.
    pub fn as_str(&self) -> (r: &'static str)
        ensures
            r@ == self.name(),
    {
        match self {
            RotationStyle::DontRotate => "don't rotate",
            RotationStyle::LeftRight => "left-right",
            RotationStyle::AllAround => "all around",
        }
    }
}

/// A sound of a sprite or of the stage: its name and the path of its file.
#[derive(Debug, PartialEq, Eq)]
pub struct Sound {
    pub name: String,
    pub path: String,
}

} // verus!
