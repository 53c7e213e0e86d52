//! The menu choices that blocks take as fields.

use vstd::prelude::*;

verus! {

/// What a `stop` block stops.
#[derive(Debug, Clone, Copy, PartialEq, Eq, Structural)]
pub enum StopOption {
    All,
    Myself,
    Other,
}

/// The sensor that a `when ... > ...` hat block watches.
#[derive(Debug, Clone, Copy, PartialEq, Eq, Structural)]
pub enum SensingType {
    Loudness,
    Timer,
}

/// A key of the keyboard.
#[derive(Debug, Clone, Copy, PartialEq, Eq, Structural)]
pub enum KeyOption {
    Any,
    Space,
    UpArrow,
    DownArrow,
    RightArrow,
    LeftArrow,
    A,
    B,
    C,
    D,
    E,
    F,
    G,
    H,
    I,
    J,
    K,
    L,
    M,
    N,
    O,
    P,
    Q,
    R,
    S,
    T,
    U,
    V,
    W,
    X,
    Y,
    Z,
    Zero,
    One,
    Two,
    Three,
    Four,
    Five,
    Six,
    Seven,
    Eight,
    Nine,
}

/// A graphic effect of a sprite.
#[derive(Debug, Clone, Copy, PartialEq, Eq, Structural)]
pub enum GraphicEffect {
    Color,
    Fisheye,
    Whirl,
    Pixelate,
    Moasic,
    Brightness,
}

/// The sprite that a block is about: the one that runs it, or another by
/// name.
#[derive(Debug, PartialEq, Eq)]
pub enum SpriteOption {
    Myself,
    Other(String),
}

/// The end of the layer order that a sprite goes to.
#[derive(Debug, Clone, Copy, PartialEq, Eq, Structural)]
pub enum FrontBack {
    Front,
    Back,
}

/// The direction in which a sprite moves through the layers.
#[derive(Debug, Clone, Copy, PartialEq, Eq, Structural)]
pub enum ForwardBack {
    Forward,
    Back,
}

/// Whether a costume or backdrop is reported by number or by name.
#[derive(Debug, Clone, Copy, PartialEq, Eq, Structural)]
pub enum NumberName {
    Number,
    Nmae,
}

/// What a sprite points towards.
#[derive(Debug, PartialEq, Eq)]
pub enum PointTarget {
    MousePointer,
    Sprite(String),
}

/// Where a sprite goes or glides to.
#[derive(Debug, PartialEq, Eq)]
pub enum PositionTarget {
    RandomPosition,
    MousePointer,
    Sprite(String),
}

/// What a sprite may be touching.
#[derive(Debug, PartialEq, Eq)]
pub enum TouchingOption {
    MousePointer,
    Edge,
    Sprite(String),
}

/// The object whose property a `... of ...` block reads.
#[derive(Debug, PartialEq, Eq)]
pub enum ObjectMenu {
    Stage,
    Sprite(String),
}

/// The property that a `... of ...` block reads: a built-in one, or a
/// variable by name.
#[derive(Debug, PartialEq, Eq)]
pub enum ObjectProperty {
    XPosition,
    YPosition,
    Direction,
    CostumeNumber,
    CostumeName,
    Size,
    Volume,
    BackdropNumber,
    BackdropName,
    Data(String),
}

/// A part of the current date and time.
#[derive(Debug, Clone, Copy, PartialEq, Eq, Structural)]
pub enum TimeOption {
    Year,
    Month,
    Date,
    DayOfWeek,
    Hour,
    Minute,
    Second,
}

/// A sound effect.
#[derive(Debug, Clone, Copy, PartialEq, Eq, Structural)]
pub enum SoundEffect {
    Pan,
    Pitch,
}

/// A function of one number.
#[derive(Debug, Clone, Copy, PartialEq, Eq, Structural)]
pub enum MathOp {
    Abs,
    Floor,
    Ceiling,
    Sqrt,
    Sin,
    Cos,
    Tan,
    Asin,
    Acos,
    Atan,
    Ln,
    Log,
    NaturalExponent,
    Base10Exponent,
}

} // verus!
