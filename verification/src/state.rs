//! The state of a simple two-dimensional gantry.
//!
//! A bare number from a program means nothing until the unit system says what
//! it counts. The state records each quantity together with the unit it was
//! read in, at the moment it was read; turning that into a number of metres
//! is left to whoever does physical arithmetic.

use vstd::prelude::*;
use vstd::arithmetic::power2::pow2;
use crate::binary32::{Float, one, lemma_pow2_bounds};

verus! {

/// Whether positions are machine coordinates or offsets from the current
/// position.
#[derive(Debug, Clone, Copy, PartialEq, Eq, Structural, Hash)]
pub enum CoordinateMode {
    Absolute,
    Relative,
}

/// The unit system in which bare numbers are read.
#[derive(Debug, Clone, Copy, PartialEq, Eq, Structural)]
pub enum Units {
    Metric,
    Imperial,
}

/// The units in which a length can be read.
#[derive(Debug, Clone, Copy, PartialEq, Eq, Structural)]
pub enum LengthUnit {
    Millimeter,
    Inch,
}

/// A length: so many of a unit.
#[derive(Debug, Clone, Copy)]
pub struct Length {
    /// How many.
    pub value: Float,
    /// Of what.
    pub unit: LengthUnit,
}

/// A time: so many seconds.
#[derive(Debug, Clone, Copy)]
pub struct Time {
    /// How many seconds.
    pub seconds: Float,
}

/// A velocity, by the way it was arrived at.
#[derive(Debug, Clone, Copy)]
pub enum Velocity {
    /// So many millimetres per second.
    MillimetersPerSecond(Float),
    /// A length divided by a time.
    Quotient(Length, Time),
}

/// The number zero.
pub open spec fn zero() -> Float {
    Float { bits: 0 }
}

/// The number one.
pub open spec fn unity() -> Float {
    Float { bits: 0x3F80_0000 }
}

/// The number one hundred.
pub open spec fn hundred() -> Float {
    Float { bits: 0x42C8_0000 }
}

/// The three numbers that the state model writes down are what their names
/// say.
pub proof fn lemma_constants()
    ensures
        zero().is_finite() && !zero().negative() && zero().magnitude() == 0,
        unity().is_finite() && !unity().negative() && unity().magnitude() == one(),
        hundred().is_finite() && !hundred().negative() && hundred().magnitude() == 100 * one(),
{
    lemma_pow2_bounds();
    vstd::arithmetic::power2::lemma2_to64();
    assert(zero().exponent_field() == 0 && zero().fraction_field() == 0);
    assert(zero().significand() * pow2(0) == 0);
    assert(unity().exponent_field() == 127 && unity().fraction_field() == 0);
    vstd::arithmetic::power2::lemma_pow2_adds(23, 126);
    assert(unity().magnitude() == pow2(23) * pow2(126));
    assert(hundred().exponent_field() == 133 && hundred().fraction_field() == 0x48_0000);
    vstd::arithmetic::power2::lemma_pow2_adds(17, 132);
    assert(hundred().magnitude() == 100 * one()) by (nonlinear_arith)
        requires
            hundred().magnitude() == 0xC8_0000 * pow2(132),
            0xC8_0000 == 100 * pow2(17),
            one() == pow2(17) * pow2(132),
    ;
}

/// The internal state of a simple 2-dimensional gantry system.
#[derive(Debug, Clone, Copy)]
pub struct State {
    pub x: Length,
    pub y: Length,
    pub feed_rate: Velocity,
    pub coordinate_mode: CoordinateMode,
    pub units: Units,
}

impl Units {
    /// The unit in which this system reads a bare length.
    pub open spec fn length_unit(self) -> LengthUnit {
        match self {
            Units::Metric => LengthUnit::Millimeter,
            Units::Imperial => LengthUnit::Inch,
        }
    }

    /// A bare number read as a length in this system.
    pub open spec fn length(self, value: Float) -> Length {
        Length { value, unit: self.length_unit() }
    }

    /// A bare number read as a speed in this system: millimetres per second
    /// in the metric one, and inches over one second in the imperial one.
    pub open spec fn speed(self, value: Float) -> Velocity {
        match self {
            Units::Metric => Velocity::MillimetersPerSecond(value),
            Units::Imperial => Velocity::Quotient(
                Length { value, unit: LengthUnit::Inch },
                Time { seconds: unity() },
            ),
        }
    }
}

impl State {
    /// The state at the start: at the origin, at a hundred millimetres per
    /// second, in absolute coordinates and metric units.
    pub open spec fn initial() -> State {
        State {
            x: Length { value: zero(), unit: LengthUnit::Millimeter },
            y: Length { value: zero(), unit: LengthUnit::Millimeter },
            feed_rate: Velocity::MillimetersPerSecond(hundred()),
            coordinate_mode: CoordinateMode::Absolute,
            units: Units::Metric,
        }
    }

    /// Convert the value to a length, taking into account the current unit
    /// system.
    pub fn to_length(&self, value: Float) -> (r: Length)
        ensures
            r == self.units.length(value),
    {
        match self.units {
            Units::Metric => Length { value, unit: LengthUnit::Millimeter },
            Units::Imperial => Length { value, unit: LengthUnit::Inch },
        }
    }

    /// Convert the value to a speed, taking into account the current unit
    /// system.
    pub fn to_speed(&self, value: Float) -> (r: Velocity)
        ensures
            r == self.units.speed(value),
    {
        match self.units {
            Units::Metric => Velocity::MillimetersPerSecond(value),
            Units::Imperial => Velocity::Quotient(
                Length { value, unit: LengthUnit::Inch },
                Time { seconds: Float::from_bits(0x3F80_0000) },
            ),
        }
    }

    /// The state with `x` replaced by the value, read in the current units.
    pub fn with_x(self, value: Float) -> (r: State)
        ensures
            r == (State { x: self.units.length(value), ..self }),
    {
        let mut this = self;
        this.x = self.to_length(value);
        this
    }

    /// The state with `y` replaced by the value, read in the current units.
    pub fn with_y(self, value: Float) -> (r: State)
        ensures
            r == (State { y: self.units.length(value), ..self }),
    {
        let mut this = self;
        this.y = self.to_length(value);
        this
    }

    /// The state with the feed rate replaced by the value, read in the
    /// current units.
    pub fn with_feed_rate(self, value: Float) -> (r: State)
        ensures
            r == (State { feed_rate: self.units.speed(value), ..self }),
    {
        let mut this = self;
        this.feed_rate = self.to_speed(value);
        this
    }

    /// The state with the coordinate mode replaced.
    pub fn with_coordinate_mode(self, value: CoordinateMode) -> (r: State)
        ensures
            r == (State { coordinate_mode: value, ..self }),
    {
        let mut this = self;
        this.coordinate_mode = value;
        this
    }
}

impl Default for State {
    fn default() -> (r: State)
        ensures
            r == State::initial(),
    {
        State {
            x: Length { value: Float::from_bits(0), unit: LengthUnit::Millimeter },
            y: Length { value: Float::from_bits(0), unit: LengthUnit::Millimeter },
            feed_rate: Velocity::MillimetersPerSecond(Float::from_bits(0x42C8_0000)),
            coordinate_mode: CoordinateMode::Absolute,
            units: Units::Metric,
        }
    }
}

} // verus!
