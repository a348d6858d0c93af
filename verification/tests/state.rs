use gcode::{CoordinateMode, Float, Length, LengthUnit, State, Time, Units, Velocity};
use uom::si::length::{inch, millimeter};
use uom::si::time::second;
use uom::si::velocity::millimeter_per_second;

fn float(x: f32) -> Float {
    Float::from_bits(x.to_bits())
}

fn number(x: Float) -> f32 {
    f32::from_bits(x.to_bits())
}

fn length(l: Length) -> uom::si::f32::Length {
    match l.unit {
        LengthUnit::Millimeter => uom::si::f32::Length::new::<millimeter>(number(l.value)),
        LengthUnit::Inch => uom::si::f32::Length::new::<inch>(number(l.value)),
    }
}

fn time(t: Time) -> uom::si::f32::Time {
    uom::si::f32::Time::new::<second>(number(t.seconds))
}

fn velocity(v: Velocity) -> uom::si::f32::Velocity {
    match v {
        Velocity::MillimetersPerSecond(value) => {
            uom::si::f32::Velocity::new::<millimeter_per_second>(number(value))
        }
        Velocity::Quotient(l, t) => length(l) / time(t),
    }
}

fn imperial() -> State {
    let mut state = State::default();
    state.units = Units::Imperial;
    state
}

fn close(a: f32, b: f32) -> bool {
    (a - b).abs() <= 1e-4 * b.abs().max(1.0)
}

#[test]
fn the_default_state_is_at_rest_in_metric() {
    let state = State::default();
    assert_eq!(state.x.unit, LengthUnit::Millimeter);
    assert_eq!(state.y.unit, LengthUnit::Millimeter);
    assert_eq!(length(state.x), uom::si::f32::Length::new::<millimeter>(0.0));
    assert_eq!(length(state.y), uom::si::f32::Length::new::<millimeter>(0.0));
    assert_eq!(
        velocity(state.feed_rate),
        uom::si::f32::Velocity::new::<millimeter_per_second>(100.0)
    );
    match state.feed_rate {
        Velocity::MillimetersPerSecond(v) => assert_eq!(number(v), 100.0),
        Velocity::Quotient(..) => panic!("the default feed rate is a named speed"),
    }
    assert_eq!(state.coordinate_mode, CoordinateMode::Absolute);
    assert_eq!(state.units, Units::Metric);
}

#[test]
fn a_length_is_read_in_the_current_units() {
    let metric = State::default().with_x(float(10.0));
    assert_eq!(metric.x.unit, LengthUnit::Millimeter);
    assert_eq!(number(metric.x.value), 10.0);
    assert_eq!(length(metric.x), uom::si::f32::Length::new::<millimeter>(10.0));
    assert!(close(length(metric.x).get::<millimeter>(), 10.0));

    let imperial = imperial().with_x(float(10.0));
    assert_eq!(imperial.x.unit, LengthUnit::Inch);
    assert_eq!(number(imperial.x.value), 10.0);
    assert_eq!(length(imperial.x), uom::si::f32::Length::new::<inch>(10.0));
    assert!(close(length(imperial.x).get::<millimeter>(), 254.0));
    assert!(!close(length(imperial.x).get::<millimeter>(), 10.0));
}

#[test]
fn to_length_and_to_speed_follow_the_units() {
    let metric = State::default();
    let l = metric.to_length(float(2.5));
    assert_eq!((number(l.value), l.unit), (2.5, LengthUnit::Millimeter));
    match metric.to_speed(float(40.0)) {
        Velocity::MillimetersPerSecond(v) => assert_eq!(number(v), 40.0),
        Velocity::Quotient(..) => panic!("a metric speed is a named speed"),
    }
    let imperial = imperial();
    let l = imperial.to_length(float(2.5));
    assert_eq!((number(l.value), l.unit), (2.5, LengthUnit::Inch));
    match imperial.to_speed(float(40.0)) {
        Velocity::Quotient(l, t) => {
            assert_eq!((number(l.value), l.unit), (40.0, LengthUnit::Inch));
            assert_eq!(number(t.seconds), 1.0);
        }
        Velocity::MillimetersPerSecond(_) => panic!("an imperial speed is a length over a time"),
    }
}

#[test]
fn an_imperial_speed_is_inches_over_one_second() {
    let state = imperial().with_feed_rate(float(2.0));
    let by_hand = uom::si::f32::Length::new::<inch>(2.0) / uom::si::f32::Time::new::<second>(1.0);
    assert_eq!(velocity(state.feed_rate), by_hand);
    assert!(close(velocity(state.feed_rate).get::<millimeter_per_second>(), 50.8));

    let metric = State::default().with_feed_rate(float(2.0));
    assert_eq!(
        velocity(metric.feed_rate),
        uom::si::f32::Velocity::new::<millimeter_per_second>(2.0)
    );
}

#[test]
fn each_builder_replaces_one_field() {
    let start = imperial();
    let moved = start.with_y(float(-3.0));
    assert_eq!((number(moved.y.value), moved.y.unit), (-3.0, LengthUnit::Inch));
    assert_eq!(number(moved.x.value), number(start.x.value));
    assert_eq!(moved.x.unit, start.x.unit);
    assert_eq!(velocity(moved.feed_rate), velocity(start.feed_rate));
    assert_eq!(moved.coordinate_mode, start.coordinate_mode);
    assert_eq!(moved.units, Units::Imperial);

    let relative = moved.with_coordinate_mode(CoordinateMode::Relative);
    assert_eq!(relative.coordinate_mode, CoordinateMode::Relative);
    assert_eq!(relative.units, Units::Imperial);
    assert_eq!((number(relative.y.value), relative.y.unit), (-3.0, LengthUnit::Inch));
}

#[test]
fn a_quantity_keeps_the_units_it_was_read_in() {
    let mut state = State::default().with_x(float(10.0));
    state.units = Units::Imperial;
    let state = state.with_y(float(10.0));
    assert_eq!(state.x.unit, LengthUnit::Millimeter);
    assert_eq!(state.y.unit, LengthUnit::Inch);
    assert!(close(length(state.x).get::<millimeter>(), 10.0));
    assert!(close(length(state.y).get::<millimeter>(), 254.0));
}

#[test]
fn builders_do_not_touch_the_state_they_start_from() {
    let original = State::default();
    let _ = original.with_x(float(1.0));
    let _ = original.with_y(float(2.0));
    let _ = original.with_feed_rate(float(3.0));
    let _ = original.with_coordinate_mode(CoordinateMode::Relative);
    assert_eq!(number(original.x.value), 0.0);
    assert_eq!(number(original.y.value), 0.0);
    assert_eq!(
        velocity(original.feed_rate),
        uom::si::f32::Velocity::new::<millimeter_per_second>(100.0)
    );
    assert_eq!(original.coordinate_mode, CoordinateMode::Absolute);
    assert_eq!(original.units, Units::Metric);
}
