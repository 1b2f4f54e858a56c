use takeoff_core::coords::Point;
use takeoff_core::error::TakeoffError;
use takeoff_core::measurement::Measurement;
use takeoff_core::rat::Rat;
use takeoff_core::unit::{Unit, UnitMagnitude, UnitUtils, UnitValue};

fn pt(x: i64, y: i64) -> Point {
    Point::new(Rat::from_int(x), Rat::from_int(y))
}

fn rat(n: i64, d: i64) -> Rat {
    Rat::new(n, d).unwrap()
}

fn as_f64(r: &Rat) -> f64 {
    r.numerator() as f64 / r.denominator() as f64
}

fn rect(c1: Point, c2: Point) -> Measurement {
    Measurement::Rectangle {
        id: "1".to_string(),
        page_id: "1".to_string(),
        group_id: "1".to_string(),
        corner1: c1,
        corner2: c2,
    }
}

#[test]
fn it_works() {
    let result = takeoff_core::add(2, 2);
    assert_eq!(result, 4);
}

#[test]
fn test_pixel_area() {
    let measurement = rect(pt(0, 0), pt(100, 50));
    assert!(measurement.pixel_area().unwrap().eq_val(&Rat::from_int(5000)));
}

#[test]
fn test_pixel_perimeter() {
    let measurement = rect(pt(0, 0), pt(100, 50));
    assert!(measurement.pixel_perimeter().unwrap().eq_val(&Rat::from_int(300)));
}

#[test]
fn test_pixel_perimeter_polyline() {
    let measurement = Measurement::Polyline {
        id: "1".to_string(),
        page_id: "1".to_string(),
        group_id: "1".to_string(),
        points: vec![pt(0, 0), pt(1, 0)],
    };
    assert!(measurement.pixel_perimeter().unwrap().eq_val(&Rat::from_int(1)));
}

#[test]
fn test_empty_polygon_error() {
    let measurement = Measurement::Polygon {
        id: "1".to_string(),
        page_id: "1".to_string(),
        group_id: "1".to_string(),
        points: vec![pt(0, 0), pt(1, 0)], // Only 2 points
    };
    assert!(matches!(
        measurement.validate(),
        Err(TakeoffError::EmptyGeometry { .. })
    ));
    assert!(matches!(
        measurement.pixel_area(),
        Err(TakeoffError::EmptyGeometry { .. })
    ));
}

#[test]
fn test_empty_polyline_error() {
    let measurement = Measurement::Polyline {
        id: "1".to_string(),
        page_id: "1".to_string(),
        group_id: "1".to_string(),
        points: vec![pt(0, 0)], // Only 1 point
    };
    assert!(matches!(
        measurement.validate(),
        Err(TakeoffError::EmptyGeometry { .. })
    ));
}

#[test]
fn test_invalid_rectangle_error() {
    let measurement = rect(pt(0, 0), pt(0, 0)); // Same point
    assert!(matches!(
        measurement.validate(),
        Err(TakeoffError::EmptyGeometry { .. })
    ));
}

#[test]
fn test_polygon_shoelace_area() {
    // A 3-4-5 right triangle has area 6.
    let measurement = Measurement::Polygon {
        id: "1".to_string(),
        page_id: "1".to_string(),
        group_id: "1".to_string(),
        points: vec![pt(0, 0), pt(3, 0), pt(0, 4)],
    };
    assert!(measurement.pixel_area().unwrap().eq_val(&Rat::from_int(6)));
    // Closed ring: 3 + 4 + 5.
    assert!(measurement.pixel_perimeter().unwrap().eq_val(&Rat::from_int(12)));
}

#[test]
fn test_count_has_zero_area_and_perimeter() {
    let measurement = Measurement::Count {
        id: "1".to_string(),
        page_id: "1".to_string(),
        group_id: "1".to_string(),
        points: pt(7, 9),
    };
    assert!(measurement.pixel_area().unwrap().eq_val(&Rat::from_int(0)));
    assert!(measurement.pixel_perimeter().unwrap().eq_val(&Rat::from_int(0)));
    assert_eq!(measurement.point_count(), 1);
}

#[test]
fn test_distance_to() {
    let point1 = pt(43, 55);
    let point2 = pt(0, 0);
    let d = point1.distance_to(&point2).unwrap();
    assert_eq!(as_f64(&d).round(), 70.0);
    // Exact on a Pythagorean pair.
    let d2 = pt(3, 0).distance_to(&pt(0, 4)).unwrap();
    assert!(d2.eq_val(&Rat::from_int(5)));
}

#[test]
fn test_convert() {
    let result = Unit::Yards.convert(&Rat::from_int(1), &Unit::Feet).unwrap();
    assert!(result.eq_val(&Rat::from_int(3)));
}

#[test]
fn test_convert_area() {
    let result = UnitUtils::convert_area(&Rat::from_int(1), Unit::Meters, Unit::Feet)
        .unwrap();
    assert_eq!(as_f64(&result) as f32, 10.76391);
}

#[test]
fn test_convert_round_trip_all_pairs() {
    let v = rat(7, 3);
    let units = UnitUtils::all_units();
    for a in &units {
        for b in &units {
            let there = a.convert(&v, b).unwrap();
            let back = b.convert(&there, a).unwrap();
            assert!(back.eq_val(&v));
            let there_a = a.convert_area(&v, b).unwrap();
            let back_a = b.convert_area(&there_a, a).unwrap();
            assert!(back_a.eq_val(&v));
        }
    }
}

#[test]
fn test_unit_lists_and_names() {
    assert_eq!(UnitUtils::all_units().len(), 5);
    assert_eq!(UnitUtils::imperial_units().len(), 3);
    assert_eq!(UnitUtils::metric_units().len(), 2);
    assert_eq!(Unit::Meters.display(), "m");
    assert_eq!(Unit::Yards.unit_str(), "Yards");
}

#[test]
fn test_new_unit_value() {
    let unit_value = UnitValue::new(Rat::from_int(1), Unit::Meters, UnitMagnitude::Length);
    assert_eq!(unit_value.magnitude, UnitMagnitude::Length);
    assert_eq!(unit_value.unit, Unit::Meters);
    assert!(unit_value.value.eq_val(&Rat::from_int(1)));
    let converted = unit_value.get_converted_value(Unit::Centimeters).unwrap();
    assert!(converted.eq_val(&Rat::from_int(100)));

    let unit_value = UnitValue::new(Rat::from_int(1), Unit::Meters, UnitMagnitude::Area);
    assert_eq!(unit_value.magnitude, UnitMagnitude::Area);
    let converted = unit_value.get_converted_value(Unit::Centimeters).unwrap();
    assert!(converted.eq_val(&Rat::from_int(10000)));
}

#[test]
fn test_error_display() {
    let err = TakeoffError::empty_geometry("polygon has fewer than 3 points");
    let display = err.display_string();
    assert!(display.contains("empty or invalid geometry"));
    assert!(display.contains("polygon has fewer than 3 points"));

    let err = TakeoffError::invalid_scale("scale ratio cannot be zero");
    let display = err.display_string();
    assert!(display.contains("invalid scale"));
    assert!(display.contains("scale ratio cannot be zero"));

    let err = TakeoffError::unknown_unit("kilometers");
    let display = err.display_string();
    assert!(display.contains("unknown or unsupported unit"));
    assert!(display.contains("kilometers"));

    let err = TakeoffError::SurfaceMeshTooFewPoints { count: 2 };
    let display = err.display_string();
    assert!(display.contains("too few points for triangulation"));
    assert!(display.contains("2"));

    let err = TakeoffError::SurfaceMeshCollinearPoints;

    let display = err.display_string();

    assert!(display.contains("all points are collinear"));
    assert!(display.contains("cannot create triangulated surface"));

    let err = TakeoffError::poison_error("scale");
    let display = err.display_string();
    assert!(display.contains("mutex lock poisoned"));
    assert!(display.contains("scale"));
}

#[test]
fn test_decimal_rendering() {
    assert_eq!(takeoff_core::error::u64_to_string(0), "0");
    assert_eq!(takeoff_core::error::u64_to_string(120), "120");
    assert_eq!(takeoff_core::error::u64_to_string(98765), "98765");
}

#[test]
fn test_rational_arithmetic() {
    let half = rat(1, 2);
    let third = rat(1, 3);
    let sum = half.add(&third).unwrap();
    assert!(sum.eq_val(&rat(5, 6)));
    let prod = half.mul(&third).unwrap();
    assert!(prod.eq_val(&rat(1, 6)));
    let quot = half.div(&third).unwrap();
    assert!(quot.eq_val(&rat(3, 2)));
    let diff = half.sub(&third).unwrap();
    assert!(diff.eq_val(&rat(1, 6)));
    assert!(rat(2, 4).eq_val(&half));
    assert!(third.le(&half));
    assert!(Rat::new(1, 0).is_none());
}
