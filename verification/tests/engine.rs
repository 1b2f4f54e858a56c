use takeoff_core::cell::{calculate_area, MeasurementCell, Slot};
use takeoff_core::coords::Point;
use takeoff_core::error::TakeoffError;
use takeoff_core::group::{Group, MeasurementType};
use takeoff_core::measurement::Measurement;
use takeoff_core::rat::Rat;
use takeoff_core::scale::{resolve, BoundingBox, Scale, ScaleDefinition};
use takeoff_core::state::{StateOptions, StateRegistry};
use takeoff_core::unit::Unit;

fn pt(x: i64, y: i64) -> Point {
    Point::new(Rat::from_int(x), Rat::from_int(y))
}

fn ptr(xn: i64, xd: i64, yn: i64, yd: i64) -> Point {
    Point::new(Rat::new(xn, xd).unwrap(), Rat::new(yn, yd).unwrap())
}

fn def(pd: i64, rd: i64, unit: Unit) -> ScaleDefinition {
    ScaleDefinition {
        pixel_distance: Rat::from_int(pd),
        real_distance: Rat::from_int(rd),
        unit,
    }
}

fn rect(id: &str, group: &str, c1: Point, c2: Point) -> Measurement {
    Measurement::Rectangle {
        id: id.to_string(),
        page_id: "1".to_string(),
        group_id: group.to_string(),
        corner1: c1,
        corner2: c2,
    }
}

fn meter_scale_default(id: &str) -> Scale {
    Scale::Default {
        id: id.to_string(),
        page_id: "1".to_string(),
        scale: def(1, 1, Unit::Meters),
    }
}

fn empty_state() -> StateRegistry {
    StateRegistry::new(Some(StateOptions {
        pages: vec![],
        groups: vec![],
        measurements: vec![],
        scales: vec![],
    }))
}

#[test]
fn test_scale_ratio_validation() {
    // ratio = pixel_distance / real_distance, only for positive inputs.
    let good = def(100, 2, Unit::Meters);
    assert!(good.ratio().unwrap().eq_val(&Rat::from_int(50)));

    let zero_pixel = def(0, 2, Unit::Meters);
    assert!(matches!(
        zero_pixel.ratio(),
        Err(TakeoffError::InvalidScale { .. })
    ));
    let negative_real = ScaleDefinition {
        pixel_distance: Rat::from_int(10),
        real_distance: Rat::from_int(-1),
        unit: Unit::Meters,
    };
    assert!(matches!(
        negative_real.ratio(),
        Err(TakeoffError::InvalidScale { .. })
    ));
}

#[test]
fn test_calculate_area() {
    let measurement = rect("1", "1", pt(0, 0), pt(100, 50));
    assert!(measurement.pixel_area().unwrap().eq_val(&Rat::from_int(5000)));

    let mut cell = MeasurementCell::new(measurement);
    cell.set_scale(Scale::Default {
        id: "1".to_string(),
        page_id: "1".to_string(),
        scale: def(100, 2, Unit::Meters),
    })
    .unwrap();

    let area = cell.get_area().unwrap();
    assert_eq!(area.unit, Unit::Meters);
    assert!(area.value.eq_val(&Rat::from_int(2)));
    assert!(area
        .get_converted_value(Unit::Meters)
        .unwrap()
        .eq_val(&Rat::from_int(2)));

    let length = cell.get_length().unwrap();
    assert!(length
        .get_converted_value(Unit::Meters)
        .unwrap()
        .eq_val(&Rat::from_int(6)));
    assert!(cell
        .convert_area(Unit::Meters)
        .unwrap()
        .unwrap()
        .eq_val(&Rat::from_int(2)));
    assert!(cell
        .convert_length(Unit::Meters)
        .unwrap()
        .unwrap()
        .eq_val(&Rat::from_int(6)));
}

#[test]
fn test_calculate_without_scale() {
    let measurement = rect("1", "1", pt(0, 0), pt(100, 50));
    assert!(measurement.pixel_area().unwrap().eq_val(&Rat::from_int(5000)));
    assert!(measurement
        .pixel_perimeter()
        .unwrap()
        .eq_val(&Rat::from_int(300)));
    // No scale assigned: area and length are absent, never zero.
    assert_eq!(calculate_area(&measurement, &None).unwrap(), None);
    let cell = MeasurementCell::new(measurement);
    assert!(cell.raw_area().unwrap().eq_val(&Rat::from_int(5000)));
    assert!(cell.raw_perimeter().unwrap().eq_val(&Rat::from_int(300)));
    assert!(cell.get_area().is_none());
    assert!(cell.get_length().is_none());
    assert_eq!(cell.convert_area(Unit::Meters).unwrap(), None);
    assert_eq!(cell.convert_length(Unit::Meters).unwrap(), None);
}

#[test]
fn measurement_test_pixel_perimeter_polyline() {
    let measurement = Measurement::Polyline {
        id: "1".to_string(),
        page_id: "1".to_string(),
        group_id: "1".to_string(),
        points: vec![pt(0, 0), pt(0, 1)],
    };
    let cell = MeasurementCell::new(measurement.duplicate());
    assert!(measurement.pixel_perimeter().unwrap().eq_val(&Rat::from_int(1)));
    assert!(cell.raw_perimeter().unwrap().eq_val(&Rat::from_int(1)));
    assert_eq!(cell.convert_length(Unit::Meters).unwrap(), None);
}

#[test]
fn test_scale_precedence() {
    // One Area scale over (0,0)-(1,1) and one Default on the same page.
    let area_scale = Scale::Area {
        id: "a".to_string(),
        page_id: "1".to_string(),
        scale: def(1, 1, Unit::Feet),
        bounding_box: BoundingBox { p1: pt(0, 0), p2: pt(1, 1) },
    };
    let default_scale = meter_scale_default("d");
    let scales = vec![area_scale.clone(), default_scale.clone()];

    // Fully inside the box: the Area scale wins.
    let inside = rect("in", "1", ptr(1, 2, 1, 2), pt(1, 1));
    assert_eq!(resolve(&inside, &scales), Some(area_scale.clone()));

    // Outside the box: the Default applies.
    let outside = rect("out", "1", pt(5, 5), pt(7, 9));
    assert_eq!(resolve(&outside, &scales), Some(default_scale.clone()));

    // A later Default overwrites an earlier one.
    let late_default = Scale::Default {
        id: "d2".to_string(),
        page_id: "1".to_string(),
        scale: def(2, 1, Unit::Meters),
    };
    let scales2 = vec![default_scale, late_default.clone()];
    assert_eq!(resolve(&outside, &scales2), Some(late_default));

    // No scales at all: no resolution.
    assert_eq!(resolve(&outside, &vec![]), None);
}

#[test]
fn test_find_measurement_scale() {
    let mut state = empty_state();
    state.upsert_scale(Scale::Area {
        id: "1".to_string(),
        page_id: "1".to_string(),
        bounding_box: BoundingBox { p1: pt(0, 0), p2: pt(1, 1) },
        scale: def(1, 1, Unit::Meters),
    });
    state.upsert_scale(Scale::Default {
        id: "2".to_string(),
        page_id: "1".to_string(),
        scale: def(1, 1, Unit::Meters),
    });
    let measurement = Measurement::Polygon {
        id: "1".to_string(),
        page_id: "1".to_string(),
        group_id: "1".to_string(),
        points: vec![
            ptr(1, 2, 1, 2),
            ptr(1, 1, 1, 2),
            pt(1, 1),
            ptr(1, 2, 1, 1),
        ],
    };
    state.upsert_measurement(measurement.duplicate());
    let scale = state.get_measurement_scale("1".to_string());
    assert!(matches!(scale, Some(Scale::Area { .. })));

    let cell = state.get_measurement("1".to_string()).unwrap();
    assert!(matches!(cell.get_scale(), Some(Scale::Area { .. })));
    let area = cell.get_area().unwrap();
    assert!(area
        .get_converted_value(Unit::Meters)
        .unwrap()
        .eq_val(&Rat::new(1, 4).unwrap()));

    let group = Group {
        id: "1".to_string(),
        name: None,
        measurement_type: MeasurementType::Area,
    };
    state.upsert_group(group);
    let group = state.get_group("1".to_string()).unwrap();
    assert!(group
        .get_area()
        .unwrap()
        .get_converted_value(Unit::Meters)
        .unwrap()
        .eq_val(&Rat::new(1, 4).unwrap()));

    state.upsert_measurement(rect("12", "1", pt(0, 0), pt(1, 1)));

    let measurement = state.remove_measurement("12".to_string());
    assert!(measurement.is_some());
    drop(measurement);

    let group = state.get_group("1".to_string());
    assert!(group.is_some());
    let group_area = group
        .unwrap()
        .get_area()
        .unwrap()
        .get_converted_value(Unit::Meters)
        .unwrap();
    assert!(group_area.eq_val(&Rat::new(1, 4).unwrap()));
}

#[test]
fn test_remove_group() {
    let mut state = empty_state();
    let group = Group {
        id: "1".to_string(),
        name: None,
        measurement_type: MeasurementType::Area,
    };
    state.upsert_group(group);

    let group_removed = state.remove_group("1".to_string());
    assert!(group_removed.is_some());
    let group = state.get_group("1".to_string());
    assert!(group.is_none());
}

#[test]
fn test_remove_group_removes_measurements() {
    let mut state = empty_state();
    state.upsert_scale(meter_scale_default("s"));
    state.upsert_group(Group {
        id: "g".to_string(),
        name: None,
        measurement_type: MeasurementType::Area,
    });
    state.upsert_measurement(rect("m1", "g", pt(0, 0), pt(2, 2)));
    state.upsert_measurement(rect("m2", "g", pt(0, 0), pt(3, 3)));
    state.upsert_measurement(rect("other", "h", pt(0, 0), pt(1, 1)));

    let removed = state.remove_group("g".to_string());
    assert!(removed.is_some());
    // The group's measurements are gone; querying their ids finds nothing.
    assert!(state.get_measurement("m1".to_string()).is_none());
    assert!(state.get_measurement("m2".to_string()).is_none());
    // Unrelated measurements are kept (a dangling group id is tolerated).
    assert!(state.get_measurement("other".to_string()).is_some());
}

#[test]
fn test_group_aggregate_is_member_sum() {
    let mut state = empty_state();
    state.upsert_scale(meter_scale_default("s"));
    state.upsert_group(Group {
        id: "g".to_string(),
        name: None,
        measurement_type: MeasurementType::Area,
    });
    state.upsert_measurement(rect("m1", "g", pt(0, 0), pt(2, 2)));
    state.upsert_measurement(rect("m2", "g", pt(0, 0), pt(3, 3)));

    let group = state.get_group("g".to_string()).unwrap();
    // 4 + 9 square meters.
    assert!(group
        .get_area()
        .unwrap()
        .get_converted_value(Unit::Meters)
        .unwrap()
        .eq_val(&Rat::from_int(13)));
    // 8 + 12 meters of perimeter.
    assert!(group
        .get_length()
        .unwrap()
        .get_converted_value(Unit::Meters)
        .unwrap()
        .eq_val(&Rat::from_int(20)));
    assert_eq!(group.get_points(), Some(8));
    assert_eq!(group.get_count(), Some(2));

    // Adding then removing a measurement restores the aggregate exactly.
    state.upsert_measurement(rect("m3", "g", pt(0, 0), pt(5, 1)));
    let grown = state.get_group("g".to_string()).unwrap();
    assert!(grown
        .get_area()
        .unwrap()
        .get_converted_value(Unit::Meters)
        .unwrap()
        .eq_val(&Rat::from_int(18)));
    state.remove_measurement("m3".to_string());
    let back = state.get_group("g".to_string()).unwrap();
    assert!(back
        .get_area()
        .unwrap()
        .get_converted_value(Unit::Meters)
        .unwrap()
        .eq_val(&Rat::from_int(13)));
    assert_eq!(back.get_count(), Some(2));
}

#[test]
fn test_upserts_converge_to_count() {
    let mut state = empty_state();
    state.upsert_group(Group {
        id: "g".to_string(),
        name: None,
        measurement_type: MeasurementType::Count,
    });
    for k in 0..5i64 {
        let m = Measurement::Count {
            id: format!("m{}", k),
            page_id: "1".to_string(),
            group_id: "g".to_string(),
            points: pt(k, k),
        };
        state.upsert_measurement(m);
    }
    let group = state.get_group("g".to_string()).unwrap();
    assert_eq!(group.get_count(), Some(5));
    assert_eq!(group.get_points(), Some(5));
}

#[test]
fn test_poisoned_lock_is_recoverable() {
    // A poisoned slot surfaces as a typed error, never a crash.
    let mut slot: Slot<u64> = Slot::new(7);
    slot.poison();
    assert!(matches!(
        slot.lock_read("value"),
        Err(TakeoffError::PoisonError { .. })
    ));
    assert!(matches!(
        slot.lock_write(9, "value"),
        Err(TakeoffError::PoisonError { .. })
    ));
}

#[test]
fn test_poisoning_during_recompute_keeps_stale_value() {
    let mut state = empty_state();
    state.upsert_scale(meter_scale_default("s"));
    state.upsert_group(Group {
        id: "g".to_string(),
        name: None,
        measurement_type: MeasurementType::Area,
    });
    state.upsert_measurement(rect("m1", "g", pt(0, 0), pt(2, 2)));
    let before = state.get_group("g".to_string()).unwrap();
    let stale_area = before.get_area().unwrap();

    // A prior holder dies while holding the group's aggregate locks.
    assert!(state.poison_group_caches(&"g".to_string()));

    // The upsert still succeeds; the aggregate recompute is best-effort
    // and leaves the previous cached value in place behind the poison.
    let prev = state.upsert_measurement(rect("m2", "g", pt(0, 0), pt(3, 3)));
    assert!(prev.is_none());
    assert!(state.get_measurement("m2".to_string()).is_some());
    let after = state.get_group("g".to_string()).unwrap();
    // Reads of the poisoned slots report absence rather than crashing.
    assert!(after.get_area().is_none());
    assert!(after.get_count().is_none());

    // Replacing the group installs fresh, healthy slots again.
    state.upsert_group(Group {
        id: "g".to_string(),
        name: None,
        measurement_type: MeasurementType::Area,
    });
    let healed = state.get_group("g".to_string()).unwrap();
    assert!(healed
        .get_area()
        .unwrap()
        .get_converted_value(Unit::Meters)
        .unwrap()
        .eq_val(&Rat::from_int(13)));
    let _ = stale_area;
}

#[test]
fn test_poisoned_measurement_cache_keeps_value_on_remove() {
    let mut state = empty_state();
    state.upsert_scale(meter_scale_default("s"));
    state.upsert_group(Group {
        id: "g".to_string(),
        name: None,
        measurement_type: MeasurementType::Area,
    });
    state.upsert_measurement(rect("m1", "g", pt(0, 0), pt(2, 2)));
    assert!(state.poison_measurement_caches(&"m1".to_string()));
    // Removal still succeeds and recomputes the group from the remaining
    // (zero) members.
    let removed = state.remove_measurement("m1".to_string());
    assert!(removed.is_some());
    let group = state.get_group("g".to_string()).unwrap();
    assert!(group.get_area().is_none());
    assert_eq!(group.get_count(), Some(0));
}

#[test]
fn test_scale_upsert_reresolves_page() {
    let mut state = empty_state();
    state.upsert_measurement(rect("m1", "g", pt(0, 0), pt(2, 2)));
    // No scale yet: the measurement is missing a scale.
    assert_eq!(state.get_measurements_missing_scale().len(), 1);

    state.upsert_scale(meter_scale_default("s"));
    // The page-wide re-resolution assigned the new default.
    assert!(state.get_measurement_scale("m1".to_string()).is_some());
    assert_eq!(state.get_measurements_missing_scale().len(), 0);
    let cell = state.get_measurement("m1".to_string()).unwrap();
    assert!(cell.get_area().unwrap().value.eq_val(&Rat::from_int(4)));

    // Removing the scale leaves the page without one again; the cached
    // assignment stays until a scale change or measurement update.
    state.remove_scale("s".to_string());
    assert!(state.get_page_scales(&"1".to_string()).is_empty());
}

#[test]
fn test_scale_cascade_leaves_group_aggregates_stale() {
    // A scale change re-resolves the page's measurements but does not
    // reach the owning groups' aggregates: they recompute on the next
    // group-affecting operation. This pins the intended behaviour down.
    let mut state = empty_state();
    state.upsert_scale(meter_scale_default("s"));
    state.upsert_group(Group {
        id: "g".to_string(),
        name: None,
        measurement_type: MeasurementType::Area,
    });
    state.upsert_measurement(rect("m1", "g", pt(0, 0), pt(2, 2)));
    let before = state
        .get_group("g".to_string())
        .unwrap()
        .get_area()
        .unwrap()
        .get_converted_value(Unit::Meters)
        .unwrap();
    assert!(before.eq_val(&Rat::from_int(4)));

    // Halve the scale ratio: each pixel now stands for twice the length.
    state.upsert_scale(Scale::Default {
        id: "s".to_string(),
        page_id: "1".to_string(),
        scale: def(1, 2, Unit::Meters),
    });
    // The measurement's own cache is fresh...
    let cell = state.get_measurement("m1".to_string()).unwrap();
    assert!(cell.get_area().unwrap().value.eq_val(&Rat::from_int(16)));
    // ...but the group aggregate is served stale until a group recompute.
    let stale = state
        .get_group("g".to_string())
        .unwrap()
        .get_area()
        .unwrap()
        .get_converted_value(Unit::Meters)
        .unwrap();
    assert!(stale.eq_val(&Rat::from_int(4)));
    state.compute_group(&"g".to_string()).unwrap();
    let fresh = state
        .get_group("g".to_string())
        .unwrap()
        .get_area()
        .unwrap()
        .get_converted_value(Unit::Meters)
        .unwrap();
    assert!(fresh.eq_val(&Rat::from_int(16)));
}

#[test]
fn test_set_measurement_swaps_geometry_in_place() {
    let mut cell = MeasurementCell::new(rect("1", "g", pt(0, 0), pt(2, 2)));
    cell.set_scale(meter_scale_default("s")).unwrap();
    assert!(cell.get_area().unwrap().value.eq_val(&Rat::from_int(4)));
    let prev = cell.set_measurement(rect("1", "g", pt(0, 0), pt(3, 3)));
    assert_eq!(prev.id(), "1");
    assert!(cell.get_area().unwrap().value.eq_val(&Rat::from_int(9)));
    assert_eq!(cell.get_points(), 4);
}

#[test]
fn test_pages_are_pure_scoping_keys() {
    let mut state = empty_state();
    state.upsert_page(takeoff_core::page::Page {
        id: "1".to_string(),
        name: Some("plan".to_string()),
        width: None,
        height: None,
        viewport: None,
    });
    state.upsert_measurement(rect("m1", "g", pt(0, 0), pt(2, 2)));
    // Removing the page keeps the measurement: dangling page ids are fine.
    assert!(state.remove_page("1".to_string()).is_some());
    assert!(state.get_measurement("m1".to_string()).is_some());
    assert_eq!(
        state.get_measurements_by_page_id("1".to_string()).len(),
        1
    );
}

#[test]
fn test_unknown_unit_error() {
    let err = TakeoffError::unknown_unit("kilometers");
    assert!(matches!(err, TakeoffError::UnknownUnit { .. }));
    assert!(err.display_string().contains("kilometers"));
}

#[test]
fn test_invalid_scale_yields_error_not_value() {
    // A zero-ratio scale makes the derivation fail with InvalidScale; the
    // cell keeps an absent cache rather than a wrong number.
    let m = rect("1", "g", pt(0, 0), pt(2, 2));
    let bad = Scale::Default {
        id: "s".to_string(),
        page_id: "1".to_string(),
        scale: def(0, 1, Unit::Meters),
    };
    assert!(matches!(
        calculate_area(&m, &Some(bad)),
        Err(TakeoffError::InvalidScale { .. })
    ));
}

#[test]
fn test_seeded_state_resolves_on_construction() {
    let state = StateRegistry::new(Some(StateOptions {
        pages: vec![takeoff_core::page::Page {
            id: "1".to_string(),
            name: None,
            width: None,
            height: None,
            viewport: None,
        }],
        groups: vec![Group {
            id: "g".to_string(),
            name: None,
            measurement_type: MeasurementType::Area,
        }],
        measurements: vec![rect("m1", "g", pt(0, 0), pt(2, 2))],
        scales: vec![meter_scale_default("s")],
    }));
    // The seeding upserts ran every cascade: the measurement's scale is
    // resolved and the group aggregate computed.
    assert!(state.get_measurement_scale("m1".to_string()).is_some());
    let group = state.get_group("g".to_string()).unwrap();
    assert!(group
        .get_area()
        .unwrap()
        .get_converted_value(Unit::Meters)
        .unwrap()
        .eq_val(&Rat::from_int(4)));
}
