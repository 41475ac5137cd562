//! Match evaluation of a runway-length comparison against runways.

use route_filter::airport::Runway;
use route_filter::filter::LengthOrder;
use route_filter::filter::RunwayLength;

#[test]
fn greater_filter_against_single_runways() {
    let filter = RunwayLength { order: LengthOrder::Greater, value: 3000 };
    assert!(filter.is_match(&Runway { length: Some(3500) }));
    assert!(!filter.is_match(&Runway { length: Some(2500) }));
    assert!(!filter.is_match(&Runway { length: Some(3000) }));
    assert!(!filter.is_match(&Runway { length: None }));
}

#[test]
fn unknown_length_never_matches() {
    let runway = Runway { length: None };
    for order in [LengthOrder::Less, LengthOrder::Equal, LengthOrder::Greater] {
        let filter = RunwayLength { order, value: 0 };
        assert!(!filter.is_match(&runway));
    }
}

#[test]
fn less_and_equal_boundaries() {
    let less = RunwayLength { order: LengthOrder::Less, value: 3000 };
    assert!(less.is_match(&Runway { length: Some(2999) }));
    assert!(!less.is_match(&Runway { length: Some(3000) }));
    assert!(!less.is_match(&Runway { length: Some(3001) }));

    let equal = RunwayLength { order: LengthOrder::Equal, value: 3000 };
    assert!(!equal.is_match(&Runway { length: Some(2999) }));
    assert!(equal.is_match(&Runway { length: Some(3000) }));
    assert!(!equal.is_match(&Runway { length: Some(3001) }));
}

#[test]
fn absent_runway_list_never_matches() {
    for order in [LengthOrder::Less, LengthOrder::Equal, LengthOrder::Greater] {
        let filter = RunwayLength { order, value: 3000 };
        assert!(!filter.any_match(&None));
    }
}

#[test]
fn empty_runway_list_never_matches() {
    for order in [LengthOrder::Less, LengthOrder::Equal, LengthOrder::Greater] {
        let filter = RunwayLength { order, value: 3000 };
        assert!(!filter.any_match(&Some(vec![])));
    }
}

#[test]
fn any_match_finds_one_qualifying_runway() {
    let filter = RunwayLength { order: LengthOrder::Greater, value: 3000 };
    let runways = vec![
        Runway { length: None },
        Runway { length: Some(2500) },
        Runway { length: Some(3500) },
    ];
    assert!(filter.any_match(&Some(runways)));

    let short_only = vec![Runway { length: None }, Runway { length: Some(2500) }];
    assert!(!filter.any_match(&Some(short_only)));
}
