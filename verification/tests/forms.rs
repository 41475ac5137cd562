//! Filter collections drawn from a form, and the wire round trip.

use route_filter::airport::AirportType;
use route_filter::filter::ICAO;
use route_filter::filter::LengthOrder;
use route_filter::filter::RunwayLength;
use route_filter::form::AirportFilter;
use route_filter::form::DataForm;
use route_filter::form::RouteFilter;
use route_filter::time::Time;

fn empty_form() -> DataForm {
    DataForm {
        mach: "0.8".to_string(),
        dep_icao: None,
        dep_type: None,
        dep_runway_len: None,
        dep_country: None,
        arr_icao: None,
        arr_type: None,
        arr_runway_len: None,
        arr_country: None,
        min_time: None,
        max_time: None,
    }
}

#[test]
fn empty_form_yields_no_filters() {
    let form = empty_form();
    assert!(AirportFilter::from_form(&form).is_empty());
    assert!(RouteFilter::from_form(&form).is_empty());
}

#[test]
fn country_only_yields_one_airport_entry() {
    let mut form = empty_form();
    form.dep_country = Some("US".to_string());
    let found = AirportFilter::from_form(&form);
    assert_eq!(found.len(), 1);
    assert_eq!(found[0], AirportFilter::Country("US".to_string()));
}

#[test]
fn airport_entries_come_in_declaration_order() {
    let mut form = empty_form();
    form.dep_type = Some(AirportType::LargeAirport);
    form.dep_runway_len = Some(RunwayLength { order: LengthOrder::Greater, value: 3000 });
    form.dep_country = Some("DE".to_string());
    // The departure identifier feeds no filter entry.
    form.dep_icao = Some(ICAO("EDDF".to_string()));
    let found = AirportFilter::from_form(&form);
    assert_eq!(found.len(), 3);
    assert_eq!(found[0], AirportFilter::Type(AirportType::LargeAirport));
    assert_eq!(
        found[1],
        AirportFilter::RunwayLength(RunwayLength { order: LengthOrder::Greater, value: 3000 })
    );
    assert_eq!(found[2], AirportFilter::Country("DE".to_string()));
}

#[test]
fn both_times_yield_min_before_max() {
    let mut form = empty_form();
    form.min_time = Some(Time::from_form_value("1%3A30").unwrap());
    form.max_time = Some(Time::from_form_value("2.5").unwrap());
    let found = RouteFilter::from_form(&form);
    assert_eq!(found.len(), 2);
    assert_eq!(found[0], RouteFilter::MinTime(Time::HourMinute(1, 30)));
    assert_eq!(found[1], RouteFilter::MaxTime(Time::Hours("2.5".to_string())));
}

#[test]
fn route_entries_come_in_declaration_order() {
    let mut form = empty_form();
    form.arr_type = Some(AirportType::SmallAirport);
    form.arr_runway_len = Some(RunwayLength { order: LengthOrder::Less, value: 1200 });
    form.arr_country = Some("FR".to_string());
    form.min_time = Some(Time::HourMinute(0, 45));
    form.max_time = Some(Time::HourMinute(3, 0));
    let found = RouteFilter::from_form(&form);
    assert_eq!(found.len(), 5);
    assert_eq!(found[0], RouteFilter::ArrType(AirportType::SmallAirport));
    assert_eq!(
        found[1],
        RouteFilter::ArrRunwayLength(RunwayLength { order: LengthOrder::Less, value: 1200 })
    );
    assert_eq!(found[2], RouteFilter::ArrCountry("FR".to_string()));
    assert_eq!(found[3], RouteFilter::MinTime(Time::HourMinute(0, 45)));
    assert_eq!(found[4], RouteFilter::MaxTime(Time::HourMinute(3, 0)));
}

#[test]
fn departure_and_arrival_sides_stay_disjoint() {
    let mut form = empty_form();
    form.dep_country = Some("US".to_string());
    form.arr_country = Some("CA".to_string());
    let airport = AirportFilter::from_form(&form);
    let route = RouteFilter::from_form(&form);
    assert_eq!(airport, vec![AirportFilter::Country("US".to_string())]);
    assert_eq!(route, vec![RouteFilter::ArrCountry("CA".to_string())]);
}

#[test]
fn wire_serialization_is_exact() {
    let rl = RunwayLength { order: LengthOrder::Less, value: 2500 };
    assert_eq!(rl.to_wire(), "%3C2500");
    let rl = RunwayLength { order: LengthOrder::Greater, value: 0 };
    assert_eq!(rl.to_wire(), "%3E0");
    let rl = RunwayLength { order: LengthOrder::Equal, value: 4294967295 };
    assert_eq!(rl.to_wire(), "%3D4294967295");
}

#[test]
fn wire_round_trip_restores_the_comparison() {
    for order in [LengthOrder::Less, LengthOrder::Equal, LengthOrder::Greater] {
        for value in [0u32, 1, 9, 10, 99, 2500, 4294967295] {
            let rl = RunwayLength { order, value };
            let wire = rl.to_wire();
            let back = RunwayLength::from_form_value(&wire).unwrap();
            assert_eq!(back, rl);
        }
    }
}
