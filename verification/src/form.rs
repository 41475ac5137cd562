//! The request form and the two filter collections drawn from it.
//!
//! A form's departure-side optional fields feed the airport filters;
//! its arrival-side and time-bound optional fields feed the route
//! filters. Each present field contributes exactly one entry, in
//! fixed declaration order; absent fields contribute nothing.

use vstd::prelude::*;

use crate::airport::AirportType;
use crate::filter::ICAO;
use crate::filter::RunwayLength;
use crate::time::Time;
use crate::time::TimeView;

verus! {

/// One request's parsed filter-relevant fields: the required mach
/// number (kept as its raw text; this library carries it through
/// unread) and ten optional fields. Built once per request and read
/// only afterwards.
#[derive(Debug)]
pub struct DataForm {
    pub mach: String,
    pub dep_icao: Option<ICAO>,
    pub dep_type: Option<AirportType>,
    pub dep_runway_len: Option<RunwayLength>,
    pub dep_country: Option<String>,
    pub arr_icao: Option<ICAO>,
    pub arr_type: Option<AirportType>,
    pub arr_runway_len: Option<RunwayLength>,
    pub arr_country: Option<String>,
    pub min_time: Option<Time>,
    pub max_time: Option<Time>,
}

/// One departure-side filter criterion.
#[derive(Debug, Clone, PartialEq)]
pub enum AirportFilter {
    Type(AirportType),
    RunwayLength(RunwayLength),
    Country(String),
}

/// What an airport filter entry holds.
pub enum AirportFilterV {
    Type(AirportType),
    RunwayLength(RunwayLength),
    Country(Seq<char>),
}

impl View for AirportFilter {
    type V = AirportFilterV;

    open spec fn view(&self) -> AirportFilterV {
        match self {
            AirportFilter::Type(t) => AirportFilterV::Type(*t),
            AirportFilter::RunwayLength(r) => AirportFilterV::RunwayLength(*r),
            AirportFilter::Country(c) => AirportFilterV::Country(c@),
        }
    }
}

impl DeepView for AirportFilter {
    type V = AirportFilterV;

    open spec fn deep_view(&self) -> AirportFilterV {
        self.view()
    }
}

/// One arrival-side or time-bound filter criterion.
#[derive(Debug, Clone, PartialEq)]
pub enum RouteFilter {
    ArrType(AirportType),
    ArrRunwayLength(RunwayLength),
    ArrCountry(String),
    MinTime(Time),
    MaxTime(Time),
}

/// What a route filter entry holds.
pub enum RouteFilterV {
    ArrType(AirportType),
    ArrRunwayLength(RunwayLength),
    ArrCountry(Seq<char>),
    MinTime(TimeView),
    MaxTime(TimeView),
}

impl View for RouteFilter {
    type V = RouteFilterV;

    open spec fn view(&self) -> RouteFilterV {
        match self {
            RouteFilter::ArrType(t) => RouteFilterV::ArrType(*t),
            RouteFilter::ArrRunwayLength(r) => RouteFilterV::ArrRunwayLength(*r),
            RouteFilter::ArrCountry(c) => RouteFilterV::ArrCountry(c@),
            RouteFilter::MinTime(t) => RouteFilterV::MinTime(t@),
            RouteFilter::MaxTime(t) => RouteFilterV::MaxTime(t@),
        }
    }
}

impl DeepView for RouteFilter {
    type V = RouteFilterV;

    open spec fn deep_view(&self) -> RouteFilterV {
        self.view()
    }
}

/// The airport filter entries a form gives rise to: one per present
/// departure-side field, in fixed order: type, runway length,
/// country.
pub open spec fn airport_filters_of(form: DataForm) -> Seq<AirportFilterV> {
    (match form.dep_type {
        Some(t) => seq![AirportFilterV::Type(t)],
        None => seq![],
    }) + (match form.dep_runway_len {
        Some(r) => seq![AirportFilterV::RunwayLength(r)],
        None => seq![],
    }) + (match form.dep_country {
        Some(c) => seq![AirportFilterV::Country(c@)],
        None => seq![],
    })
}

/// The route filter entries a form gives rise to: one per present
/// arrival-side or time field, in fixed order: type, runway length,
/// country, minimum time, maximum time.
pub open spec fn route_filters_of(form: DataForm) -> Seq<RouteFilterV> {
    (match form.arr_type {
        Some(t) => seq![RouteFilterV::ArrType(t)],
        None => seq![],
    }) + (match form.arr_runway_len {
        Some(r) => seq![RouteFilterV::ArrRunwayLength(r)],
        None => seq![],
    }) + (match form.arr_country {
        Some(c) => seq![RouteFilterV::ArrCountry(c@)],
        None => seq![],
    }) + (match form.min_time {
        Some(t) => seq![RouteFilterV::MinTime(t@)],
        None => seq![],
    }) + (match form.max_time {
        Some(t) => seq![RouteFilterV::MaxTime(t@)],
        None => seq![],
    })
}

impl AirportFilter {
    /// Collect the departure-side criteria present in a form; each
    /// present field contributes one entry, in fixed order.
    pub fn from_form(form: &DataForm) -> (found: Vec<AirportFilter>)
        ensures
            found.deep_view() == airport_filters_of(*form),
    {
        let mut found: Vec<AirportFilter> = Vec::new();

        match &form.dep_type {
            Some(v) => found.push(AirportFilter::Type(v.clone())),
            None => (),
        }
        match &form.dep_runway_len {
            Some(v) => found.push(AirportFilter::RunwayLength(v.clone())),
            None => (),
        }
        match &form.dep_country {
            Some(v) => found.push(AirportFilter::Country(v.clone())),
            None => (),
        }
        proof {
            assert(found.deep_view() =~= airport_filters_of(*form));
        }
        found
    }
}

impl RouteFilter {
    /// Collect the arrival-side and time-bound criteria present in a
    /// form; each present field contributes one entry, in fixed
    /// order.
    pub fn from_form(form: &DataForm) -> (found: Vec<RouteFilter>)
        ensures
            found.deep_view() == route_filters_of(*form),
    {
        let mut found: Vec<RouteFilter> = Vec::new();

        match &form.arr_type {
            Some(v) => found.push(RouteFilter::ArrType(v.clone())),
            None => (),
        }
        match &form.arr_runway_len {
            Some(v) => found.push(RouteFilter::ArrRunwayLength(v.clone())),
            None => (),
        }
        match &form.arr_country {
            Some(v) => found.push(RouteFilter::ArrCountry(v.clone())),
            None => (),
        }
        match &form.min_time {
            Some(v) => found.push(RouteFilter::MinTime(v.clone())),
            None => (),
        }
        match &form.max_time {
            Some(v) => found.push(RouteFilter::MaxTime(v.clone())),
            None => (),
        }
        proof {
            assert(found.deep_view() =~= route_filters_of(*form));
        }
        found
    }
}

/// With only the country set among a form's three departure-side
/// fields, the airport filters are exactly one country entry.
pub proof fn lemma_airport_filters_country_only(form: DataForm)
    requires
        form.dep_type is None,
        form.dep_runway_len is None,
        form.dep_country is Some,
    ensures
        airport_filters_of(form) == seq![AirportFilterV::Country(form.dep_country->0@)],
{
    assert(airport_filters_of(form) =~= seq![AirportFilterV::Country(form.dep_country->0@)]);
}

/// With both times set and the three arrival-side fields absent, the
/// route filters are exactly the two time entries, minimum first.
pub proof fn lemma_route_filters_times_only(form: DataForm)
    requires
        form.arr_type is None,
        form.arr_runway_len is None,
        form.arr_country is None,
        form.min_time is Some,
        form.max_time is Some,
    ensures
        route_filters_of(form) == seq![
            RouteFilterV::MinTime(form.min_time->0@),
            RouteFilterV::MaxTime(form.max_time->0@),
        ],
{
    assert(route_filters_of(form) =~= seq![
        RouteFilterV::MinTime(form.min_time->0@),
        RouteFilterV::MaxTime(form.max_time->0@),
    ]);
}

} // verus!
