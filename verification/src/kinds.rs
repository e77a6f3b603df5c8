//! The enumerated fields of GTFS records, and the choices an editor offers for them.
use vstd::prelude::*;

verus! {

/// Kind of a stop (GTFS `location_type`).
#[derive(Debug, Copy, Clone, PartialEq, Eq, Structural)]
pub enum LocationType {
    StopPoint,
    StopArea,
    StationEntrance,
    GenericNode,
    BoardingArea,
    Unknown(i32),
}

/// Kind of vehicle a route uses (GTFS `route_type`).
#[derive(Debug, Copy, Clone, PartialEq, Eq, Structural)]
pub enum RouteType {
    Tramway,
    Subway,
    Rail,
    Bus,
    Ferry,
    CableCar,
    Gondola,
    Funicular,
    Coach,
    Air,
    Taxi,
    Other(i32),
}

/// How riders board or alight at a stop (GTFS `pickup_type` / `drop_off_type`).
#[derive(Debug, Copy, Clone, PartialEq, Eq, Structural)]
pub enum PickupDropOffType {
    Regular,
    NotAvailable,
    ArrangeByPhone,
    CoordinateWithDriver,
    Unknown(i32),
}

/// Continuous boarding or alighting along a route (GTFS `continuous_pickup` / `continuous_drop_off`).
#[derive(Debug, Copy, Clone, PartialEq, Eq, Structural)]
pub enum ContinuousPickupDropOff {
    Continuous,
    NotAvailable,
    ArrangeByPhone,
    CoordinateWithDriver,
    Unknown(i32),
}

/// Whether a stop time is exact or approximate (GTFS `timepoint`).
#[derive(Debug, Copy, Clone, PartialEq, Eq, Structural)]
pub enum TimepointType {
    Approximate,
    Exact,
}

/// Accessibility information (GTFS `wheelchair_boarding` / `wheelchair_accessible`).
#[derive(Debug, Copy, Clone, PartialEq, Eq, Structural)]
pub enum Availability {
    InformationNotAvailable,
    Available,
    NotAvailable,
    Unknown(i32),
}

/// Direction of travel of a trip (GTFS `direction_id`).
#[derive(Debug, Copy, Clone, PartialEq, Eq, Structural)]
pub enum DirectionType {
    Outbound,
    Inbound,
}

/// Whether bikes are allowed on a trip (GTFS `bikes_allowed`).
#[derive(Debug, Copy, Clone, PartialEq, Eq, Structural)]
pub enum BikesAllowedType {
    NoBikeInfo,
    AtLeastOneBike,
    NoBikesAllowed,
    Unknown(i32),
}

/// An 8-bit RGB colour (GTFS `route_color` / `route_text_color`).
#[derive(Debug, Copy, Clone, PartialEq, Eq, Structural)]
pub struct Rgb8 {
    pub r: u8,
    pub g: u8,
    pub b: u8,
}

/// Editable stop kind.
#[derive(Debug, Copy, Clone, PartialEq, Eq, Structural)]
pub struct MyLocationType(pub LocationType);

/// Editable timepoint kind.
#[derive(Debug, Copy, Clone, PartialEq, Eq, Structural)]
pub struct MyTimepointType(pub TimepointType);

/// Editable pickup / drop-off kind.
#[derive(Debug, Copy, Clone, PartialEq, Eq, Structural)]
pub struct MyPickupDropOffType(pub PickupDropOffType);

/// Editable direction.
#[derive(Debug, Copy, Clone, PartialEq, Eq, Structural)]
pub struct MyDirectionType(pub DirectionType);

/// Editable accessibility.
#[derive(Debug, Copy, Clone, PartialEq, Eq, Structural)]
pub struct MyAvailability(pub Availability);

/// Editable bikes policy.
#[derive(Debug, Copy, Clone, PartialEq, Eq, Structural)]
pub struct MyBikesAllowedType(pub BikesAllowedType);

/// Editable colour.
#[derive(Debug, Copy, Clone, PartialEq, Eq, Structural)]
pub struct MyRGB8(pub Rgb8);

/// Editable continuous pickup / drop-off kind.
#[derive(Debug, Copy, Clone, PartialEq, Eq, Structural)]
pub struct MyContinuousPickupDropOff(pub ContinuousPickupDropOff);

/// Editable route kind.
#[derive(Debug, Copy, Clone, PartialEq, Eq, Structural)]
pub struct MyRouteType(pub RouteType);

/// The labels and values of a list of choices.
pub open spec fn choice_views<T>(v: Seq<(String, T)>) -> Seq<(Seq<char>, T)> {
    v.map_values(|p: (String, T)| (p.0@, p.1))
}

pub open spec fn location_type_choices() -> Seq<(Seq<char>, MyLocationType)> {
    seq![
        ("StopPoint"@, MyLocationType(LocationType::StopPoint)),
        ("StopArea"@, MyLocationType(LocationType::StopArea)),
        ("StationEntrance"@, MyLocationType(LocationType::StationEntrance)),
        ("GenericNode"@, MyLocationType(LocationType::GenericNode)),
        ("BoardingArea"@, MyLocationType(LocationType::BoardingArea)),
        ("Unknown(99)"@, MyLocationType(LocationType::Unknown(99))),
    ]
}

pub open spec fn timepoint_type_choices() -> Seq<(Seq<char>, MyTimepointType)> {
    seq![
        ("Approximate"@, MyTimepointType(TimepointType::Approximate)),
        ("Exact"@, MyTimepointType(TimepointType::Exact)),
    ]
}

pub open spec fn pickup_drop_off_type_choices() -> Seq<(Seq<char>, MyPickupDropOffType)> {
    seq![
        ("Regular"@, MyPickupDropOffType(PickupDropOffType::Regular)),
        ("NotAvailable"@, MyPickupDropOffType(PickupDropOffType::NotAvailable)),
        ("ArrangeByPhone"@, MyPickupDropOffType(PickupDropOffType::ArrangeByPhone)),
        ("CoordinateWithDriver"@, MyPickupDropOffType(PickupDropOffType::CoordinateWithDriver)),
        ("Unknown(99)"@, MyPickupDropOffType(PickupDropOffType::Unknown(99))),
    ]
}

pub open spec fn direction_type_choices() -> Seq<(Seq<char>, MyDirectionType)> {
    seq![
        ("Outbound"@, MyDirectionType(DirectionType::Outbound)),
        ("Inbound"@, MyDirectionType(DirectionType::Inbound)),
    ]
}

pub open spec fn availability_choices() -> Seq<(Seq<char>, MyAvailability)> {
    seq![
        ("InformationNotAvailable"@, MyAvailability(Availability::InformationNotAvailable)),
        ("Available"@, MyAvailability(Availability::Available)),
        ("NotAvailable"@, MyAvailability(Availability::NotAvailable)),
        ("Unknown(99)"@, MyAvailability(Availability::Unknown(99))),
    ]
}

pub open spec fn bikes_allowed_type_choices() -> Seq<(Seq<char>, MyBikesAllowedType)> {
    seq![
        ("NoBikeInfo"@, MyBikesAllowedType(BikesAllowedType::NoBikeInfo)),
        ("AtLeastOneBike"@, MyBikesAllowedType(BikesAllowedType::AtLeastOneBike)),
        ("NoBikesAllowed"@, MyBikesAllowedType(BikesAllowedType::NoBikesAllowed)),
        ("Unknown(99)"@, MyBikesAllowedType(BikesAllowedType::Unknown(99))),
    ]
}

pub open spec fn continuous_pickup_drop_off_choices() -> Seq<(Seq<char>, MyContinuousPickupDropOff)> {
    seq![
        ("Continuous"@, MyContinuousPickupDropOff(ContinuousPickupDropOff::Continuous)),
        ("NotAvailable"@, MyContinuousPickupDropOff(ContinuousPickupDropOff::NotAvailable)),
        ("ArrangeByPhone"@, MyContinuousPickupDropOff(ContinuousPickupDropOff::ArrangeByPhone)),
        ("CoordinateWithDriver"@, MyContinuousPickupDropOff(ContinuousPickupDropOff::CoordinateWithDriver)),
        ("Unknown(99)"@, MyContinuousPickupDropOff(ContinuousPickupDropOff::Unknown(99))),
    ]
}

pub open spec fn route_type_choices() -> Seq<(Seq<char>, MyRouteType)> {
    seq![
        ("Tramway"@, MyRouteType(RouteType::Tramway)),
        ("Subway"@, MyRouteType(RouteType::Subway)),
        ("Rail"@, MyRouteType(RouteType::Rail)),
        ("Bus"@, MyRouteType(RouteType::Bus)),
        ("Ferry"@, MyRouteType(RouteType::Ferry)),
        ("CableCar"@, MyRouteType(RouteType::CableCar)),
        ("Gondola"@, MyRouteType(RouteType::Gondola)),
        ("Funicular"@, MyRouteType(RouteType::Funicular)),
        ("Coach"@, MyRouteType(RouteType::Coach)),
        ("Air"@, MyRouteType(RouteType::Air)),
        ("Taxi"@, MyRouteType(RouteType::Taxi)),
        ("Other(99)"@, MyRouteType(RouteType::Other(99))),
    ]
}

impl MyLocationType {
    /// The stop kinds offered by the editor, with their labels.
    pub fn radio_vec() -> (r: Vec<(String, MyLocationType)>)
        ensures
            choice_views(r@) == location_type_choices(),
    {
        let r = vec![
            (String::from_str("StopPoint"), MyLocationType(LocationType::StopPoint)),
            (String::from_str("StopArea"), MyLocationType(LocationType::StopArea)),
            (String::from_str("StationEntrance"), MyLocationType(LocationType::StationEntrance)),
            (String::from_str("GenericNode"), MyLocationType(LocationType::GenericNode)),
            (String::from_str("BoardingArea"), MyLocationType(LocationType::BoardingArea)),
            (String::from_str("Unknown(99)"), MyLocationType(LocationType::Unknown(99))),
        ];
        assert(choice_views(r@) =~= location_type_choices());
        r
    }
}

impl MyTimepointType {
    /// The timepoint kinds offered by the editor, with their labels.
    pub fn radio_vec() -> (r: Vec<(String, MyTimepointType)>)
        ensures
            choice_views(r@) == timepoint_type_choices(),
    {
        let r = vec![
            (String::from_str("Approximate"), MyTimepointType(TimepointType::Approximate)),
            (String::from_str("Exact"), MyTimepointType(TimepointType::Exact)),
        ];
        assert(choice_views(r@) =~= timepoint_type_choices());
        r
    }
}

impl MyPickupDropOffType {
    /// The pickup and drop-off kinds offered by the editor, with their labels.
    pub fn radio_vec() -> (r: Vec<(String, MyPickupDropOffType)>)
        ensures
            choice_views(r@) == pickup_drop_off_type_choices(),
    {
        let r = vec![
            (String::from_str("Regular"), MyPickupDropOffType(PickupDropOffType::Regular)),
            (String::from_str("NotAvailable"), MyPickupDropOffType(PickupDropOffType::NotAvailable)),
            (String::from_str("ArrangeByPhone"), MyPickupDropOffType(PickupDropOffType::ArrangeByPhone)),
            (String::from_str("CoordinateWithDriver"), MyPickupDropOffType(PickupDropOffType::CoordinateWithDriver)),
            (String::from_str("Unknown(99)"), MyPickupDropOffType(PickupDropOffType::Unknown(99))),
        ];
        assert(choice_views(r@) =~= pickup_drop_off_type_choices());
        r
    }
}

impl MyDirectionType {
    /// The directions offered by the editor, with their labels.
    pub fn radio_vec() -> (r: Vec<(String, MyDirectionType)>)
        ensures
            choice_views(r@) == direction_type_choices(),
    {
        let r = vec![
            (String::from_str("Outbound"), MyDirectionType(DirectionType::Outbound)),
            (String::from_str("Inbound"), MyDirectionType(DirectionType::Inbound)),
        ];
        assert(choice_views(r@) =~= direction_type_choices());
        r
    }
}

impl MyAvailability {
    /// The accessibility values offered by the editor, with their labels.
    pub fn radio_vec() -> (r: Vec<(String, MyAvailability)>)
        ensures
            choice_views(r@) == availability_choices(),
    {
        let r = vec![
            (String::from_str("InformationNotAvailable"), MyAvailability(Availability::InformationNotAvailable)),
            (String::from_str("Available"), MyAvailability(Availability::Available)),
            (String::from_str("NotAvailable"), MyAvailability(Availability::NotAvailable)),
            (String::from_str("Unknown(99)"), MyAvailability(Availability::Unknown(99))),
        ];
        assert(choice_views(r@) =~= availability_choices());
        r
    }
}

impl MyBikesAllowedType {
    /// The bike policies offered by the editor, with their labels.
    pub fn radio_vec() -> (r: Vec<(String, MyBikesAllowedType)>)
        ensures
            choice_views(r@) == bikes_allowed_type_choices(),
    {
        let r = vec![
            (String::from_str("NoBikeInfo"), MyBikesAllowedType(BikesAllowedType::NoBikeInfo)),
            (String::from_str("AtLeastOneBike"), MyBikesAllowedType(BikesAllowedType::AtLeastOneBike)),
            (String::from_str("NoBikesAllowed"), MyBikesAllowedType(BikesAllowedType::NoBikesAllowed)),
            (String::from_str("Unknown(99)"), MyBikesAllowedType(BikesAllowedType::Unknown(99))),
        ];
        assert(choice_views(r@) =~= bikes_allowed_type_choices());
        r
    }
}

impl MyContinuousPickupDropOff {
    /// The continuous pickup and drop-off kinds offered by the editor, with their labels.
    pub fn radio_vec() -> (r: Vec<(String, MyContinuousPickupDropOff)>)
        ensures
            choice_views(r@) == continuous_pickup_drop_off_choices(),
    {
        let r = vec![
            (String::from_str("Continuous"), MyContinuousPickupDropOff(ContinuousPickupDropOff::Continuous)),
            (String::from_str("NotAvailable"), MyContinuousPickupDropOff(ContinuousPickupDropOff::NotAvailable)),
            (String::from_str("ArrangeByPhone"), MyContinuousPickupDropOff(ContinuousPickupDropOff::ArrangeByPhone)),
            (String::from_str("CoordinateWithDriver"), MyContinuousPickupDropOff(ContinuousPickupDropOff::CoordinateWithDriver)),
            (String::from_str("Unknown(99)"), MyContinuousPickupDropOff(ContinuousPickupDropOff::Unknown(99))),
        ];
        assert(choice_views(r@) =~= continuous_pickup_drop_off_choices());
        r
    }
}

impl MyRouteType {
    /// The route kinds offered by the editor, with their labels.
    pub fn radio_vec() -> (r: Vec<(String, MyRouteType)>)
        ensures
            choice_views(r@) == route_type_choices(),
    {
        let r = vec![
            (String::from_str("Tramway"), MyRouteType(RouteType::Tramway)),
            (String::from_str("Subway"), MyRouteType(RouteType::Subway)),
            (String::from_str("Rail"), MyRouteType(RouteType::Rail)),
            (String::from_str("Bus"), MyRouteType(RouteType::Bus)),
            (String::from_str("Ferry"), MyRouteType(RouteType::Ferry)),
            (String::from_str("CableCar"), MyRouteType(RouteType::CableCar)),
            (String::from_str("Gondola"), MyRouteType(RouteType::Gondola)),
            (String::from_str("Funicular"), MyRouteType(RouteType::Funicular)),
            (String::from_str("Coach"), MyRouteType(RouteType::Coach)),
            (String::from_str("Air"), MyRouteType(RouteType::Air)),
            (String::from_str("Taxi"), MyRouteType(RouteType::Taxi)),
            (String::from_str("Other(99)"), MyRouteType(RouteType::Other(99))),
        ];
        assert(choice_views(r@) =~= route_type_choices());
        r
    }
}

} // verus!
