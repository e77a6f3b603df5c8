use vstd::prelude::*;

verus! {

/// The magnification steps that the map offers.
#[derive(Debug, Copy, Clone, PartialEq, Eq, Hash, Structural)]
pub enum ZoomLevel {
    One,
    Two,
    Five,
    Ten,
    Twenty,
    Fifty,
}

/// The magnification factor of a zoom level.
pub open spec fn zoom_factor(z: ZoomLevel) -> nat {
    match z {
        ZoomLevel::One => 1,
        ZoomLevel::Two => 2,
        ZoomLevel::Five => 5,
        ZoomLevel::Ten => 10,
        ZoomLevel::Twenty => 20,
        ZoomLevel::Fifty => 50,
    }
}

/// The zoom levels offered by the map, with their labels, from least to most magnified.
pub open spec fn zoom_choices() -> Seq<(Seq<char>, ZoomLevel)> {
    seq![
        ("1x"@, ZoomLevel::One),
        ("2x"@, ZoomLevel::Two),
        ("5x"@, ZoomLevel::Five),
        ("10x"@, ZoomLevel::Ten),
        ("20x"@, ZoomLevel::Twenty),
        ("50x"@, ZoomLevel::Fifty),
    ]
}

impl ZoomLevel {
    /// The zoom levels offered by the map, with their labels.
    pub fn radio_group_vec() -> (r: Vec<(String, ZoomLevel)>)
        ensures
            r@.map_values(|p: (String, ZoomLevel)| (p.0@, p.1)) == zoom_choices(),
    {
        let r = vec![
            (String::from_str("1x"), ZoomLevel::One),
            (String::from_str("2x"), ZoomLevel::Two),
            (String::from_str("5x"), ZoomLevel::Five),
            (String::from_str("10x"), ZoomLevel::Ten),
            (String::from_str("20x"), ZoomLevel::Twenty),
            (String::from_str("50x"), ZoomLevel::Fifty),
        ];
        assert(r@.map_values(|p: (String, ZoomLevel)| (p.0@, p.1)) =~= zoom_choices());
        r
    }

    /// The magnification factor as an integer.
    pub fn to_usize(&self) -> (r: usize)
        ensures
            r == zoom_factor(*self),
    {
        match self {
            ZoomLevel::One => 1,
            ZoomLevel::Two => 2,
            ZoomLevel::Five => 5,
            ZoomLevel::Ten => 10,
            ZoomLevel::Twenty => 20,
            ZoomLevel::Fifty => 50,
        }
    }
}

/// The levels of `zoom_choices`, without their labels.
pub open spec fn zoom_levels_offered() -> Seq<ZoomLevel> {
    zoom_choices().map_values(|p: (Seq<char>, ZoomLevel)| p.1)
}

/// The offered zoom levels are all the levels, each once, in increasing magnification.
pub proof fn lemma_zoom_choices_increasing()
    ensures
        forall|z: ZoomLevel| #[trigger] zoom_levels_offered().contains(z),
        forall|a: int, b: int|
            0 <= a < b < zoom_choices().len() ==> zoom_factor(#[trigger] zoom_choices()[a].1) < zoom_factor(
                #[trigger] zoom_choices()[b].1,
            ),
{
    assert forall|z: ZoomLevel| #[trigger] zoom_levels_offered().contains(z) by {
        let k: int = match z {
            ZoomLevel::One => 0,
            ZoomLevel::Two => 1,
            ZoomLevel::Five => 2,
            ZoomLevel::Ten => 3,
            ZoomLevel::Twenty => 4,
            ZoomLevel::Fifty => 5,
        };
        assert(zoom_levels_offered()[k] == z);
    }
}

} // verus!
