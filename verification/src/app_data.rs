//! The state of the editor: the dataset's tables, the lists shown, and what is selected.
use vstd::prelude::*;

use crate::items::{Action, Edit, MyAgency, MyRoute, MyStop, MyStopTime, MyTrip};
use crate::records::MyGtfs;
use crate::runs::{ranges_view, runs, trip_ids, IdRange};
use crate::stops::is_stop_order;
use crate::zoom::ZoomLevel;

verus! {

/// Everything the editor shows and edits.
pub struct AppData {
    /// Where a stop time being added goes: before the selected one (`true`) or after it.
    pub insert_stop_time_before: Option<bool>,
    pub show_deleted: bool,
    pub show_edits: bool,
    pub show_actions: bool,
    /// The feed's tables, in the order the lists were made from.
    pub gtfs: MyGtfs,
    pub selected_agency_id: Option<Option<String>>,
    pub selected_route_id: Option<String>,
    /// (position in `trips`, trip identifier)
    pub selected_trip_id: Option<(usize, String)>,
    /// (trip identifier, stop sequence)
    pub selected_stop_time_id: Option<(String, u16)>,
    pub hovered_stop_time_id: Option<(String, u16)>,
    pub selected_stop_id: Option<String>,
    pub hovered_trip_paths: Vec<usize>,
    /// The block of `stop_times` of each trip.
    pub stop_time_range_from_trip_id: Vec<IdRange>,
    /// The positions of `stops` sorted by identifier, to find a stop by its identifier.
    pub stop_index_from_id: Vec<usize>,
    /// The block of `gtfs.shapes` of each shape.
    pub shapes_range_from_shape_id: Vec<IdRange>,
    pub agencies: Vec<MyAgency>,
    pub routes: Vec<MyRoute>,
    pub trips: Vec<MyTrip>,
    pub stop_times: Vec<MyStopTime>,
    pub stops: Vec<MyStop>,
    pub expanded: bool,
    pub actions: Vec<Action>,
    pub edits: Vec<Edit>,
    pub map_zoom_level: ZoomLevel,
    pub map_stop_selection_mode: bool,
}

impl AppData {
    /// The indexes agree with the lists they index: the trip blocks are those of
    /// `stop_times`, and `stop_index_from_id` sorts the positions of `stops`.
    pub open spec fn wf(self) -> bool {
        &&& ranges_view(self.stop_time_range_from_trip_id@) == runs(trip_ids(self.stop_times@))
        &&& is_stop_order(self.stop_index_from_id@, self.stops@)
    }
}

} // verus!

verus! {

impl crate::items::ListItem for AppData {
    open spec fn has_id(&self) -> bool {
        true
    }

    open spec fn has_info(&self) -> bool {
        true
    }

    /// Passes `value` on to every agency (which keeps its state).
    fn update_all(&mut self, value: bool)
        ensures
            *final(self) == (AppData { agencies: final(self).agencies, ..*old(self) }),
            final(self).agencies@ == old(self).agencies@,
    {
        let mut i: usize = 0;
        while i < self.agencies.len()
            invariant
                i <= self.agencies.len(),
                *self == (AppData { agencies: self.agencies, ..*old(self) }),
                self.agencies@ == old(self).agencies@,
            decreases self.agencies.len() - i,
        {
            self.agencies[i].update_all(value);
            assert(self.agencies@ =~= old(self).agencies@);
            i = i + 1;
        }
    }

    /// The whole state has no identifier of its own.
    fn id(&self) -> (r: String)
        ensures
            r@ == "null"@,
    {
        String::from_str("null")
    }

    fn item_type(&self) -> (r: String)
        ensures
            r@ == "null"@,
    {
        String::from_str("null")
    }

    fn selected(&self) -> (r: bool)
        ensures
            r == false,
    {
        false
    }
}

} // verus!
