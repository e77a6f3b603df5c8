# GTFS Manager

A viewer and editor of GTFS transit datasets, with a map of the trips.

The editing logic is a library verified with Verus (`src/`):

- `feed` builds the editor's state from a feed's tables: trips sorted by identifier,
  stop times by trip then stop sequence, agencies by name and routes by short name
  (all stably), the block of stop times of each trip, the lookup of stops by
  identifier, and the counts shown in the lists.
- `delegate` answers the commands the window sends; `commands` holds each answer
  (selections, hovering, adding routes, stops and stop times, recording and deleting
  edits), each stated exactly over the state before and after.
- `map_input` and `queries` decide what a click or a pointer move on the map means
  and which stops and shape points each trip goes through.
- `order`, `runs` and `stops` are the sorting, grouping and lookup underneath.
- `laws` states what holds across operations.

`app/` is the program around it: reading the archive, the druid window and its
widgets, and the map's drawing, which is floating point.
