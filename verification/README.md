# metea

A small weather application over the open-meteo services: search a place,
save it, and look at the hourly forecast of the saved places.

- `src/` is the library, verified with Verus: places and their labels
  (`place`, `decimal`), sets and maps keyed by places (`place_set`,
  `place_map`), the geocoding query and its results (`geocoding`, `text`),
  the bookkeeping of weather requests, the forecast address and the
  forecast times (`weather`, `hourly`, `time`), the screen transitions (`navigation`) and the storage paths
  (`storage`, `internal_storage`).
- `app/` is the program around it: the egui window, the worker threads that
  talk to the services, the JSON files, and the conversion of the float
  coordinates that the services send.
- `tests/` runs the library on concrete values.
