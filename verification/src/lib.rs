//! Core of the metea weather application: places and their labels, the
//! saved-places set, the geocoding and weather request bookkeeping, and the
//! screen transitions of the user interface.

pub mod decimal;
pub mod text;
pub mod place;
pub mod place_set;
pub mod geocoding;
pub mod place_map;
pub mod weather;
pub mod navigation;
pub mod storage;
pub mod internal_storage;
pub mod hourly;
pub mod time;
