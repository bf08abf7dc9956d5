//! Weather observations held in memory, indexed by date and by kind of
//! weather, and queried through a small planner that picks the most
//! selective index for each query.

pub mod indexes;
pub mod weather_data;
