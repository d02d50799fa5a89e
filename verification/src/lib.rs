pub mod candidate_slots;
pub mod counts;
pub mod events;
pub mod extract;
pub mod fitness;
pub mod freq;
pub mod laws;
pub mod lookup;
pub mod prefix_index;
pub mod types;
