pub mod anilist;
pub mod engine;
pub mod ledger;
pub mod string_distance;
pub mod tracker;
