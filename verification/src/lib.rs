//! Lesson-collection characterization: per-deal records, difficulty ladder,
//! and the collection profile rolled up from them.

pub mod text;
pub mod cards;
pub mod hash;
pub mod model;
pub mod auction;
pub mod contract;
pub mod structural;
pub mod cardplay;
pub mod probe;
pub mod scan;
pub mod topics;
pub mod lessons;
pub mod sorted_map;
pub mod profile;
pub mod numfmt;
pub mod report;
pub mod rank;
pub mod html;
pub mod headings;
