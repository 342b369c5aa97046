//! The second version of the API: what its requests mean and how they are answered.

pub mod export;
pub mod fs;
pub mod glob;
pub mod histogram;
pub mod image_laws;
pub mod images;
pub mod inspect;
pub mod pixel;
pub mod query_laws;
pub mod range_laws;
pub mod region;
pub mod sessions;
pub mod stats;
pub mod values;
