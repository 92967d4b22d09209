pub mod models;
pub mod util;
