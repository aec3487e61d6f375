pub mod counts;
pub mod frac;
pub mod mesh;
pub mod plot;
