pub mod algebra;
pub mod convert;
pub mod double;
pub mod laws;
pub mod order;
pub mod pack;
pub mod root;
pub mod rounding;
pub mod single;
pub mod single_laws;
pub mod whole_laws;
