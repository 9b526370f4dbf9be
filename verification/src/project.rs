pub mod binary;
pub mod definition;
