pub mod builder;
pub mod definition;
pub mod validation;
