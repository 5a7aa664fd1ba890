pub mod validation;
