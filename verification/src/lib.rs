pub mod args;
pub mod scan;
pub mod style;
