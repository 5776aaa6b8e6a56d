pub mod code;
pub mod space;
pub mod unit;
