pub mod create;
pub mod reading;
pub mod select;
pub mod update;
