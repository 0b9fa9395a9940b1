pub mod control;
pub mod handler;
pub mod mutex;
pub mod pic;
