//! The screens of `pen cal`.
pub mod app;
pub mod calendar;
pub mod search;
