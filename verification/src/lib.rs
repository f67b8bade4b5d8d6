//! A small to-do assistant: it reads commands such as
//! `TODO buy milk DEADLINE 2017-08-19` and renders the stored to-dos as a table.

pub mod text;
pub mod datetime;
pub mod grammar;
pub mod parsers;
pub mod models;
pub mod agenda;
pub mod bot;
pub mod laws;
