//! Catalogue logic of a terminal client for a Ukrainian cartoon site: the
//! catalogue entry, browsing by title, season and episode, the menus, reading
//! episode headings and the order in which the site is walked.

pub mod text;
pub mod number;
pub mod config;
pub mod catalog;
pub mod title;
pub mod scrape;
pub mod menu;
