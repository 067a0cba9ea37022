//! A class scheduler: from the sections that a course catalogue offers for each wanted
//! course, every schedule that takes one section per course without a clash in time,
//! and the layout of calendar events on a weekly grid.
//!
//! - [`conflict`]: when two time spans, two sections, or a section and a busy span clash.
//! - [`class_filter`]: which sections stay in the running for a course.
//! - [`class_combinations`]: all conflict-free schedules over the courses.
//! - [`event_processor`] and [`event_laws`]: the weekly grid and what holds of it.
//! - [`time_parsing`], [`page_text`], [`schedule_scrape`]: reading the catalogue's text.
//! - [`scrape_plan`]: the decisions of a schedule search.
//! - [`credentials`], [`storage_rules`], [`chrome_resources`], [`error_context`],
//!   [`display`], [`text`], [`objects`]: what the program around the scheduler needs.

pub mod chrome_resources;
pub mod class_combinations;
pub mod class_filter;
pub mod conflict;
pub mod credentials;
pub mod display;
pub mod error_context;
pub mod event_laws;
pub mod event_processor;
pub mod objects;
pub mod page_text;
pub mod schedule_scrape;
pub mod scrape_plan;
pub mod storage_rules;
pub mod text;
pub mod time_parsing;
