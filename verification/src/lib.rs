//! Decision logic of a feed filter that classifies unread feed items as
//! advertisements and remediates the ones above a confidence threshold.

pub mod confidence;
pub mod config;
pub mod coordinator;
pub mod decimal;
pub mod feed;
pub mod fences;
pub mod pipeline;
pub mod reply;
pub mod report;
pub mod run;
pub mod schedule;
pub mod text;
pub mod verdict;
