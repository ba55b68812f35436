//! Timestamped questions from video descriptions: a verified scanner for
//! `H:MM:SS text` lines, deep links into the video, a substring search filter
//! and the page model that groups questions by video.

mod chars;
pub mod link;
pub mod timestamp;
pub mod search;
pub mod render;
