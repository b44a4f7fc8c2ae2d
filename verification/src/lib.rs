//! Verified core of the StudyFlash review system: card scheduling, experience
//! rewards, card and taxonomy validation, tag normalisation and the documents
//! built for imported lessons.
pub mod schedule;
pub mod text;
pub mod tags;
pub mod progress;
pub mod model;
pub mod document;
pub mod lesson;
pub mod validation;
pub mod taxonomy;
pub mod review;
pub mod cards;
