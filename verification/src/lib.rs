//! Review of a change set hunk by hunk: the diff model, its ingestion from
//! a structured source and from the text of a unified diff, the splitting
//! of hunks, the staging of single hunks, and the recovery and rendering of
//! what the user says about them. Every function is verified against a
//! contract over the mathematical view of its arguments.

pub mod agree;
pub mod app;
pub mod cli;
pub mod diff;
pub mod editor;
pub mod feedback;
pub mod lines;
pub mod patch;
pub mod scan;
pub mod spawn;
pub mod staging;
pub mod text;
pub mod types;
pub mod ui;
