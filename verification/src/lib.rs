//! Narrows a vulnerability scan to the packages that a project declares itself.
//!
//! The scanner's report names every vulnerable package it found. The library
//! reads those names, checks each against the project's manifests, and writes
//! the policy that makes the scanner ignore the ones no manifest declares.

pub mod manifest;
pub mod matcher;
pub mod names;
pub mod policy;
pub mod report;
