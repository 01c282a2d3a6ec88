//! Project tracker persistence core.
//!
//! An engineering-management tracker's storage layer: people, teams,
//! projects, milestones, stakeholders, resources and notes, held in a
//! relational store with enforced keys, foreign references and cascade
//! deletion, behind typed repository operations.

pub mod agent;
pub mod auth;
pub mod chat;
pub mod cli;
pub mod config;
pub mod err;
pub mod laws;
pub mod milestones;
pub mod model;
pub mod notes;
pub mod people;
pub mod projects;
pub mod relations;
pub mod teams;
pub mod schema;
pub mod storage;
pub mod store;
pub mod seqkit;
pub mod strkit;
pub mod utils;
