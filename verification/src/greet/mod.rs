//! The greet service: greets senders and remembers who has greeted before.

pub mod domain;
pub mod persistence;
pub mod presentation;
pub mod usecase;
