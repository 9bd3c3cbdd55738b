//! Core of a factorization service that stays responsive under load:
//! a result cache with hit accounting and snapshot reload, and a load
//! monitor that splits a fixed thread budget between query and compute work.

pub mod cache;
pub mod clock;
pub mod config;
pub mod dash;
pub mod factorization;
pub mod load_balancer;
pub mod models;
pub mod web;
