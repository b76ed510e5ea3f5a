//! OpenHPA: tuning of Kubernetes autoscalers, with every decision verified.
//!
//! The library decides and computes; it does no I/O. [`rules`], [`forecast`] and [`schedule`] find
//! what could be better about a workload, [`synthesis`] merges what was approved of it into one
//! recommendation, and [`llm`] and [`backend`] hold the conversation with an optional model.
//! [`collector`] and [`metrics`] read what the cluster reports, [`applier`] and [`status`] write the
//! patches, [`safety`] judges a change after it was applied, [`leader`] elects who may apply one,
//! and [`controller`] says what each pass of the reconcile loop does next.
//!
//! Measured values are carried by their bits, as a [`sample::Sample`]: the library orders and
//! compares them, and takes the figures computed from them as arguments.
pub mod applier;
pub mod backend;
pub mod clock;
pub mod collector;
pub mod config;
pub mod controller;
pub mod crd;
pub mod cron;
pub mod domain;
pub mod field_map;
pub mod forecast;
pub mod json;
pub mod leader;
pub mod llm;
pub mod metrics;
pub mod rules;
pub mod safety;
pub mod sample;
pub mod schedule;
pub mod status;
pub mod synthesis;
pub mod text;
