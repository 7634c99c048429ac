//! An agent harness built on reference-monitor principles: the harness, not
//! the model, decides what executes.
//!
//! * [`monitor`] decides on every proposed call, from a [`capability`] bundle
//!   and the [`provenance`] of what the call cites. It alone makes the
//!   permissions that an executor accepts.
//! * [`orchestrator`] is the session loop between a [`model`] and an executor
//!   of [`tools`]; [`guarantees`] and [`accounts`] say what holds of every run.
//! * [`audit`] is the append-only, hash-chained record of every decision.
//!   [`wire`] and [`jsonl`] say how it is written down.
//! * [`executor`], [`walk`], [`path`] and [`sandbox`] say what an allowed
//!   action asks of the host, and what the session is told about the outcome.
//! * [`openai`] is the conversation with a chat model that proposes actions as
//!   function calls.
//! * [`demo`] holds the scripted demonstrations.
//! * [`views`] says that the views by which contracts speak of values leave
//!   nothing out.
//! * [`clock`] reads the clocks; [`text`] and [`json`] are the helpers that
//!   messages are built with.

pub mod accounts;
pub mod audit;
pub mod capability;
pub mod clock;
pub mod demo;
pub mod executor;
pub mod guarantees;
pub mod json;
pub mod jsonl;
pub mod model;
pub mod monitor;
pub mod openai;
pub mod orchestrator;
pub mod path;
pub mod provenance;
pub mod sandbox;
pub mod text;
pub mod tools;
pub mod views;
pub mod walk;
pub mod wire;
