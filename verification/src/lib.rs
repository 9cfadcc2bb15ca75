//! Reconciles a declared description of teams, roles and permissions with the
//! live state of collaboration platforms.
//!
//! The crate holds the decisions of the pipeline and none of its transport:
//! callers send the requests that the library describes and hand the responses
//! back as plain values.
//!
//! - [`http`], [`pagination`] and [`graphql`] are the read client: what a
//!   status means, when to wait and send again, and how pages add up.
//! - [`diff`] compares a desired with a live snapshot; [`state`] and [`laws`]
//!   say what its actions do and what holds of every diff.
//! - [`canonical`] and [`confirmation`] bind an approval to the diff at hand;
//!   [`binding`] proves that the canonical text tells every diff apart.
//! - [`apply`] replays a diff, one write at a time.
//! - [`github`], [`discord`] and [`zulip`] are the platforms; [`cli`] reads
//!   the command line.

pub mod apply;
pub mod binding;
pub mod canonical;
pub mod cli;
pub mod confirmation;
pub mod diff;
pub mod discord;
pub mod github;
pub mod graphql;
pub mod grouped;
pub mod http;
pub mod laws;
pub mod model;
pub mod pagination;
pub mod render;
pub mod seqs;
pub mod simulate;
pub mod state;
pub mod text;
pub mod zulip;
