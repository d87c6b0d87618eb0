//! Idempotent newsletter publication and a durable delivery queue.
//!
//! The crate has two layers. The first holds the decisions an application
//! makes around its durable store: validating an idempotency key, decoding a
//! saved response, and, as functions from the step taken and its outcome to
//! the next step, the course of a submission, of a publication and of a
//! cycle of the delivery worker. The second is an in-memory store with the
//! same tables and the same transactional rules, on which those steps are
//! taken and on which the guarantees of the protocol are proved.
//!
//! - [`idempotency`]: the idempotency key, the saved response, and the
//!   operations that tell a first submission from a repeated one.
//! - [`store`]: the in-memory store and its transactions.
//! - [`routes`]: the publication of an issue, and the smaller decisions of
//!   the other request handlers.
//! - [`issue_delivery_worker`]: the worker that drains the delivery queue.
//! - [`worker_pool`]: several workers that share the queue, step by step.
//! - [`guarantees`]: idempotence, isolation by key, safety under concurrent
//!   submissions and concurrent workers, and the draining of the queue.
//! - [`email_client`]: what a sender of emails is asked and answers, and a
//!   sender that keeps the emails in memory.
//! - [`domain`], [`authentication`], [`config`], [`startup`], [`utils`]: the
//!   values and decisions around them.

pub mod authentication;
pub mod config;
pub mod domain;
pub mod email_client;
pub mod guarantees;
pub mod idempotency;
pub mod issue_delivery_worker;
pub mod routes;
pub mod startup;
pub mod store;
pub mod utils;
pub mod worker_pool;
