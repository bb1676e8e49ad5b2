//! Decision core of a peer-to-peer desktop file transfer application.
//!
//! Every module states its rules as contracts over mathematical models: the
//! durable task records and their store, the versioned wire protocol, the send
//! queue, peer registry, speed-test arbitration, publication journal and the
//! desktop shell. Sockets, files, clocks and windows stay outside; they hand in
//! plain values and carry out the actions that come back.

pub mod activity;
pub mod boards;
pub mod calendar;
pub mod chunker;
pub mod cli;
pub mod codec;
pub mod config;
pub mod error;
pub mod exchange;
pub mod fair_writes;
pub mod files;
pub mod frame_budget;
pub mod identity;
pub mod instance_lock;
pub mod lists;
pub mod manifest;
pub mod network_state;
pub mod paths;
pub mod pausing;
pub mod progress;
pub mod protocol;
pub mod publish;
pub mod publish_recovery;
pub mod queue;
pub mod secure_fs;
pub mod selection;
pub mod session;
pub mod shell;
pub mod speed;
pub mod speed_control;
pub mod speed_exchange;
pub mod startup;
pub mod task_events;
pub mod task_model;
pub mod task_record;
pub mod task_recovery;
pub mod task_store;
pub mod text;
pub mod text_input;
pub mod transfer;
pub mod transfer_files;
pub mod transfer_loops;
pub mod wire;
