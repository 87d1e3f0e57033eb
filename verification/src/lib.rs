//! A Redis client's protocol logic: command classification, connection
//! reply bookkeeping, cluster routing and reply aggregation.
#![allow(unused_imports)]

pub mod bytes_util;
pub mod command;
pub mod reply_mode;
pub mod connection_mode;
pub mod cluster_send_batch;
pub mod cluster_reply_mode;
pub mod connection_state;
pub mod reply;
pub mod error;
pub mod redis_error;
pub mod pub_sub;
pub mod message;
pub mod message_queue;
pub mod random;
pub mod hash_slot;
pub mod cluster_topology;
pub mod cluster_request;
pub mod cluster_routing;
pub mod master_watch;
pub mod reconnection;
pub mod command_args;
pub mod command_options;
pub mod cluster_connection;
pub mod network_handler;
