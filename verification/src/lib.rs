//! Switchyard: the deterministic core of a Service Bus compatible broker.

pub mod admin;
pub mod amqp;
pub mod auth;
pub mod bytes;
pub mod cluster;
pub mod domain;
pub mod storage;
pub mod text;
pub mod uri;
