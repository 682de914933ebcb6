//! Core of the dogel peer-to-peer messenger.

pub mod codec;
pub mod command;
pub mod crypto;
pub mod discovery;
pub mod dispatch;
pub mod history;
pub mod ids;
pub mod inbound;
pub mod invite;
pub mod keys;
pub mod login;
pub mod membership;
pub mod message;
pub mod network;
pub mod peer;
pub mod pins;
pub mod policy;
pub mod primitives;
pub mod protocol;
pub mod replay;
pub mod reply;
pub mod report;
pub mod room;
pub mod route;
pub mod screen;
pub mod session;
pub mod shell;
pub mod startup;
pub mod storage;
pub mod swarm;
pub mod table;
pub mod text;
pub mod trust;
pub mod tui;
