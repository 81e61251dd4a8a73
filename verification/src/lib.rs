//! Finds the processes that listen on TCP and UDP ports, keeps a selectable
//! list of them and decides what an interactive session does on each key.
//!
//! The crate holds the rules only: it reads the text that a socket listing
//! utility printed, and it is told how a termination attempt ended. Running
//! those utilities and drawing the list is left to the program around it.

pub mod app;
pub mod binding;
pub mod decimal;
pub mod display;
pub mod message;
pub mod scan_laws;
pub mod scanner;
pub mod selection;
pub mod terminator;
pub mod text;
