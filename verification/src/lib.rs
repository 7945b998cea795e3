#![verifier::loop_isolation(false)]

pub mod text;
pub mod json;
pub mod types;
pub mod numtext;
pub mod model;
pub mod sftp_data;
pub mod runtime;
pub mod protocol;
pub mod sftp;
pub mod editor;
pub mod workspace;
pub mod cli;
pub mod layout;
pub mod manager;
pub mod manager_sftp;
pub mod manager_events;
pub mod manager_input;
