//! The integrated SFTP client's logic: its error and data types, how a
//! profile becomes connection options, and the path rules of both sides.
pub mod error;
pub mod paths;
pub mod profile;
pub mod steps;
pub mod types;
