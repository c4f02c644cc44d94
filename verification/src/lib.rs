//! The rules of an SFTP server that shows the drives of a Windows machine as one tree.
//!
//! A client names `/C/Windows` what Windows names `C:\Windows`. The library reads such names,
//! keeps the state of a session and decides what each request leads to. It reads and writes
//! nothing itself: it hands out tasks, and its host performs them and reports how they went.
//!
//! - [`text`], [`windows_path`] and [`full_path`] read Windows paths,
//! - [`unix_path`] turns the names that clients send into Windows paths,
//! - [`protocol`] holds what requests and replies are made of,
//! - [`handles`], [`steps`] and [`session`] are the session and its conversation with the host,
//! - [`name_laws`] and [`canonical_laws`] state what names mean, [`request_laws`] what requests
//!   come to, [`path_laws`] and [`session_laws`] what holds of paths and sessions in general,
//!   and [`contract_laws`] that the functions keep to it.

pub mod canonical_laws;
pub mod contract_laws;
pub mod full_path;
pub mod handles;
pub mod name_laws;
pub mod path_laws;
pub mod protocol;
pub mod request_laws;
pub mod session;
pub mod session_laws;
pub mod steps;
pub mod text;
pub mod unix_path;
pub mod windows_path;
