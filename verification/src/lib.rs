//! Correlated request/response dispatch over two transports.
//!
//! A front end hands each inbound request to an out-of-process decision-maker
//! and resumes exactly when a matching reply arrives. The crate provides:
//! the request/response message model and its binary wire codec (`msg`,
//! `codec`), length-prefix framing and the framed-stream reader's decision
//! logic (`framing`), the identity-to-waiter correlation table (`table`),
//! the dispatch/completion rules of both transports (`transport`), and the
//! front-end adapter's pure pieces (`adapter`).

pub mod adapter;
pub mod codec;
pub mod framing;
pub mod msg;
pub mod table;
pub mod transport;
