//! The rules of the WebTransport server that takes the clients' transactions.
pub mod cert;
pub mod session;
