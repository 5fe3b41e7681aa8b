//! The session controller of a web-viewable collaborative terminal: it
//! keeps each pane's output stream, seals every payload end to end so the
//! relay only routes ciphertext, decides who may type, and drives the
//! connection to the relay through reconnects.

pub mod access;
pub mod controller;
pub mod crypto;
pub mod frame;
pub mod pane;
pub mod transport;
