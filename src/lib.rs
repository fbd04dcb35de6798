//! A client for a local Rich-Presence IPC peer: the frame codec, the
//! protocol state machine, request correlation and the scheduling decisions
//! that keep a session alive.
pub mod client;
pub mod connection;
pub mod document;
pub mod error;
pub mod message;
pub mod presence;
pub mod requests;
pub mod scheduler;

pub use client::{Client, Notification, State};
pub use connection::{Channel, Connection};
pub use document::Document;
pub use error::Error;
pub use message::{Message, MessageType};
pub use presence::RichPresence;
pub use requests::{PendingRequests, RequestStatus};
pub use scheduler::{update_client, Backoff};
