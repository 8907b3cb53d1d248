//! Socket addresses and connection rules shared by every transport: TCP, Unix domain sockets
//! and Windows named pipes.

pub mod acceptor;
pub mod addr;
pub mod connect;
pub mod escape;
pub mod laws;
pub mod net_addr;
pub mod pipe_name;
pub mod text;

pub use crate::acceptor::{NamedPipeAcceptor, PendingInstance, PipeServerOptions, PipeServerRequest};
pub use crate::addr::SocketAddr;
pub use crate::connect::{ConnectAttempts, ConnectStep, Connection, OpenOutcome, PipeOpenRequest};
pub use crate::escape::UnescapeError;
pub use crate::net_addr::NetAddr;
