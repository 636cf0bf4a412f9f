//! A DNS forwarding proxy's decision core: the message model, the wire codec,
//! the upstream lookup plan, the dual-stack filter and the query processor.
//!
//! Nothing here performs I/O. A caller owns the socket and the upstream
//! resolver, hands datagrams and lookup results in, and carries out the
//! lookups and replies that the library asks for.
//!
//! Everything is verified but the text form of a name, which is the one
//! that the resolver of `trust-dns` takes and is asked of `trust-dns`.

pub mod name;
pub mod message;
pub mod wire;
pub mod codec;
pub mod upstream;
pub mod config;
pub mod filter;
pub mod processor;
pub mod server;
