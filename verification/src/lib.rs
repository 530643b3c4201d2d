//! A read-only TFTP protocol engine: the packet codec, option negotiation and
//! the lock-step block transfer state machine, with their contracts.

pub mod blocks;
pub mod decimal;
pub mod options;
pub mod packet;
pub mod record;
pub mod session;
pub mod types;
pub mod wire;
