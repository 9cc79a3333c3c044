pub mod accounts;
pub mod commands;
pub mod lifecycle;
pub mod session;

use vstd::prelude::*;

verus! {

/// The address of one connected peer: the plain data (IP bits, port, address
/// family) that identifies a live TCP connection, unique per connection.
#[derive(Clone, Copy, PartialEq, Eq, Structural, Debug)]
pub struct Addr {
    pub ip: u128,
    pub port: u16,
    pub v6: bool,
}

} // verus!
