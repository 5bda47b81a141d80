//! Local-port pool for `adb forward`.

use vstd::prelude::*;

verus! {

/// First port of the pool that `adb forward` local ports are drawn from.
pub const ADB_LOCAL_PORT_POOL_BASE: u16 = 19753;

/// Number of ports in the pool; allocation cycles through
/// `ADB_LOCAL_PORT_POOL_BASE .. ADB_LOCAL_PORT_POOL_BASE + ADB_LOCAL_PORT_POOL_SIZE`.
pub const ADB_LOCAL_PORT_POOL_SIZE: u16 = 10000;

/// The port that the pool hands out for a counter value.
pub open spec fn pool_port(offset: u16) -> int {
    ADB_LOCAL_PORT_POOL_BASE + (offset % ADB_LOCAL_PORT_POOL_SIZE)
}

/// Compute the pool port for `offset`: the base plus the offset taken
/// modulo the pool size.
pub fn next_local_port(offset: u16) -> (port: u16)
    ensures
        port == pool_port(offset),
        ADB_LOCAL_PORT_POOL_BASE <= port < ADB_LOCAL_PORT_POOL_BASE + ADB_LOCAL_PORT_POOL_SIZE,
{
    ADB_LOCAL_PORT_POOL_BASE + (offset % ADB_LOCAL_PORT_POOL_SIZE)
}

/// Reserve the next port of the pool: returns the port for the current
/// counter value and advances the counter by one, wrapping at `u16::MAX`.
pub fn allocate_local_port(counter: &mut u16) -> (port: u16)
    ensures
        port == pool_port(*old(counter)),
        *final(counter) == (if *old(counter) == u16::MAX { 0 } else { *old(counter) + 1 }),
{
    let offset = *counter;
    *counter = offset.wrapping_add(1);
    next_local_port(offset)
}

/// Two consecutive allocations hand out consecutive ports of the cycle:
/// the second port is the first plus one, or the pool base when the first
/// was the last port of the pool or the counter wrapped.
pub proof fn lemma_consecutive_allocations(c: u16)
    ensures
        pool_port(if c == u16::MAX { 0 } else { (c + 1) as u16 }) == (
            if c == u16::MAX { ADB_LOCAL_PORT_POOL_BASE as int }
            else if (c % ADB_LOCAL_PORT_POOL_SIZE) + 1 == ADB_LOCAL_PORT_POOL_SIZE { ADB_LOCAL_PORT_POOL_BASE as int }
            else { pool_port(c) + 1 }),
{
}

} // verus!
