//! The sessions that a host talks to.
pub mod p2p_session;
pub mod p2p_spectator_session;
pub mod sync_test_session;
