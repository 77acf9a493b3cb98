//! Acquisition and dispatch core of a serial multimeter monitor: keepalive
//! timing of the reader, the fan-out of decoded readings to subscribers, and
//! the spoken-readout mailbox.

pub mod arg;
pub mod dispatch;
pub mod keepalive;
pub mod voice;
