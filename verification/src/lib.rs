//! Verified core of a bus-traffic capture/replay toolchain.
//!
//! A captured bus log is filtered by channel and by a percentage window over
//! the object count, its event timestamps are normalized to absolute
//! nanoseconds since the Unix epoch, and the records are laid out as three
//! parallel columns for persistence. At replay time the records are filtered
//! by an identifier exclusion set and paced by a drift-compensated scheduler.

pub mod extract;
pub mod hexlist;
pub mod ident;
pub mod record;
pub mod replay;
pub mod table;
pub mod timestamp;
pub mod window;
