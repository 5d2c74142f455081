//! Path and argument translation between a host that writes drive-letter
//! paths (`C:\Users\me`) and a subprocess that sees them under POSIX mount
//! points (`/mnt/c/Users/me`): arguments go forward, output comes back.

pub mod dispatch;
pub mod drive;
pub mod editor;
pub mod host_path;
pub mod quoting;
pub mod round_trip;
mod text;
pub mod to_host;
pub mod to_posix;
