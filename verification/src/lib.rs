//! In-memory archive-backed frame supplier for a frame-to-frame pose tracker.
//!
//! The host writes a packed archive (association manifest, depth images,
//! color images) into a buffer owned by the session; the session indexes the
//! archive, decodes paired depth/color frames on demand, and hands each frame
//! to an external tracking engine driven by the host.

pub mod archive;
pub mod assoc;
pub mod decode;
pub mod errors;
pub mod session;

pub use errors::TrackError;
pub use session::WasmTracker;
