//! Verified core of a multi-session display server and its client runtime.
//!
//! - `layout`: horizontal packing of monitors, the edge-contiguity check,
//!   and cursor clamping and tunnel-free motion.
//! - `ownership`: the compositor's per-buffer ownership ledger with
//!   current/pending buffers per surface and the deferred-release queue.
//! - `renderer`: the compositor's decisions on swap requests, fence
//!   signals and what to draw.
//! - `server`: the server's ownership table, in-flight buffer requests and
//!   the awake set that gates them.
//! - `session`: sessions, pending sessions, and the decisions on
//!   authentication, switching and readiness.
//! - `swapchain`, `touch`, `config`, `events`: the client runtime's buffer
//!   cycle, primary-touch tracking, configuration and event types.
//! - `ids`, `token`: identifiers and their text form; session tokens.
//! - `fences`: which acquire-fence waits are armed, so that each callback
//!   runs at most once and never after a cancel.
//! - `table`: association lists read as finite maps.

pub mod config;
pub mod events;
pub mod fences;
pub mod ids;
pub mod layout;
pub mod ownership;
pub mod renderer;
pub mod server;
pub mod session;
pub mod swapchain;
pub mod table;
pub mod token;
pub mod touch;
