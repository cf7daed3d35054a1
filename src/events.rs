//! Events and errors handed to applications by the client runtime.
use vstd::prelude::*;

use crate::ownership::BufferSlot;

verus! {

/// Whether a key went down or up.
#[derive(Debug, Clone, Copy, PartialEq, Eq, Structural)]
pub enum KeyState {
    Released,
    Pressed,
}

/// Keyboard event payload.
#[derive(Debug, Clone, Copy, PartialEq, Eq, Structural)]
pub struct KeyEvent {
    /// Input device id.
    pub device: u32,
    /// Event timestamp in microseconds.
    pub time_usec: u64,
    /// Linux keycode.
    pub key: u32,
    /// Key state.
    pub state: KeyState,
}

impl KeyEvent {
    /// Returns `true` when this event is a key press.
    pub fn is_pressed(&self) -> (r: bool)
        ensures
            r == (self.state == KeyState::Pressed),
    {
        match self.state {
            KeyState::Pressed => true,
            KeyState::Released => false,
        }
    }
}

/// Emitted after a rendered buffer was released by the compositor.
#[derive(Debug, Clone)]
pub struct PresentEvent {
    /// Target monitor id.
    pub monitor_id: String,
    /// Buffer that reached presentation completion.
    pub buffer_index: BufferSlot,
}

/// Emitted when a monitor is removed.
#[derive(Debug, Clone)]
pub struct MonitorRemovedEvent {
    /// Removed monitor id.
    pub monitor_id: String,
    /// Removed monitor name.
    pub name: String,
}

/// Text composition event payload.
#[derive(Debug, Clone)]
pub struct CharEvent {
    /// Composed UTF-8 text.
    pub text: String,
}

/// Pointer device class for pointer-style events.
#[derive(Debug, Clone, Copy, PartialEq, Eq, Structural)]
pub enum PointerType {
    /// Mouse-like pointer device (mouse/touchpad/trackpoint).
    Mouse,
    /// Pen/stylus input device.
    Pen,
    /// Touch contact input device.
    Touch,
    /// Device class could not be determined.
    Unknown,
}

/// Effective modifier state snapshot.
#[derive(Debug, Clone, Copy, PartialEq, Eq, Structural)]
pub struct Modifiers {
    /// Depressed modifiers bitmask.
    pub depressed: u32,
    /// Latched modifiers bitmask.
    pub latched: u32,
    /// Locked modifiers bitmask.
    pub locked: u32,
    /// Active keyboard group/layout index.
    pub group: u32,
}

/// Result of feeding one key event through the keyboard composer.
#[derive(Debug, Clone)]
pub struct KeyComposition {
    /// Text produced by the key event, if any.
    pub text: Option<String>,
    /// Whether compose state consumed the key.
    pub consumed: bool,
    /// Resulting keysym.
    pub keysym: u32,
    /// Effective modifier state after processing.
    pub modifiers: Modifiers,
}

/// Errors from keyboard composer initialization.
#[derive(Debug, Clone, Copy, PartialEq, Eq, Structural)]
pub enum XkbError {
    KeymapCompile,
    ComposeTable,
}

/// Errors from the compositor's GL helpers.
#[derive(Debug, Clone, PartialEq, Eq)]
pub enum RendererError {
    Shader(String),
    Program(String),
    Allocation,
    InvalidDimensions { len: usize, dimensions: usize },
    InvalidBufferIndex(usize),
    TypeMismatch { expected: &'static str, actual: &'static str },
}

/// Top-level errors of the client runtime's own logic.
#[derive(Debug, Clone, PartialEq, Eq)]
pub enum FrameworkError {
    /// Invalid configuration or layout request.
    Config(String),
    /// No monitor has the given id.
    MonitorNotFound(String),
}

/// The ASCII token that names a protocol frame.
#[derive(PartialEq, Eq, Debug, Clone)]
pub struct MessageHeader(pub String);

} // verus!
