//! A serial-port log viewer's core: a sanitizer for terminal control
//! sequences, an append-only log buffer, a marker highlighter, the viewer's
//! state, and the decisions of the serial acquisition loop.

pub mod text;
pub mod sanitize;
pub mod highlight;
pub mod buffer;
pub mod app_state;
pub mod acquisition;
