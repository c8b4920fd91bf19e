//! Verified core of the desktop binder: drawing the desktop picture, and the
//! protocol by which the picture is put on screen through the Kagami compositor.
//!
//! Everything here is pure computation. Message passing, page allocation and
//! keyboard input belong to the program around this library.
pub mod canvas;
pub mod chunked;
pub mod desktop;
pub mod error;
pub mod font;
pub mod reply;
pub mod session;
pub mod shared;
pub mod startup;
pub mod window;
pub mod wire;
