//! Runtime core of a high-level emulator for programs of a 32-bit guest
//! system: how values cross between guest registers, guest memory, text and
//! the host, and the object model that lives in guest memory.
//!
//! The core decides and the embedder acts. Nothing here runs guest code or
//! host methods: a message is resolved to the implementation to invoke, a
//! release says whether `dealloc` is now due, a perform hands the run loop a
//! timer. Conditions that the emulated program cannot survive are values of
//! [`error::Fatal`], never panics.
//!
//! - [`mem`]: the guest address space, with checked access and allocation.
//! - [`abi`]: values in registers, and how they are handed back.
//! - [`cg_geometry`], [`cg_text`], [`float_text`]: points, sizes and
//!   rectangles in registers, in memory and as text.
//! - [`selector`], [`class`], [`template`]: interned names, classes and the
//!   hierarchy, and how frameworks declare classes.
//! - [`object`], [`autorelease`], [`objc`]: the objects, their owners, and
//!   releases that are put off.
//! - [`message`], [`kvc`], [`perform`], [`ns_object`]: dispatch, properties
//!   set by name, performs on the main run loop, and the root class.

pub mod abi;
pub mod autorelease;
pub mod cg_geometry;
pub mod cg_text;
pub mod class;
pub mod error;
pub mod float_text;
pub mod kvc;
pub mod mem;
pub mod message;
pub mod ns_object;
pub mod objc;
pub mod object;
pub mod perform;
pub mod selector;
pub mod template;
