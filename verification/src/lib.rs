//! Packing and unpacking the content archives a Nintendo Switch title is made of.
//!
//! [`hacbrewpack`] decides what goes into a title's archives and seals them, [`unpack`] opens and
//! verifies them again, and [`hactool`] says what they hold. Nothing here touches a filesystem:
//! bytes in, bytes out.

pub mod bytes;
pub mod container;
pub mod crypto;
pub mod hacbrewpack;
pub mod hactool;
pub mod keyset;
pub mod sections;
pub mod signing;
pub mod text;
pub mod unpack;
