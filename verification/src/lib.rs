//! The verified core of the compositor's session socket and of its
//! corner-radius and image-copy bookkeeping.
pub mod framing;
pub mod session;
pub mod corner_radius;
pub mod image_copy;
