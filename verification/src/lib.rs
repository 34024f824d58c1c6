//! The verified core of a mini image-gallery file server: resolving request
//! paths against a configured root directory without ever escaping it,
//! classifying files by extension into image subtypes and content types,
//! assembling directory listings into gallery entries, and deciding each
//! request's response.

pub mod error;
pub mod filetype;
pub mod handlers;
pub mod myclap;
pub mod template;
