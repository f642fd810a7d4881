//! Uploads one image to a background-removal service as a multipart/form-data
//! request and decides what to do with the service's answer.
//!
//! The verified part covers everything that computes: the multipart framing,
//! the boundary token, the description of the source file and the handling of
//! the response. Reading files and talking to the network happen around it.
pub mod multipart;
pub mod upload;
