//! Decoding of market-data quote records out of raw capture frames.
//!
//! A frame may carry a quote payload behind a fixed marker. The payload is a
//! fixed-layout ASCII record: an issue code, a five-level bid ladder, a
//! five-level ask ladder and the exchange accept time. This crate locates the
//! payload, decodes it into a [`quote::Quote`], orders the decoded records
//! and renders each as one text line.

pub mod ascii;
pub mod locate;
pub mod order;
pub mod quote;
pub mod render;
pub mod time;
