//! Conversion knobs that are plain data: how tables are represented, and a
//! cover image handed over as bytes.

use vstd::prelude::*;

verus! {

/// How HTML/Markdown tables are represented in the output (when the profile
/// enables table linearization). The target firmware has no table rendering
/// at all, so a `<table>` is either flattened to paragraphs or rendered to a
/// rasterized image.
#[derive(Debug, Clone, Copy, PartialEq, Eq)]
pub enum TableMode {
    /// Flatten every table to "Header: value" style paragraphs.
    Text,
    /// Rasterize complex tables and linearize the simple ones; tables that
    /// carry anchor targets, links or images, or that are too tall, are
    /// always linearized so nothing is lost.
    Image,
    /// Rasterize every table, subject to the same safety fallbacks.
    ImageAll,
}

/// A cover image handed to the conversion as bytes: this library never
/// opens a file.
#[derive(Debug, Clone)]
pub struct CoverImage {
    /// The encoded image.
    pub data: Vec<u8>,
    /// Its media type, e.g. `image/jpeg`.
    pub media_type: String,
    /// The filename to store it under, e.g. `cover.jpg`.
    pub file_name: String,
}

} // verus!
