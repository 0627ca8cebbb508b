//! Verified core of an EPUB clean-up and device-fitting tool.

pub mod model;
pub mod report;
pub mod text;
pub mod identity;
pub mod metadata;
pub mod markup;
pub mod invisible;
pub mod paths;
pub mod anchors;
pub mod images;
pub mod options;
pub mod svg;
pub mod openlibrary;
pub mod frontmatter;
pub mod media;
pub mod reachable;
pub mod numbering;
pub mod code;
pub mod footnotes;
pub mod hygiene;
pub mod slug;
pub mod table_render;
pub mod names;
pub mod book;
pub mod assets;
pub mod image_plan;
pub mod dangling;
pub mod canvas;
pub mod classify;
pub mod autocontrast;
pub mod resize;
pub mod encode;
pub mod pipeline;
pub mod split;
pub mod svg_pass;
pub mod markdown_book;
pub mod inline_svg;
pub mod table_raster;
