//! Renders embedded math and diagram markup into themeable inline images.
//!
//! The library holds the verified core: the content-addressable render
//! cache and its persistent binary form, the virtual file table a
//! typesetting compiler resolves files through, the math templates and the
//! judgement of compile outcomes, the SVG theming stage, the diagram
//! compiler, and the fence-annotation and callout parsers of the
//! surrounding markdown layer.

pub mod cache;
pub mod callouts;
pub mod diagram;
pub mod fence;
pub mod hashing;
pub mod mathml;
pub mod mode;
pub mod numeric;
pub mod persist;
pub mod pipeline;
pub mod session;
pub mod templates;
pub mod textutil;
pub mod themer;
pub mod world;
