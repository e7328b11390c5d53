//! Rasterizing PDF converter.
//!
//! The library turns a parsed PDF document into a visually equivalent,
//! flattened PDF: every page is rendered to a raster image, the image is
//! re-encoded as a JPEG, and a brand-new single-image-per-page document is
//! assembled around the encoded pages.  Rendering itself is an external
//! service (it needs a floating-point scale factor), so the drivers here
//! take the rendered pixel buffers as input; parsing, color conversion,
//! encoding, sequencing and document assembly all happen in verified code.

pub mod assemble;
pub mod color;
pub mod content;
pub mod convert;
pub mod geometry;
pub mod encode;
pub mod errors;
pub mod progress;
pub mod pages;
pub mod source;

pub use convert::rasterize_pdf;
pub use convert::rasterize_pdf_checked;
pub use convert::rasterize_pdf_with_progress;
pub use convert::rasterize_pdf_with_progress_checked;
pub use errors::ConvertError;
pub use pages::EncodedPage;
pub use pages::RenderedPage;
pub use progress::ProgressSink;
pub use progress::SilentSink;
pub use progress::Stage;
pub use source::SourceDoc;
