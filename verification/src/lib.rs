//! Fast2D: the font, text-layout and error logic of a small 2D drawing library.
//!
//! The library decides how text is split into words and wrapped into lines, which
//! family, style and weight a font file declares, how font weights are written in
//! CSS, and what each error says.

pub mod backend;
pub mod fetch_file;
pub mod object2d;

pub use backend::RegisterFontsError;
pub use backend::backend_canvas::font_weight_to_css;
pub use backend::backend_canvas::register_fonts::{describe_font, FontDescriptor, FontRegistration};
pub use backend::backend_canvas::text_layout::{split_words, LineWrapper};
pub use fetch_file::FetchFileError;
pub use object2d::{FontWeight, Family};
