//! File conversion engine: format detection, document and data conversions,
//! PDF generation and archive building, all from bytes to bytes, and the
//! bookkeeping of a batch of files on the converter's workbench.
pub mod text;
pub mod formats;
pub mod pdf_text;
pub mod markup;
pub mod docx;
pub mod display;
pub mod document;
pub mod archive;
pub mod image_conv;
pub mod json;
pub mod config_formats;
pub mod spreadsheet;
pub mod conversion;
pub mod batch;
pub mod readout;
pub mod audio;

pub use conversion::{convert, convert_checked, plan_conversion, Conversion, ConvertConfig, Converted};
pub use formats::{
    detect_format, get_output_formats, is_audio_format, is_image_input_format,
    is_image_output_format, is_known_format, ALL_INPUT_FORMATS,
};
pub use display::{download_blob, make_output_name, mime_type_for, BatchFile, Download, FileStatus};
pub use readout::{format_elapsed, format_size, format_size_delta};
