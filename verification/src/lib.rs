//! Tool implementations for a coding-agent daemon, with their behaviour stated in contracts.

pub mod bytes;
pub mod call_laws;
pub mod child_run;
pub mod device_laws;
pub mod encoding;
pub mod error;
pub mod grep;
pub mod grep_laws;
pub mod grep_sink;
pub mod http;
pub mod http_laws;
pub mod image_gen;
pub mod image_run;
pub mod ios_bridge;
pub mod ios_tools;
pub mod json;
pub mod json_laws;
pub mod label_laws;
pub mod line_split;
pub mod listing_laws;
pub mod matching;
pub mod order;
pub mod paths;
pub mod pdf;
pub mod pdf_laws;
pub mod picture_laws;
pub mod powershell;
pub mod read_file;
pub mod read_file_range;
pub mod read_image;
pub mod read_laws;
pub mod registry;
pub mod registry_laws;
pub mod retrieve_webpage;
pub mod sanitize;
pub mod schema;
pub mod session_inspect;
pub mod session_laws;
pub mod set_working_dir;
pub mod shell_laws;
pub mod shell_util;
pub mod stream_cap;
pub mod text;
pub mod text_laws;
pub mod text_stream;
pub mod urls;
pub mod webpage_laws;
pub mod webpage_run;
