pub mod cli;
pub mod clipboard;
pub mod maven_line;
pub mod progress;
pub mod report;
pub mod spinner;
pub mod stack_trace;
pub mod surefire;
pub mod text;

pub use maven_line::{parse_module_start, parse_reactor_module, parse_test_results};
pub use stack_trace::filter_stack_trace;
pub use surefire::extract_xml_failures;
