//! Command-line dispatch for programs with several entry methods: choosing
//! the method that the command line names, turning the remaining words into
//! named argument values, reading typed values out of them, and rendering the
//! help text.
pub mod text;
pub mod arg_map;
pub mod info;
pub mod error;
pub mod parse;
pub mod select;
pub mod numbers;
pub mod values;
pub mod help;
pub mod dispatch;
pub mod docs;
pub mod laws;

pub use arg_map::ArgMap;
pub use dispatch::{dispatch_parts_from_methods, DispatchPlan};
pub use docs::{
    attr_requests_default, extract_doc_comments, extract_func_description,
    extract_param_description, param_flag_names,
};
pub use error::AppEntryError;
pub use help::{appentry_help_text, help_is_renderable, program_name};
pub use info::{AppEntryMethod, ArgInfo, FunctionInfo};
pub use parse::{is_vec_string_arg, parse_bare_method_args, parse_flag_method_args, parse_method_args};
pub use select::{method_matches_flag, selection_is_ambiguous, VecFunctionInfoExt};
pub use values::{get_arg_from_name, get_vec_arg_from_name, ArgValue};
