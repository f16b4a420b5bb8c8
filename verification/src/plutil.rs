pub mod args;
pub mod base64;
pub mod codegen;
pub mod json;
pub mod json_write;
pub mod keypath;
pub mod laws;
pub mod make;
pub mod natural;
pub mod paths;
pub mod process;
pub mod run;
pub mod show;
