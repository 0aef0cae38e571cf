//! Converts chat sessions into self-contained HTML transcripts.
pub mod ansi;
pub mod assets;
pub mod dates;
pub mod descriptions;
pub mod filename;
pub mod highlight;
pub mod html;
pub mod index;
pub mod json;
pub mod markdown;
pub mod message;
pub mod page;
pub mod parameters;
pub mod paths;
pub mod run;
pub mod selection;
pub mod session;
pub mod text;
pub mod tokens;
pub mod tool_args;
pub mod tools;
pub mod tools_reference;
pub mod transcript;
