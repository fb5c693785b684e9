//! Linking, name resolution, template binding and incremental recompilation
//! for the SUS hardware description language.
pub mod arena;
pub mod compiler_top;
pub mod config;
pub mod errors;
pub mod file_position;
pub mod instantiation;
pub mod linker;
pub mod name_context;
pub mod namespace;
pub mod resolver;
pub mod syntax;
pub mod syntax_highlighting;
pub mod template;
