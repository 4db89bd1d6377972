pub mod commands;
pub mod context;
pub mod editor;
pub mod history;
pub mod keys;
pub mod label;
pub mod prompts;
pub mod readline;
pub mod selector;
pub mod text;
