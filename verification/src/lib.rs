//! Core logic of a small Java version manager: the saved list of Java
//! installations, the shell start-up file edits that select one of them,
//! and the decisions of the interactive menus.

pub mod text;
pub mod env_variable;
pub mod config;
pub mod file_utils;
pub mod menu_command;
pub mod variation;
