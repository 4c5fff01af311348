pub mod config;
pub mod footer;
pub mod git;
pub mod gitignore;
pub mod history;
pub mod keyboard;
pub mod navigation;
pub mod repo;
pub mod search;
pub mod shell_env;
pub mod shortcuts;
pub mod sidebar;
pub mod sidebar_view;
pub mod state;
pub mod text;
pub mod tree;
pub mod update;
pub mod views;
pub mod watch;
