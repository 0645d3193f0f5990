//! Dependency resolution and acquisition planning for game-server mods.

pub mod acquire;
pub mod app;
pub mod catalog;
pub mod constraint;
pub mod dependency;
pub mod downloader;
pub mod event;
pub mod fml_config;
pub mod handler;
pub mod install;
pub mod install_mod_list;
pub mod installed;
pub mod list_state;
pub mod manage_mod_list;
pub mod markdown;
pub mod mod_list;
pub mod mods_config;
pub mod navigation;
pub mod records;
pub mod registry;
pub mod resolver;
pub mod settings;
pub mod sha1;
pub mod text;
pub mod version;
