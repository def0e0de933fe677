pub mod text;
pub mod paths;
pub mod sys;
pub mod releases;
pub mod repo_meta;
pub mod zip_import;
pub mod clone;
pub mod remote_update;
pub mod db;
pub mod hub;
pub mod db_open;
pub mod migrate;
