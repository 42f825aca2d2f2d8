pub mod adr;
pub mod cli;
pub mod config;
pub mod forge;
pub mod forge_hook;
pub mod ai;
pub mod format;
pub mod frontmatter;
pub mod history;
pub mod links;
pub mod lint;
pub mod naming;
pub mod paths;
pub mod publish;
pub mod query;
pub mod store;
pub mod template;
pub mod text;
