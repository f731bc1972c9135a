//! Generation of a single-page documentation site from a directory of
//! markdown documents: page modules, routes, navigation and the entry module.

pub mod text;
pub mod route;
pub mod template;
pub mod page;
pub mod lang;
pub mod discovery;
pub mod config;
pub mod assemble;
