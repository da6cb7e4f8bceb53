pub mod api;
pub mod launch;
pub mod launch_flow;
pub mod parse;
pub mod pick;
pub mod registry;
pub mod text;
pub mod toml_doc;
