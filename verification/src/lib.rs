pub mod text;
pub mod settings;
pub mod providers;
pub mod version;
pub mod reservoir;
pub mod digest;
pub mod order;
pub mod stable;
pub mod stream;
pub mod releases;
pub mod import;
pub mod project;
pub mod dam_toml;
pub mod regenerate;
pub mod update;
pub mod terminal;
pub mod paths;
pub mod session;
pub mod sync;
pub mod apply;
pub mod cli;
