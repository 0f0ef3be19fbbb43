//! Aeris: the decisions behind a front end for package managers.

pub mod text;
pub mod paths;
pub mod xdg;
pub mod registry;
pub mod digest;
pub mod version;
pub mod table;
pub mod icons;
pub mod desktop;
pub mod privilege;
pub mod display;
pub mod assets;
pub mod output;
pub mod updates;
pub mod browse;
pub mod frame;
