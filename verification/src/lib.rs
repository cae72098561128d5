//! Verified core of the Umbriel configurator: the settings catalog and
//! page layout, the saved-state bookkeeping of the include chain, the text
//! rules of the editors, the keybind editor's and the shader page's
//! decisions, the update check's decisions and the shader preview's pixel
//! work.

pub mod text;
pub mod update;
pub mod stamp;
pub mod values;
pub mod catalog;
pub mod page_cards;
pub mod common;
pub mod keys;
pub mod sections;
pub mod nav;
pub mod shaders;
pub mod guide;
pub mod rules;
pub mod outputs;
pub mod monitors;
pub mod rows;
pub mod row_state;
pub mod search;
pub mod shader_preview;
pub mod settings;
pub mod save;
pub mod keybinds;
pub mod keybind_rows;
pub mod bind_editor;
pub mod backups;
