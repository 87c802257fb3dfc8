//! Terminal UI core: styled lines and their ANSI form, display-width
//! utilities, an in-memory terminal grid, the differential frame renderer,
//! and the host's decisions: key handling while busy or idle, the bash and
//! external-editor steps, session forks, link health, and a scripted agent
//! driver.

pub mod text;
pub mod unicode;
pub mod style;
pub mod csi;
pub mod virtual_terminal;
pub mod link_grace;
pub mod outcome;
pub mod host;
pub mod bang;
pub mod fork;
pub mod reload;
pub mod pending_ui;
pub mod slash;
pub mod editor;
pub mod width;
pub mod render;
pub mod driver;
pub mod keybindings;
pub mod replay;
pub mod marker;
pub mod frames;
pub mod readback;
pub mod noclear;
