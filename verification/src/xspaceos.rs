pub mod fs;
pub mod editor_laws;
pub mod fs_laws;
pub mod keyboard;
pub mod layout;
pub mod screen_laws;
pub mod screens;
pub mod shell;
