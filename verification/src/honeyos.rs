pub mod fs;
pub mod fs_laws;
pub mod fs_spec;
pub mod vga_buffer;
