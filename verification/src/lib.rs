pub mod content;
pub mod fenwick;
pub mod interface_config;
pub mod lockstep;
pub mod modrinth;
pub mod nbt;
pub mod png_render;
pub mod text_order;
pub mod unique_bytes;
pub mod version_order;
pub mod versions;
pub mod window_queue;
