pub mod text;
pub mod depth_sort;
pub mod border;
pub mod texture;
pub mod composer;
pub mod history;
pub mod navigation;
pub mod outline;
pub mod viewport;
pub mod types;
pub mod object;
pub mod cache;
pub mod text_layout;
pub mod ui_cells;
pub mod transforms;
