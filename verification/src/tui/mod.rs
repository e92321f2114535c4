pub mod nav;
pub mod theme;
pub mod view;
