pub mod ids;
pub mod connectivity_info;
pub mod mesh;
pub mod traversal;
pub mod editing;
pub mod components;
pub mod laws;
