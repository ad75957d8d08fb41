pub mod batch;
pub mod behavior;
pub mod brush;
pub mod entity;
pub mod geom;
pub mod material;
pub mod mesh;
pub mod props;
pub mod text;
pub mod texture;
