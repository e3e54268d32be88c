//! What the mesh readers do between a file's parser and the mesh: the parsers
//! and the files themselves are the caller's business.

pub mod dae;
pub mod gltf;
pub mod obj;
pub mod stl;

pub use crate::readers::dae::DaeReader;
pub use crate::readers::gltf::GltfReader;
pub use crate::readers::obj::ObjReader;
pub use crate::readers::stl::StlReader;
