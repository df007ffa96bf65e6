//! Density-field to triangle-mesh conversion.
//!
//! A scalar density field (typically the luminance or alpha channel of an
//! image) is turned into a sparse 2D triangle mesh: few triangles where the
//! field is flat, many where it changes quickly. The pipeline places points
//! greedily by steepness, triangulates them, filters invisible triangles,
//! optionally extrudes a skirt around the outline, and finally prunes unused
//! points. A resumable generator exposes the pipeline step by step, and a
//! live mesh patches rectangular regions of an existing mesh without a full
//! rebuild.
//!
//! All scalar quantities are exact integers: densities are numerators over
//! 255, steepness values numerators over 3060, and coordinates, separations
//! and thresholds fixed-point values in thousandths (milli-units).

pub mod coord;
pub mod generator;
pub mod image_settings;
pub mod live;
pub mod map;
pub mod mesh;
pub mod process_status;
pub mod scalar;
pub mod settings;
pub mod triangle;
pub mod utils;

pub use coord::Coord;
pub use generator::DensityMeshGenerator;
pub use image_settings::{GenerateDensityImageSettings, ImageDensitySource};
pub use live::{LiveDensityMesh, LiveProcessStatus};
pub use map::{DensityMap, DensityMapError};
pub use mesh::{DensityMesh, GenerateDensityMeshError};
pub use process_status::ProcessStatus;
pub use settings::{GenerateDensityMeshSettings, PointsSeparation};
pub use triangle::Triangle;
