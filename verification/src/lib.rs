//! The verified core of an offline spectral renderer.
//!
//! The renderer's numerics run on IEEE-754 floating point and live with its
//! callers.  What is kept here are the rules that decide *what* is computed:
//! how an image is cut into tiles and handed to workers, which of several hits
//! a ray keeps, how a material continues or ends a light path, how a display
//! colour is split over the basis spectra, and how bounding boxes combine.
//!
//! Wherever one of these rules has to compare real numbers, the numbers are
//! taken by rank (see [`geometry::Scalar`]): a signed 64-bit integer ordered
//! as the number it stands for.  Colours and other values that a rule only
//! passes along are type parameters.
pub mod auxiliar;
pub mod geometry;
pub mod integrators;
pub mod material;
pub mod parallel;
pub mod scene;
pub mod spectrum;
pub mod tiles;
