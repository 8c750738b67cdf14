//! Gallery show: the logic of a picture browser, verified with Verus.
pub mod args;
pub mod direction;
pub mod display;
mod external;
pub mod navigator;
pub mod paths;
pub mod text;
pub mod order;
pub mod rank;
pub mod image_data;
pub mod entry;
pub mod entries;
pub mod sorting;
pub mod repository;
pub mod picture_io;
pub mod image;
pub mod ordering_laws;
