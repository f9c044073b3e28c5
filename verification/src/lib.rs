//! Building blocks of a labelled image dataset: the ledger of images to
//! fetch and the bookkeeping of an acquisition run, the features measured on
//! each archived image, and the table they fill.

pub mod color_cluster;
pub mod download;
pub mod extraction;
pub mod features;
pub mod progress;
pub mod raster;
pub mod text;

pub use progress::Progress;
