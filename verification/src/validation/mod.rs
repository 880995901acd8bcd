pub mod windows;
pub mod summary;
pub mod sweep;
pub mod regime;
pub mod gates;
pub mod folds;
