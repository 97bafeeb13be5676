//! Common imports for hosts of the styling engine.

pub use crate::component::{Class, StyleSheet};
pub use crate::stylesheet::StyleSheetAsset;
pub use crate::EcssPlugin;
