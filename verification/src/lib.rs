pub mod model;
pub mod paths;
pub mod registry;
pub mod render;
pub mod codec;
pub mod debounce;
pub mod encoding;
pub mod merge;
pub mod protocol;
pub mod scan;
