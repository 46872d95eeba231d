//! The video-aware variant of the gallery: videos are shown through
//! generated thumbnails and marked for the page script.
pub mod builder;
pub mod utils;

pub use self::builder::build_html;
pub use self::utils::is_video;
