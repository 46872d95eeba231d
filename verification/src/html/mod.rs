//! Static gallery pages for browsing the organized tree: one page per
//! directory, rebuilt from the destination layout alone.
pub mod builder;
pub mod utils;

pub use self::builder::build_html;
pub use self::utils::get_date_from_path;
pub use self::utils::is_image;
