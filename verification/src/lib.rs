//! Rewrites fenced chart-configuration blocks in documentation text into
//! self-contained HTML snippets that invoke a chart-rendering script.

pub mod chart;
pub mod extract;
pub mod render;
pub mod textops;

pub use chart::gen;
pub use chart::Chart;
pub use chart::MdFile;
pub use chart::MdGroup;
pub use extract::extract;
pub use extract::BlockSpan;
pub use render::gen_html;
pub use textops::find_sub;
pub use textops::replace_all;
pub use textops::replace_first;
