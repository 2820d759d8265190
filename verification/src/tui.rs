//! What the browsing interface computes before it draws: the filter, the
//! data it keeps, the listing, the statistics and the description of one
//! movie.

pub mod app;
pub mod filter_view;
pub mod info_view;
pub mod list_view;
pub mod stats_view;
pub mod text;
pub mod user_data;
