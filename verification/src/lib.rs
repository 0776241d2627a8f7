//! Scrapes (id, title) pairs of videos out of the script blob embedded in a
//! search-results page: locates the blob with fallback markers, bounds it,
//! parses the JSON-like text, and walks a fixed path to the results list.

pub mod extract;
pub mod json;
pub mod path;
pub mod query;
pub mod text;
