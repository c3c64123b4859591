//! Serves a directory tree of HTML fragments as a site: a request names a
//! file under a root directory, a missing extension is made up for by
//! `.html`, a page is wrapped in a template, and a directory is answered with
//! a listing. No path leads out of the root.
//!
//! The library decides; it does no input or output. See [`routes`] for how a
//! request is served.

pub mod error;
pub mod listing;
pub mod paths;
pub mod response;
pub mod routes;
pub mod template;
pub mod text;

pub use error::{ConfigurationError, ServeError};
pub use listing::{directory_listing, Child, ListingEntry};
pub use paths::{relative_path, RootContext};
pub use response::{not_found, serve_style_css, ContentType, Response, Status};
pub use routes::{Action, EntryKind, Event, RequestHandler, State};
pub use template::{fill_template, get_footer, get_header, Template};
