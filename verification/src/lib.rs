//! Turns packaged visual-template bundles into annotated template documents.
//!
//! A bundle is a zip archive with an HTML document, a stylesheet and images.
//! Formatting unpacks it, marks the images and the text blocks of the
//! document's body as slots that a downstream editor can fill, and puts the
//! styles before the body. Compressing packs a formatted folder again, and
//! uploading sends an archive to the template service.
//!
//! The library decides and computes; it touches neither disk nor network.
//! Its caller reads what is needed, hands it in as plain values, and carries
//! out what comes back.
//!
//! - `annotate`: the annotation engine.
//! - `dom`: the document tree, and the calls into `scraper` that fill it.
//! - `ziper`: the archive engine, and the calls into `zip`.
//! - `disk`: a model of the directory tree, for what unpacking leaves behind.
//! - `http`: the upload client's decisions.
//! - `sisyphus`: the pipeline that ties them together.
//! - `paths`, `text`: paths and texts by their characters.
//! - `args`, `consts`, `errors`: settings, fixed texts, failures.

pub mod annotate;
pub mod args;
pub mod consts;
pub mod disk;
pub mod dom;
pub mod errors;
pub mod http;
pub mod paths;
pub mod sisyphus;
pub mod text;
pub mod ziper;
