//! Fixed texts: the marker attributes, the upload endpoint, the reset stylesheet.

use vstd::prelude::*;

verus! {

/// The attribute that names the kind of a slot.
pub const TEMPLATE_ATTR: &'static str = "data-template";

/// The attribute that holds the placeholder label of a slot.
pub const TITLE_ATTR: &'static str = "data-title";

/// The kind of an image slot.
pub const IMAGE_KIND: &'static str = "img";

/// The label of an image slot.
pub const IMAGE_TITLE: &'static str = "图片";

/// The kind of a text slot.
pub const TEXT_KIND: &'static str = "text";

/// The label of a text slot.
pub const TEXT_TITLE: &'static str = "待替换";

/// Where uploads go unless another base URL is configured.
pub const BASE_URL: &'static str = "http://183.162.254.169:8086/";

/// The endpoint under the base URL that takes an upload.
pub const UPLOAD_PATH: &'static str = "admin/Apitemplategrapic/add";

/// The code by which the service reports success.
pub const OK_CODE: &'static str = "200";

/// What separates the segments of an archive's file name.
pub const SEGMENT_BREAK: &'static str = "_";

/// The suffix of an archive's file name.
pub const ZIP_SUFFIX: &'static str = ".zip";

/// The name of the folder that compress mode writes to and never packs.
pub const OUTPUT_DIR: &'static str = "output";

/// The document of a bundle.
pub const INDEX_FILE: &'static str = "index.html";

/// The stylesheet of a bundle.
pub const STYLE_FILE: &'static str = "style.css";

/// The document that format mode writes.
pub const TEMPLATE_FILE: &'static str = "template.html";

/// The preview image of a formatted bundle.
pub const THUMB_FILE: &'static str = "thumb.jpg";

/// What separates a file name from its extension.
pub const EXTENSION_BREAK: &'static str = ".";

/// The extension of the image that may lie beside an archive.
pub const THUMB_EXTENSION: &'static str = "jpg";

/// The permission bits of every entry written to an archive.
pub const ENTRY_MODE: u32 = 0o755;

/// The stylesheet that follows a template's own styles.
pub const RESET_CSS: &'static str = "html, body {\n  margin: 0;\n  padding: 0;\n}\n* {\n  box-sizing: border-box;\n}\nimg {\n  border: 0;\n  max-width: 100%;\n}";

/// What opens the style block of a template.
pub const STYLE_OPEN: &'static str = "<style>";

/// What closes the style block of a template.
pub const STYLE_CLOSE: &'static str = "</style>";

/// The line break between the parts of a template.
pub const LINE_BREAK: &'static str = "\n";

/// The selector of the element whose subtree is annotated.
pub const BODY_SELECTOR: &'static str = "body";

/// The selector of the elements that become image slots.
pub const IMAGE_SELECTOR: &'static str = "img";

} // verus!
