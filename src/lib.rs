//! Writes HTML to a streaming sink, with guaranteed tag closure and
//! context-sensitive escaping, and interprets a small nested-tag template
//! language into content that the writer renders.
pub mod attributes;
pub mod env;
pub mod escapes;
pub mod tag;
pub mod content;
pub mod token;
pub mod parser;
pub mod literal;
pub mod generate;
pub mod html_trait;
pub mod tags;

pub use attributes::{Attribute, AttributeName, AttributeValue, Attributes, is_valid_attribute_name};
pub use env::{HtmlEnv, SinkEnv, TextSink, WriteError};
pub use escapes::{HtmlEscaper, StringEscaper};
pub use tag::{Compactability, InsideTagHtml, TagOpening};
pub use content::{Node, Tag};
pub use html_trait::{AsHtml, Doctype, Empty, Html, HtmlStr, HtmlTextStr, Sum, ToHtmlString};
pub use token::{Delimiter, Token};
pub use generate::{TemplateError, html};
pub use tags::{DefaultMeta, silent_tag, tag};
