//! The docs.json schema: documentation entries, their bodies and the
//! function, type, category, group and symbol definitions they hold.

use vstd::prelude::*;
use crate::json::{JsonTree, JsonValue};
use crate::route::{has_parent_component, has_parent_dir, is_rooted, is_rooted_path};
use crate::text::chars_of;

verus! {

/// A documentation page or section; children nest.
#[derive(Debug)]
pub struct DocsEntry {
    /// Route path (e.g. `/DOCS-BASE/tutorial/writing-in-typst/`).
    pub route: String,
    /// Human-readable title.
    pub title: String,
    pub description: Option<String>,
    pub part: Option<String>,
    /// Table of contents.
    pub outline: Vec<OutlineItem>,
    pub body: Option<Body>,
    pub children: Vec<DocsEntry>,
    /// Members that the schema does not name.
    pub extra: Vec<(String, JsonValue)>,
}

/// A page body: its kind, its JSON content, and the content read as the
/// definition that its kind names.
#[derive(Debug)]
pub struct Body {
    /// Content type (`html`, `func`, `type`, `category`, `group`, `symbols`).
    pub kind: String,
    /// The content as it stands in docs.json.
    pub content: JsonValue,
    /// The content read as the definition its kind names.
    pub definition: Definition,
}

/// A body's content read according to its kind.
#[derive(Debug)]
pub enum Definition {
    Func(FuncContent),
    Type(TypeContent),
    Category(CategoryContent),
    Group(GroupContent),
    Symbols(SymbolsContent),
    /// The content does not have the shape its kind names: the reader's message.
    Invalid(String),
    /// The kind names no definition (`html` and unknown kinds).
    Unread,
}

/// A body whose definition is what its kind names: a definition of that kind
/// or the reader's message for `func`, `type`, `category`, `group` and
/// `symbols`; nothing for other kinds.
pub open spec fn body_consistent(b: Body) -> bool {
    let k = b.kind@;
    if k == "func"@ {
        b.definition is Func || b.definition is Invalid
    } else if k == "type"@ {
        b.definition is Type || b.definition is Invalid
    } else if k == "category"@ {
        b.definition is Category || b.definition is Invalid
    } else if k == "group"@ {
        b.definition is Group || b.definition is Invalid
    } else if k == "symbols"@ {
        b.definition is Symbols || b.definition is Invalid
    } else {
        b.definition is Unread
    }
}

/// Table of contents item.
#[derive(Debug)]
pub struct OutlineItem {
    pub id: String,
    pub name: String,
    pub children: Vec<OutlineItem>,
}

/// A function or element definition.
#[derive(Debug)]
pub struct FuncContent {
    /// Module path (e.g. `["array"]`).
    pub path: Vec<String>,
    pub name: String,
    pub title: String,
    pub keywords: Vec<String>,
    /// One-line description.
    pub oneliner: Option<String>,
    /// Whether it produces content.
    pub element: bool,
    pub contextual: bool,
    /// HTML documentation: a string or a list of detail objects.
    pub details: Option<JsonValue>,
    /// Code example: a string or a list of detail objects.
    pub example: Option<JsonValue>,
    /// Whether it is a method (has `self`).
    pub is_self: bool,
    pub params: Vec<ParamContent>,
    /// Names of the returned types.
    pub returns: Vec<String>,
    /// Nested functions and methods.
    pub scope: Vec<FuncContent>,
}

/// A parameter of a function.
#[derive(Debug)]
pub struct ParamContent {
    pub name: String,
    pub details: Option<JsonValue>,
    pub example: Option<JsonValue>,
    /// Allowed types.
    pub types: Vec<String>,
    /// Enumerated string values.
    pub strings: Vec<JsonValue>,
    pub default: Option<JsonValue>,
    pub positional: bool,
    pub named: bool,
    pub required: bool,
    pub variadic: bool,
    pub settable: bool,
}

/// A type definition.
#[derive(Debug)]
pub struct TypeContent {
    pub name: String,
    pub title: String,
    pub oneliner: Option<String>,
    pub keywords: Vec<String>,
    pub details: Option<JsonValue>,
    pub constructor: Option<FuncContent>,
    /// Methods and properties.
    pub scope: Vec<FuncContent>,
    pub extra: Vec<(String, JsonValue)>,
}

/// An index page grouping related items.
#[derive(Debug)]
pub struct CategoryContent {
    pub name: String,
    pub title: String,
    pub details: Option<JsonValue>,
    pub items: Vec<CategoryItem>,
    pub extra: Vec<(String, JsonValue)>,
}

/// An item of a category listing.
#[derive(Debug)]
pub struct CategoryItem {
    pub name: String,
    pub route: String,
    pub oneliner: Option<String>,
    /// Whether to show the name as code.
    pub code: bool,
}

/// Functions grouped within a module.
#[derive(Debug)]
pub struct GroupContent {
    pub name: String,
    pub title: String,
    pub details: Option<JsonValue>,
    pub functions: Vec<FuncContent>,
    pub extra: Vec<(String, JsonValue)>,
}

/// A listing of symbols.
#[derive(Debug)]
pub struct SymbolsContent {
    pub name: String,
    pub title: String,
    pub details: Option<JsonValue>,
    pub list: Vec<SymbolItem>,
    pub extra: Vec<(String, JsonValue)>,
}

/// A symbol of a listing.
#[derive(Debug)]
pub struct SymbolItem {
    pub name: String,
    /// The symbol itself.
    pub value: Option<String>,
    /// Its Unicode code point.
    pub codepoint: Option<u32>,
    pub accent: bool,
    pub alternates: Vec<String>,
    /// Shorthand in markup mode.
    pub markup_shorthand: Option<String>,
    /// Shorthand in math mode.
    pub math_shorthand: Option<String>,
    pub extra: Vec<(String, JsonValue)>,
}

/// Schema validation errors.
#[derive(Debug)]
pub enum SchemaError {
    MissingRoute,
    MissingTitle,
    /// Absolute or rooted path not allowed.
    AbsolutePath(String),
    /// Path traversal (`..`) not allowed.
    PathTraversal(String),
    /// JSON parse error.
    ParseError(String),
    /// Invalid content type.
    InvalidContentType(String),
}

impl Body {
    /// The content is an HTML string.
    pub fn is_html(&self) -> (r: bool)
        ensures
            r == (self.content@ is Str),
    {
        match &self.content {
            JsonValue::Str(_) => true,
            _ => false,
        }
    }

    /// The content is a definition object.
    pub fn is_definition(&self) -> (r: bool)
        ensures
            r == (self.content@ is Object),
    {
        match &self.content {
            JsonValue::Object(_) => true,
            _ => false,
        }
    }

    /// The content as an HTML string.
    pub fn as_html(&self) -> (r: Result<&str, SchemaError>)
        ensures
            match self.content@ {
                JsonTree::Str(s) => r matches Ok(h) && h@ == s,
                _ => r matches Err(SchemaError::InvalidContentType(m)) && m@ == "Expected HTML string"@,
            },
    {
        match &self.content {
            JsonValue::Str(s) => Ok(s.as_str()),
            _ => Err(SchemaError::InvalidContentType(String::from_str("Expected HTML string"))),
        }
    }
}

impl DocsEntry {
    /// Checks the entry: route and title are present, and the route is
    /// neither absolute nor rooted and has no `..` component.
    pub fn validate(&self) -> (r: Result<(), SchemaError>)
        ensures
            self.route@.len() == 0 ==> r matches Err(SchemaError::MissingRoute),
            self.route@.len() > 0 && self.title@.len() == 0 ==> r matches Err(SchemaError::MissingTitle),
            self.route@.len() > 0 && self.title@.len() > 0 && is_rooted(self.route@) ==> (r matches Err(
                SchemaError::AbsolutePath(p),
            ) && p@ == self.route@),
            self.route@.len() > 0 && self.title@.len() > 0 && !is_rooted(self.route@) && has_parent_component(
                self.route@,
            ) ==> (r matches Err(SchemaError::PathTraversal(p)) && p@ == self.route@),
            r is Ok <==> (self.route@.len() > 0 && self.title@.len() > 0 && !is_rooted(self.route@)
                && !has_parent_component(self.route@)),
    {
        let route = chars_of(self.route.as_str());
        if route.len() == 0 {
            return Err(SchemaError::MissingRoute);
        }
        let title = chars_of(self.title.as_str());
        if title.len() == 0 {
            return Err(SchemaError::MissingTitle);
        }
        if is_rooted_path(&route) {
            return Err(SchemaError::AbsolutePath(self.route.clone()));
        }
        if has_parent_dir(&route) {
            return Err(SchemaError::PathTraversal(self.route.clone()));
        }
        Ok(())
    }
}

} // verus!
