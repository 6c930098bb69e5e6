//! Diff output flavors (Rust, JSON, XML).
//!
//! Each flavor knows how to present struct fields and how to write the syntax
//! of its format around already-formatted values.

use vstd::prelude::*;
use vstd::string::*;

use crate::text::{concat2, concat3};

verus! {

/// How a field should be presented in the diff output.
#[derive(Debug, PartialEq, Eq)]
pub enum FieldPresentation {
    /// Show as an inline attribute/field on the struct line.
    /// - Rust: `x: 10`
    /// - JSON: `"x": 10`
    /// - XML: `x="10"` (as attribute on opening tag)
    Attribute {
        /// The field name (possibly renamed)
        name: String,
    },
    /// Show as a nested child element.
    /// - XML: `<title>...</title>` as child element
    Child {
        /// The element/field name
        name: String,
    },
    /// Show as text content inside the parent.
    /// - XML: `<p>this text</p>`
    TextContent,
    /// Show as multiple child elements (for sequences).
    /// - XML: `<Item/><Item/>` as siblings
    Children {
        /// The name for each item element
        item_name: String,
    },
}

/// What a flavor reads of a struct field: its name and the XML markers it carries
/// (`xml::attribute`, `xml::elements`, `xml::text`, `xml::element`).
#[derive(Debug, Clone, Copy)]
pub struct FieldInfo {
    /// The field's name
    pub name: &'static str,
    /// The field is marked as an XML attribute
    pub xml_attribute: bool,
    /// The field is marked as a list of XML child elements
    pub xml_elements: bool,
    /// The field is marked as XML text content
    pub xml_text: bool,
    /// The field is marked as an XML child element
    pub xml_element: bool,
}

/// The kind of presentation, with the name it carries.
pub open spec fn presentation_model(p: FieldPresentation) -> (int, Seq<char>) {
    match p {
        FieldPresentation::Attribute { name } => (0, name@),
        FieldPresentation::Child { name } => (1, name@),
        FieldPresentation::TextContent => (2, Seq::empty()),
        FieldPresentation::Children { item_name } => (3, item_name@),
    }
}

/// A diff output flavor that knows how to present fields and write the
/// syntax around formatted values.
pub trait DiffFlavor {
    /// Opening syntax for a struct/object.
    spec fn spec_struct_open(&self, name: Seq<char>) -> Seq<char>;
    /// Closing syntax for a struct/object.
    spec fn spec_struct_close(&self, name: Seq<char>, self_closing: bool) -> Seq<char>;
    /// Separator between fields.
    spec fn spec_field_separator(&self) -> Seq<char>;
    /// Trailing separator at the end of a line of fields.
    spec fn spec_trailing_separator(&self) -> Seq<char>;
    /// Opening syntax for a sequence.
    spec fn spec_seq_open(&self) -> Seq<char>;
    /// Closing syntax for a sequence.
    spec fn spec_seq_close(&self) -> Seq<char>;
    /// Separator between sequence items.
    spec fn spec_item_separator(&self) -> Seq<char>;
    /// A sequence item, possibly wrapped.
    spec fn spec_format_seq_item(&self, item_type: Seq<char>, value: Seq<char>) -> Seq<char>;
    /// Opening for a sequence that is a struct field value.
    spec fn spec_format_seq_field_open(&self, field_name: Seq<char>) -> Seq<char>;
    /// Closing for a sequence that is a struct field value.
    spec fn spec_format_seq_field_close(&self, field_name: Seq<char>) -> Seq<char>;
    /// A comment.
    spec fn spec_comment(&self, text: Seq<char>) -> Seq<char>;
    /// A field assignment.
    spec fn spec_format_field(&self, name: Seq<char>, value: Seq<char>) -> Seq<char>;
    /// A field name with its assignment operator.
    spec fn spec_format_field_prefix(&self, name: Seq<char>) -> Seq<char>;
    /// The suffix after a field's value.
    spec fn spec_format_field_suffix(&self) -> Seq<char>;
    /// What closes an opening tag that has children.
    spec fn spec_struct_open_close(&self) -> Seq<char>;
    /// A type comment after the struct opening, if any.
    spec fn spec_type_comment(&self, name: Seq<char>) -> Option<Seq<char>>;
    /// Opening wrapper for a nested struct field.
    spec fn spec_format_child_open(&self, name: Seq<char>) -> Seq<char>;
    /// Closing wrapper for a nested struct field.
    spec fn spec_format_child_close(&self, name: Seq<char>) -> Seq<char>;
    /// How a field is presented.
    spec fn spec_field_presentation(&self, field: FieldInfo) -> (int, Seq<char>);

    /// Determine how a field should be presented.
    fn field_presentation(&self, field: &FieldInfo) -> (r: FieldPresentation)
        ensures
            presentation_model(r) == self.spec_field_presentation(*field);

    /// Opening syntax for a struct/object.
    /// - Rust: `Point {`
    /// - JSON: `{`
    /// - XML: `<Point`
    fn struct_open(&self, name: &str) -> (r: String)
        ensures
            r@ == self.spec_struct_open(name@);

    /// Closing syntax for a struct/object.
    /// - Rust: `}`
    /// - JSON: `}`
    /// - XML: `/>` (self-closing) or `</Point>`
    fn struct_close(&self, name: &str, self_closing: bool) -> (r: String)
        ensures
            r@ == self.spec_struct_close(name@, self_closing);

    /// Separator between fields.
    /// - Rust: `, `
    /// - JSON: `, `
    /// - XML: ` ` (space between attributes)
    fn field_separator(&self) -> (r: &'static str)
        ensures
            r@ == self.spec_field_separator();

    /// Trailing comma/separator (no trailing space).
    /// - Rust: `,`
    /// - JSON: `,`
    /// - XML: `` (empty - no trailing separator)
    fn trailing_separator(&self) -> (r: &'static str)
        ensures
            r@ == self.spec_trailing_separator();

    /// Opening syntax for a sequence/array.
    fn seq_open(&self) -> (r: String)
        ensures
            r@ == self.spec_seq_open();

    /// Closing syntax for a sequence/array.
    fn seq_close(&self) -> (r: String)
        ensures
            r@ == self.spec_seq_close();

    /// Separator between sequence items.
    fn item_separator(&self) -> (r: &'static str)
        ensures
            r@ == self.spec_item_separator();

    /// Format a sequence item value, optionally wrapping in element tags.
    /// - Rust: `0` (no wrapping)
    /// - JSON: `0` (no wrapping)
    /// - XML: `<i32>0</i32>` (wrapped in element)
    fn format_seq_item(&self, item_type: &str, value: &str) -> (r: String)
        ensures
            r@ == self.spec_format_seq_item(item_type@, value@);

    /// Opening for a sequence that is a struct field value.
    /// - Rust: `fieldname: [`
    /// - JSON: `"fieldname": [`
    /// - XML: `` (items render directly)
    fn format_seq_field_open(&self, field_name: &str) -> (r: String)
        ensures
            r@ == self.spec_format_seq_field_open(field_name@);

    /// Closing for a sequence that is a struct field value.
    fn format_seq_field_close(&self, field_name: &str) -> (r: String)
        ensures
            r@ == self.spec_format_seq_field_close(field_name@);

    /// Format a comment (for collapsed items).
    /// - Rust: `/* ...5 more */`
    /// - JSON: `// ...5 more`
    /// - XML: `<!-- ...5 more -->`
    fn comment(&self, text: &str) -> (r: String)
        ensures
            r@ == self.spec_comment(text@);

    /// Format a field assignment (name and value).
    /// - Rust: `name: value`
    /// - JSON: `"name": value`
    /// - XML: `name="value"`
    fn format_field(&self, name: &str, value: &str) -> (r: String)
        ensures
            r@ == self.spec_format_field(name@, value@);

    /// Format just the field name with assignment operator.
    /// - Rust: `name: `
    /// - JSON: `"name": `
    /// - XML: `name="`
    fn format_field_prefix(&self, name: &str) -> (r: String)
        ensures
            r@ == self.spec_format_field_prefix(name@);

    /// Suffix after the value (if any).
    /// - Rust: `` (empty)
    /// - JSON: `` (empty)
    /// - XML: `"` (closing quote)
    fn format_field_suffix(&self) -> (r: &'static str)
        ensures
            r@ == self.spec_format_field_suffix();

    /// Close the opening tag when there are children.
    /// - Rust: `` (empty)
    /// - JSON: `` (empty)
    /// - XML: `>`
    fn struct_open_close(&self) -> (r: &'static str)
        ensures
            r@ == self.spec_struct_open_close();

    /// Optional type name comment to show after struct_open.
    /// - Rust: None (type name is in struct_open)
    /// - JSON: Some("/* Point */")
    /// - XML: None
    fn type_comment(&self, name: &str) -> (r: Option<String>)
        ensures
            r matches Some(c) ==> self.spec_type_comment(name@) == Some(c@),
            r is None ==> self.spec_type_comment(name@) is None;

    /// Opening wrapper for a child element (nested struct field).
    /// - Rust: `field_name: `
    /// - JSON: `"field_name": `
    /// - XML: `` (empty)
    fn format_child_open(&self, name: &str) -> (r: String)
        ensures
            r@ == self.spec_format_child_open(name@);

    /// Closing wrapper for a child element (nested struct field).
    fn format_child_close(&self, name: &str) -> (r: String)
        ensures
            r@ == self.spec_format_child_close(name@);

    /// How a scalar value is written.
    spec fn spec_format_value(&self, v: ScalarText) -> Seq<char>;

    /// Format a scalar value: Rust and JSON quote strings, XML writes them
    /// raw (the quotes come from the attribute syntax).
    fn format_value(&self, v: &ScalarText) -> (r: String)
        ensures
            r@ == self.spec_format_value(*v);
}

/// What a flavor reads of a scalar value to write it.
#[derive(Debug, Clone, PartialEq, Eq)]
pub enum ScalarText {
    /// A string (`str`, `String` or `&str`), as its characters
    Str(String),
    /// A boolean
    Bool(bool),
    /// A character
    Char(char),
    /// A dynamic value holding a string: its characters, and what the
    /// value's `Display` writes
    DynamicStr {
        /// The string's characters
        raw: String,
        /// The value as `Display` writes it
        display: String,
    },
    /// Any other value, as its `Display` writes it (or `Debug`, or the
    /// type's name in angle brackets when it has neither)
    Other(String),
}

/// A value with strings quoted (Rust and JSON): `"text"`, `true`, `'c'`.
pub open spec fn quoted_text(v: ScalarText) -> Seq<char> {
    match v {
        ScalarText::Str(s) => seq!['"'] + s@ + seq!['"'],
        ScalarText::Bool(b) => if b { seq!['t', 'r', 'u', 'e'] } else { seq!['f', 'a', 'l', 's', 'e'] },
        ScalarText::Char(c) => seq!['\'', c, '\''],
        ScalarText::DynamicStr { display, .. } => display@,
        ScalarText::Other(t) => t@,
    }
}

/// A value with strings raw (XML): `text`, `true`, `c`.
pub open spec fn raw_text(v: ScalarText) -> Seq<char> {
    match v {
        ScalarText::Str(s) => s@,
        ScalarText::Bool(b) => if b { seq!['t', 'r', 'u', 'e'] } else { seq!['f', 'a', 'l', 's', 'e'] },
        ScalarText::Char(c) => seq![c],
        ScalarText::DynamicStr { raw, .. } => raw@,
        ScalarText::Other(t) => t@,
    }
}

/// `true` or `false`.
fn bool_text(b: bool) -> (r: String)
    ensures
        r@ == (if b { seq!['t', 'r', 'u', 'e'] } else { seq!['f', 'a', 'l', 's', 'e'] }),
{
    proof {
        reveal_strlit("true");
        reveal_strlit("false");
    }
    if b { owned("true") } else { owned("false") }
}

/// Value formatting with quotes for strings (Rust/JSON style).
fn format_value_quoted(v: &ScalarText) -> (r: String)
    ensures
        r@ == quoted_text(*v),
{
    match v {
        // Strings: write with quotes
        ScalarText::Str(s) => {
            proof { reveal_strlit("\""); }
            concat3("\"", s.as_str(), "\"")
        },
        ScalarText::Bool(b) => bool_text(*b),
        // Chars: show with single quotes for Rust
        ScalarText::Char(c) => {
            let mut out = String::new();
            crate::std_calls::string_push(&mut out, '\'');
            crate::std_calls::string_push(&mut out, *c);
            crate::std_calls::string_push(&mut out, '\'');
            proof { assert(out@ =~= seq!['\'', *c, '\'']); }
            out
        },
        // Everything else: its Display text
        ScalarText::DynamicStr { display, .. } => owned(display.as_str()),
        ScalarText::Other(t) => owned(t.as_str()),
    }
}

/// Value formatting without quotes (XML style - quotes come from attribute syntax).
fn format_value_raw(v: &ScalarText) -> (r: String)
    ensures
        r@ == raw_text(*v),
{
    match v {
        // Strings: write raw content (no quotes)
        ScalarText::Str(s) => owned(s.as_str()),
        ScalarText::Bool(b) => bool_text(*b),
        // Chars: show as-is
        ScalarText::Char(c) => {
            let mut out = String::new();
            crate::std_calls::string_push(&mut out, *c);
            proof { assert(out@ =~= seq![*c]); }
            out
        },
        // Dynamic strings without quotes
        ScalarText::DynamicStr { raw, .. } => owned(raw.as_str()),
        ScalarText::Other(t) => owned(t.as_str()),
    }
}

/// Rust-style output flavor.
///
/// Produces output like: `Point { x: 10, y: 20 }`
#[derive(Debug, Clone, Copy, Default)]
pub struct RustFlavor;

/// JSON-style output flavor (JSONC with comments for type names).
#[derive(Debug, Clone, Copy, Default)]
pub struct JsonFlavor;

/// XML-style output flavor.
///
/// Produces output like: `<Point x="10" y="20"/>`
#[derive(Debug, Clone, Copy, Default)]
pub struct XmlFlavor;

/// `name: ` as Rust writes a field's start.
pub open spec fn rust_field_prefix(name: Seq<char>) -> Seq<char> {
    name + seq![':', ' ']
}

/// `"name": ` as JSON writes a field's start.
pub open spec fn json_field_prefix(name: Seq<char>) -> Seq<char> {
    seq!['"'] + name + seq!['"', ':', ' ']
}

/// `name="` as XML writes an attribute's start.
pub open spec fn xml_field_prefix(name: Seq<char>) -> Seq<char> {
    name + seq!['=', '"']
}

fn attribute_named(name: &'static str) -> (r: FieldPresentation)
    ensures
        presentation_model(r) == (0int, name@),
{
    FieldPresentation::Attribute { name: name.to_owned() }
}

fn rust_prefix(name: &str) -> (r: String)
    ensures
        r@ == rust_field_prefix(name@),
{
    proof { reveal_strlit(": "); }
    concat2(name, ": ")
}

fn json_prefix(name: &str) -> (r: String)
    ensures
        r@ == json_field_prefix(name@),
{
    proof { reveal_strlit("\""); reveal_strlit("\": "); }
    concat3("\"", name, "\": ")
}

fn xml_prefix(name: &str) -> (r: String)
    ensures
        r@ == xml_field_prefix(name@),
{
    proof { reveal_strlit("=\""); }
    concat2(name, "=\"")
}

fn empty_string() -> (r: String)
    ensures
        r@ == Seq::<char>::empty(),
{
    String::new()
}

fn owned(s: &str) -> (r: String)
    ensures
        r@ == s@,
{
    s.to_owned()
}

impl DiffFlavor for RustFlavor {
    open spec fn spec_struct_open(&self, name: Seq<char>) -> Seq<char> { name + seq![' ', '{'] }
    open spec fn spec_struct_close(&self, name: Seq<char>, self_closing: bool) -> Seq<char> { seq!['}'] }
    open spec fn spec_field_separator(&self) -> Seq<char> { seq![',', ' '] }
    open spec fn spec_trailing_separator(&self) -> Seq<char> { seq![','] }
    open spec fn spec_seq_open(&self) -> Seq<char> { seq!['['] }
    open spec fn spec_seq_close(&self) -> Seq<char> { seq![']'] }
    open spec fn spec_item_separator(&self) -> Seq<char> { seq![',', ' '] }
    open spec fn spec_format_seq_item(&self, item_type: Seq<char>, value: Seq<char>) -> Seq<char> { value }
    open spec fn spec_format_seq_field_open(&self, field_name: Seq<char>) -> Seq<char> {
        rust_field_prefix(field_name) + seq!['[']
    }
    open spec fn spec_format_seq_field_close(&self, field_name: Seq<char>) -> Seq<char> { seq![']'] }
    open spec fn spec_comment(&self, text: Seq<char>) -> Seq<char> { seq!['/', '*', ' '] + text + seq![' ', '*', '/'] }
    open spec fn spec_format_field(&self, name: Seq<char>, value: Seq<char>) -> Seq<char> {
        rust_field_prefix(name) + value
    }
    open spec fn spec_format_field_prefix(&self, name: Seq<char>) -> Seq<char> { rust_field_prefix(name) }
    open spec fn spec_format_field_suffix(&self) -> Seq<char> { Seq::empty() }
    open spec fn spec_struct_open_close(&self) -> Seq<char> { Seq::empty() }
    open spec fn spec_type_comment(&self, name: Seq<char>) -> Option<Seq<char>> { None }
    open spec fn spec_format_child_open(&self, name: Seq<char>) -> Seq<char> { rust_field_prefix(name) }
    open spec fn spec_format_child_close(&self, name: Seq<char>) -> Seq<char> { Seq::empty() }
    open spec fn spec_field_presentation(&self, field: FieldInfo) -> (int, Seq<char>) { (0, field.name@) }

    fn field_presentation(&self, field: &FieldInfo) -> (r: FieldPresentation) {
        // Rust flavor: all fields are attributes (key: value)
        attribute_named(field.name)
    }

    fn struct_open(&self, name: &str) -> (r: String) {
        proof { reveal_strlit(" {"); }
        concat2(name, " {")
    }

    fn struct_close(&self, name: &str, self_closing: bool) -> (r: String) {
        proof { reveal_strlit("}"); }
        owned("}")
    }

    fn field_separator(&self) -> (r: &'static str) {
        proof { reveal_strlit(", "); }
        ", "
    }

    fn trailing_separator(&self) -> (r: &'static str) {
        proof { reveal_strlit(","); }
        ","
    }

    fn seq_open(&self) -> (r: String) {
        proof { reveal_strlit("["); }
        owned("[")
    }

    fn seq_close(&self) -> (r: String) {
        proof { reveal_strlit("]"); }
        owned("]")
    }

    fn item_separator(&self) -> (r: &'static str) {
        proof { reveal_strlit(", "); }
        ", "
    }

    fn format_seq_item(&self, item_type: &str, value: &str) -> (r: String) {
        owned(value)
    }

    fn format_seq_field_open(&self, field_name: &str) -> (r: String) {
        let mut s = rust_prefix(field_name);
        proof { reveal_strlit("["); }
        s.append("[");
        s
    }

    fn format_seq_field_close(&self, field_name: &str) -> (r: String) {
        self.seq_close()
    }

    fn comment(&self, text: &str) -> (r: String) {
        proof { reveal_strlit("/* "); reveal_strlit(" */"); }
        concat3("/* ", text, " */")
    }

    fn format_field(&self, name: &str, value: &str) -> (r: String) {
        let mut s = rust_prefix(name);
        s.append(value);
        s
    }

    fn format_field_prefix(&self, name: &str) -> (r: String) {
        rust_prefix(name)
    }

    fn format_field_suffix(&self) -> (r: &'static str) {
        proof { reveal_strlit(""); }
        ""
    }

    fn struct_open_close(&self) -> (r: &'static str) {
        proof { reveal_strlit(""); }
        ""
    }

    fn type_comment(&self, name: &str) -> (r: Option<String>) {
        None
    }

    fn format_child_open(&self, name: &str) -> (r: String) {
        rust_prefix(name)
    }

    fn format_child_close(&self, name: &str) -> (r: String) {
        empty_string()
    }

    open spec fn spec_format_value(&self, v: ScalarText) -> Seq<char> {
        quoted_text(v)
    }

    fn format_value(&self, v: &ScalarText) -> (r: String) {
        format_value_quoted(v)
    }
}

impl DiffFlavor for JsonFlavor {
    open spec fn spec_struct_open(&self, name: Seq<char>) -> Seq<char> { seq!['{'] }
    open spec fn spec_struct_close(&self, name: Seq<char>, self_closing: bool) -> Seq<char> { seq!['}'] }
    open spec fn spec_field_separator(&self) -> Seq<char> { seq![',', ' '] }
    open spec fn spec_trailing_separator(&self) -> Seq<char> { seq![','] }
    open spec fn spec_seq_open(&self) -> Seq<char> { seq!['['] }
    open spec fn spec_seq_close(&self) -> Seq<char> { seq![']'] }
    open spec fn spec_item_separator(&self) -> Seq<char> { seq![','] }
    open spec fn spec_format_seq_item(&self, item_type: Seq<char>, value: Seq<char>) -> Seq<char> { value }
    open spec fn spec_format_seq_field_open(&self, field_name: Seq<char>) -> Seq<char> {
        json_field_prefix(field_name) + seq!['[']
    }
    open spec fn spec_format_seq_field_close(&self, field_name: Seq<char>) -> Seq<char> { seq![']'] }
    open spec fn spec_comment(&self, text: Seq<char>) -> Seq<char> { seq!['/', '/', ' '] + text }
    open spec fn spec_format_field(&self, name: Seq<char>, value: Seq<char>) -> Seq<char> {
        json_field_prefix(name) + value
    }
    open spec fn spec_format_field_prefix(&self, name: Seq<char>) -> Seq<char> { json_field_prefix(name) }
    open spec fn spec_format_field_suffix(&self) -> Seq<char> { Seq::empty() }
    open spec fn spec_struct_open_close(&self) -> Seq<char> { Seq::empty() }
    open spec fn spec_type_comment(&self, name: Seq<char>) -> Option<Seq<char>> {
        Some(seq!['/', '*', ' '] + name + seq![' ', '*', '/'])
    }
    open spec fn spec_format_child_open(&self, name: Seq<char>) -> Seq<char> { json_field_prefix(name) }
    open spec fn spec_format_child_close(&self, name: Seq<char>) -> Seq<char> { Seq::empty() }
    open spec fn spec_field_presentation(&self, field: FieldInfo) -> (int, Seq<char>) { (0, field.name@) }

    fn field_presentation(&self, field: &FieldInfo) -> (r: FieldPresentation) {
        // JSON flavor: all fields are attributes ("key": value)
        attribute_named(field.name)
    }

    fn struct_open(&self, name: &str) -> (r: String) {
        proof { reveal_strlit("{"); }
        owned("{")
    }

    fn struct_close(&self, name: &str, self_closing: bool) -> (r: String) {
        proof { reveal_strlit("}"); }
        owned("}")
    }

    fn field_separator(&self) -> (r: &'static str) {
        proof { reveal_strlit(", "); }
        ", "
    }

    fn trailing_separator(&self) -> (r: &'static str) {
        proof { reveal_strlit(","); }
        ","
    }

    fn seq_open(&self) -> (r: String) {
        proof { reveal_strlit("["); }
        owned("[")
    }

    fn seq_close(&self) -> (r: String) {
        proof { reveal_strlit("]"); }
        owned("]")
    }

    fn item_separator(&self) -> (r: &'static str) {
        proof { reveal_strlit(","); }
        ","
    }

    fn format_seq_item(&self, item_type: &str, value: &str) -> (r: String) {
        owned(value)
    }

    fn format_seq_field_open(&self, field_name: &str) -> (r: String) {
        let mut s = json_prefix(field_name);
        proof { reveal_strlit("["); }
        s.append("[");
        s
    }

    fn format_seq_field_close(&self, field_name: &str) -> (r: String) {
        self.seq_close()
    }

    fn comment(&self, text: &str) -> (r: String) {
        proof { reveal_strlit("// "); }
        concat2("// ", text)
    }

    fn format_field(&self, name: &str, value: &str) -> (r: String) {
        let mut s = json_prefix(name);
        s.append(value);
        s
    }

    fn format_field_prefix(&self, name: &str) -> (r: String) {
        json_prefix(name)
    }

    fn format_field_suffix(&self) -> (r: &'static str) {
        proof { reveal_strlit(""); }
        ""
    }

    fn struct_open_close(&self) -> (r: &'static str) {
        proof { reveal_strlit(""); }
        ""
    }

    fn type_comment(&self, name: &str) -> (r: Option<String>) {
        proof { reveal_strlit("/* "); reveal_strlit(" */"); }
        Some(concat3("/* ", name, " */"))
    }

    fn format_child_open(&self, name: &str) -> (r: String) {
        json_prefix(name)
    }

    fn format_child_close(&self, name: &str) -> (r: String) {
        empty_string()
    }

    open spec fn spec_format_value(&self, v: ScalarText) -> Seq<char> {
        quoted_text(v)
    }

    fn format_value(&self, v: &ScalarText) -> (r: String) {
        format_value_quoted(v)
    }
}

impl DiffFlavor for XmlFlavor {
    open spec fn spec_struct_open(&self, name: Seq<char>) -> Seq<char> { seq!['<'] + name }
    open spec fn spec_struct_close(&self, name: Seq<char>, self_closing: bool) -> Seq<char> {
        if self_closing { seq!['/', '>'] } else { seq!['<', '/'] + name + seq!['>'] }
    }
    open spec fn spec_field_separator(&self) -> Seq<char> { seq![' '] }
    open spec fn spec_trailing_separator(&self) -> Seq<char> { Seq::empty() }
    open spec fn spec_seq_open(&self) -> Seq<char> { Seq::empty() }
    open spec fn spec_seq_close(&self) -> Seq<char> { Seq::empty() }
    open spec fn spec_item_separator(&self) -> Seq<char> { seq![' '] }
    open spec fn spec_format_seq_item(&self, item_type: Seq<char>, value: Seq<char>) -> Seq<char> {
        seq!['<'] + item_type + seq!['>'] + value + seq!['<', '/'] + item_type + seq!['>']
    }
    open spec fn spec_format_seq_field_open(&self, field_name: Seq<char>) -> Seq<char> { Seq::empty() }
    open spec fn spec_format_seq_field_close(&self, field_name: Seq<char>) -> Seq<char> { Seq::empty() }
    open spec fn spec_comment(&self, text: Seq<char>) -> Seq<char> {
        seq!['<', '!', '-', '-', ' '] + text + seq![' ', '-', '-', '>']
    }
    open spec fn spec_format_field(&self, name: Seq<char>, value: Seq<char>) -> Seq<char> {
        xml_field_prefix(name) + value + seq!['"']
    }
    open spec fn spec_format_field_prefix(&self, name: Seq<char>) -> Seq<char> { xml_field_prefix(name) }
    open spec fn spec_format_field_suffix(&self) -> Seq<char> { seq!['"'] }
    open spec fn spec_struct_open_close(&self) -> Seq<char> { seq!['>'] }
    open spec fn spec_type_comment(&self, name: Seq<char>) -> Option<Seq<char>> { None }
    open spec fn spec_format_child_open(&self, name: Seq<char>) -> Seq<char> { Seq::empty() }
    open spec fn spec_format_child_close(&self, name: Seq<char>) -> Seq<char> { Seq::empty() }
    open spec fn spec_field_presentation(&self, field: FieldInfo) -> (int, Seq<char>) {
        if field.xml_attribute {
            (0, field.name@)
        } else if field.xml_elements {
            (3, field.name@)
        } else if field.xml_text {
            (2, Seq::empty())
        } else {
            (1, field.name@)
        }
    }

    fn field_presentation(&self, field: &FieldInfo) -> (r: FieldPresentation) {
        if field.xml_attribute {
            FieldPresentation::Attribute { name: field.name.to_owned() }
        } else if field.xml_elements {
            FieldPresentation::Children { item_name: field.name.to_owned() }
        } else if field.xml_text {
            FieldPresentation::TextContent
        } else if field.xml_element {
            FieldPresentation::Child { name: field.name.to_owned() }
        } else {
            // Default: fields without explicit annotation become child elements
            FieldPresentation::Child { name: field.name.to_owned() }
        }
    }

    fn struct_open(&self, name: &str) -> (r: String) {
        proof { reveal_strlit("<"); }
        concat2("<", name)
    }

    fn struct_close(&self, name: &str, self_closing: bool) -> (r: String) {
        if self_closing {
            proof { reveal_strlit("/>"); }
            owned("/>")
        } else {
            proof { reveal_strlit("</"); reveal_strlit(">"); }
            concat3("</", name, ">")
        }
    }

    fn field_separator(&self) -> (r: &'static str) {
        proof { reveal_strlit(" "); }
        " "
    }

    fn trailing_separator(&self) -> (r: &'static str) {
        // XML doesn't use trailing commas/separators
        proof { reveal_strlit(""); }
        ""
    }

    fn seq_open(&self) -> (r: String) {
        // XML sequences don't need wrapper elements - items render as siblings
        empty_string()
    }

    fn seq_close(&self) -> (r: String) {
        empty_string()
    }

    fn item_separator(&self) -> (r: &'static str) {
        proof { reveal_strlit(" "); }
        " "
    }

    fn format_seq_item(&self, item_type: &str, value: &str) -> (r: String) {
        // Wrap each item in an element tag: <i32>0</i32>
        proof { reveal_strlit("<"); reveal_strlit(">"); reveal_strlit("</"); }
        let mut s = concat3("<", item_type, ">");
        s.append(value);
        s.append("</");
        s.append(item_type);
        s.append(">");
        s
    }

    fn format_seq_field_open(&self, field_name: &str) -> (r: String) {
        empty_string()
    }

    fn format_seq_field_close(&self, field_name: &str) -> (r: String) {
        empty_string()
    }

    fn comment(&self, text: &str) -> (r: String) {
        proof { reveal_strlit("<!-- "); reveal_strlit(" -->"); }
        concat3("<!-- ", text, " -->")
    }

    fn format_field(&self, name: &str, value: &str) -> (r: String) {
        let mut s = xml_prefix(name);
        proof { reveal_strlit("\""); }
        s.append(value);
        s.append("\"");
        s
    }

    fn format_field_prefix(&self, name: &str) -> (r: String) {
        xml_prefix(name)
    }

    fn format_field_suffix(&self) -> (r: &'static str) {
        proof { reveal_strlit("\""); }
        "\""
    }

    fn struct_open_close(&self) -> (r: &'static str) {
        proof { reveal_strlit(">"); }
        ">"
    }

    fn type_comment(&self, name: &str) -> (r: Option<String>) {
        None
    }

    fn format_child_open(&self, name: &str) -> (r: String) {
        // XML: nested elements don't use attribute-style prefix
        empty_string()
    }

    fn format_child_close(&self, name: &str) -> (r: String) {
        empty_string()
    }

    open spec fn spec_format_value(&self, v: ScalarText) -> Seq<char> {
        raw_text(v)
    }

    fn format_value(&self, v: &ScalarText) -> (r: String) {
        format_value_raw(v)
    }
}

} // verus!
