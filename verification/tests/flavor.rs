use rediff::layout::flavor::{DiffFlavor, FieldInfo, FieldPresentation, JsonFlavor, RustFlavor, ScalarText, XmlFlavor};

fn plain_field(name: &'static str) -> FieldInfo {
    FieldInfo { name, xml_attribute: false, xml_elements: false, xml_text: false, xml_element: false }
}

#[test]
fn test_rust_flavor_field_presentation() {
    let flavor = RustFlavor;
    let x_field = plain_field("x");
    let y_field = plain_field("y");

    // Rust flavor: all fields are attributes
    assert_eq!(flavor.field_presentation(&x_field), FieldPresentation::Attribute { name: "x".to_string() });
    assert_eq!(flavor.field_presentation(&y_field), FieldPresentation::Attribute { name: "y".to_string() });
}

#[test]
fn test_json_flavor_field_presentation() {
    let flavor = JsonFlavor;
    let x_field = plain_field("x");

    // JSON flavor: all fields are attributes
    assert_eq!(flavor.field_presentation(&x_field), FieldPresentation::Attribute { name: "x".to_string() });
}

#[test]
fn test_xml_flavor_field_presentation_default() {
    // Without XML attributes, fields default to Child
    let flavor = XmlFlavor;
    let title_field = plain_field("title");

    // XML default: child element
    assert_eq!(flavor.field_presentation(&title_field), FieldPresentation::Child { name: "title".to_string() });
}

#[test]
fn xml_flavor_field_markers() {
    let flavor = XmlFlavor;
    let attr = FieldInfo { name: "id", xml_attribute: true, xml_elements: false, xml_text: false, xml_element: false };
    assert_eq!(flavor.field_presentation(&attr), FieldPresentation::Attribute { name: "id".to_string() });
    let items = FieldInfo { name: "item", xml_attribute: false, xml_elements: true, xml_text: false, xml_element: false };
    assert_eq!(flavor.field_presentation(&items), FieldPresentation::Children { item_name: "item".to_string() });
    let text = FieldInfo { name: "body", xml_attribute: false, xml_elements: false, xml_text: true, xml_element: false };
    assert_eq!(flavor.field_presentation(&text), FieldPresentation::TextContent);
}

#[test]
fn test_syntax_methods() {
    let rust = RustFlavor;
    let json = JsonFlavor;
    let xml = XmlFlavor;

    // struct_open
    assert_eq!(rust.struct_open("Point"), "Point {");
    assert_eq!(json.struct_open("Point"), "{");
    assert_eq!(xml.struct_open("Point"), "<Point");

    // type_comment (rendered separately in muted color)
    assert_eq!(rust.type_comment("Point"), None);
    assert_eq!(json.type_comment("Point"), Some("/* Point */".to_string()));
    assert_eq!(xml.type_comment("Point"), None);

    // struct_close (non-self-closing)
    assert_eq!(rust.struct_close("Point", false), "}");
    assert_eq!(json.struct_close("Point", false), "}");
    assert_eq!(xml.struct_close("Point", false), "</Point>");

    // struct_close (self-closing)
    assert_eq!(rust.struct_close("Point", true), "}");
    assert_eq!(json.struct_close("Point", true), "}");
    assert_eq!(xml.struct_close("Point", true), "/>");

    // field_separator
    assert_eq!(rust.field_separator(), ", ");
    assert_eq!(json.field_separator(), ", ");
    assert_eq!(xml.field_separator(), " ");

    // seq_open/close
    assert_eq!(rust.seq_open(), "[");
    assert_eq!(rust.seq_close(), "]");
    assert_eq!(json.seq_open(), "[");
    assert_eq!(json.seq_close(), "]");
    // XML sequences render items as siblings without wrapper elements
    assert_eq!(xml.seq_open(), "");
    assert_eq!(xml.seq_close(), "");

    // comment
    assert_eq!(rust.comment("5 more"), "/* 5 more */");
    assert_eq!(json.comment("5 more"), "// 5 more");
    assert_eq!(xml.comment("5 more"), "<!-- 5 more -->");

    // format_field
    assert_eq!(rust.format_field("x", "10"), "x: 10");
    assert_eq!(json.format_field("x", "10"), "\"x\": 10");
    assert_eq!(xml.format_field("x", "10"), "x=\"10\"");
}

#[test]
fn flavor_field_pieces() {
    assert_eq!(RustFlavor.format_field_prefix("x"), "x: ");
    assert_eq!(JsonFlavor.format_field_prefix("x"), "\"x\": ");
    assert_eq!(XmlFlavor.format_field_prefix("x"), "x=\"");
    assert_eq!(XmlFlavor.format_field_suffix(), "\"");
    assert_eq!(XmlFlavor.struct_open_close(), ">");
    assert_eq!(XmlFlavor.format_seq_item("i32", "7"), "<i32>7</i32>");
    assert_eq!(RustFlavor.format_seq_item("i32", "7"), "7");
    assert_eq!(RustFlavor.format_seq_field_open("xs"), "xs: [");
    assert_eq!(JsonFlavor.format_seq_field_open("xs"), "\"xs\": [");
    assert_eq!(JsonFlavor.format_child_open("p"), "\"p\": ");
    assert_eq!(XmlFlavor.format_child_open("p"), "");
    assert_eq!(RustFlavor.trailing_separator(), ",");
    assert_eq!(XmlFlavor.trailing_separator(), "");
    assert_eq!(RustFlavor.item_separator(), ", ");
    assert_eq!(JsonFlavor.item_separator(), ",");
}

#[test]
fn test_format_value_integers() {
    let value = ScalarText::Other(42i32.to_string());

    assert_eq!(RustFlavor.format_value(&value), "42");
    assert_eq!(JsonFlavor.format_value(&value), "42");
    assert_eq!(XmlFlavor.format_value(&value), "42");
}

#[test]
fn test_format_value_strings() {
    let value = ScalarText::Str("hello".to_string());

    // Rust/JSON add quotes around strings, XML doesn't (quotes come from attr syntax)
    assert_eq!(RustFlavor.format_value(&value), "\"hello\"");
    assert_eq!(JsonFlavor.format_value(&value), "\"hello\"");
    assert_eq!(XmlFlavor.format_value(&value), "hello");
}

#[test]
fn test_format_value_booleans() {
    let t = ScalarText::Bool(true);
    let f = ScalarText::Bool(false);

    assert_eq!(RustFlavor.format_value(&t), "true");
    assert_eq!(RustFlavor.format_value(&f), "false");
    assert_eq!(JsonFlavor.format_value(&t), "true");
    assert_eq!(JsonFlavor.format_value(&f), "false");
    assert_eq!(XmlFlavor.format_value(&t), "true");
    assert_eq!(XmlFlavor.format_value(&f), "false");
}

#[test]
fn format_value_chars_and_dynamic_strings() {
    assert_eq!(RustFlavor.format_value(&ScalarText::Char('x')), "'x'");
    assert_eq!(XmlFlavor.format_value(&ScalarText::Char('x')), "x");
    let dynamic = ScalarText::DynamicStr { raw: "ab".to_string(), display: "\"ab\"".to_string() };
    assert_eq!(JsonFlavor.format_value(&dynamic), "\"ab\"");
    assert_eq!(XmlFlavor.format_value(&dynamic), "ab");
}
