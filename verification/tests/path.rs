use rediff::{Path, PathSegment};

#[test]
fn path_display() {
    let mut p = Path::new();
    assert_eq!(p.to_display_string(), "");
    p.push(PathSegment::Field("items".to_string()));
    p.push(PathSegment::Index(2));
    p.push(PathSegment::Field("name".to_string()));
    assert_eq!(p.to_display_string(), "items.2.name");
    let q = p.with(PathSegment::Variant("Some".to_string()));
    assert_eq!(q.to_display_string(), "items.2.name::Some");
    // the path it was built from is unchanged
    assert_eq!(p.0.len(), 3);
    let k = Path::new().with(PathSegment::Key("a\"b".to_string()));
    assert_eq!(k.to_display_string(), "[\"a\\\"b\"]");
    let i = Path::new().with(PathSegment::Index(0)).with(PathSegment::Index(10));
    assert_eq!(i.to_display_string(), "0.10");
}
