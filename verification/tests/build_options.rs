use rediff::layout::BuildOptions;

#[test]
fn test_build_options_default() {
    let opts = BuildOptions::default();
    assert_eq!(opts.max_line_width, 80);
    assert_eq!(opts.max_unchanged_fields, 5);
    assert_eq!(opts.collapse_threshold, 3);
}

#[test]
fn build_options_float_precision() {
    let opts = BuildOptions::default().with_float_precision(3);
    assert_eq!(opts.float_precision, Some(3));
    assert_eq!(opts.max_line_width, 80);
}

#[test]
fn it_works() {}
