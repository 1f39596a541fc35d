use archman::xkb::{find_char, find_text, patch_recognized, patch_xkb_types, XkbError};

#[test]
fn xkb_patch_adds_the_include() {
    let contents = "default xkb_types \"complete\" {\n    include \"basic\"\n    include \"mousekeys\"\n};\n";
    let patched = patch_xkb_types(contents).unwrap().unwrap();
    assert_eq!(
        patched,
        "default xkb_types \"complete\" {\n    include \"basic\"\n    include \"mousekeys\"\n    include \"ed\"\n};\n"
    );
}

#[test]
fn xkb_patch_of_empty_block() {
    let contents = "default xkb_types \"complete\" {\n};\n";
    assert_eq!(
        patch_xkb_types(contents),
        Ok(Some("default xkb_types \"complete\" {\n    include \"ed\"\n};\n".to_string()))
    );
}

#[test]
fn xkb_patch_not_needed() {
    let contents = "default xkb_types \"complete\" {\n    include \"basic\"\n    include \"ed\"\n};\n";
    assert_eq!(patch_xkb_types(contents), Ok(None));
}

#[test]
fn xkb_patch_rejects_other_contents() {
    assert_eq!(patch_xkb_types(""), Err(XkbError::Unrecognized));
    assert_eq!(patch_xkb_types("hello }"), Err(XkbError::Unrecognized));
    assert_eq!(
        patch_xkb_types("default xkb_types \"complete\" {\n    include \"a b\"\n};\n"),
        Err(XkbError::Unrecognized)
    );
    assert_eq!(
        patch_xkb_types("default xkb_types \"complete\" {\n    include \"basic\"\n};\n\n"),
        Err(XkbError::Unrecognized)
    );
}

#[test]
fn patch_recognized_cases() {
    assert_eq!(patch_recognized("a } b }", false), Err(XkbError::Unrecognized));
    assert_eq!(patch_recognized("no brace", true), Err(XkbError::Unrecognized));
    assert_eq!(patch_recognized("x include \"ed\" }", true), Ok(None));
    assert_eq!(
        patch_recognized("a } b }", true),
        Ok(Some("a     include \"ed\"\n} b }".to_string()))
    );
    assert_eq!(patch_recognized("é}", true), Ok(Some("é    include \"ed\"\n}".to_string())));
}

#[test]
fn find_text_and_char() {
    assert!(find_text("hello world", "o w"));
    assert!(find_text("hello", ""));
    assert!(find_text("", ""));
    assert!(!find_text("", "a"));
    assert!(!find_text("hello", "hello!"));
    assert!(find_text("hello", "hello"));
    assert!(!find_text("héllo", "hel"));
    assert!(find_text("héllo", "éll"));
    assert_eq!(find_char("a}b}", '}'), Some(1));
    assert_eq!(find_char("é}", '}'), Some(1));
    assert_eq!(find_char("abc", '}'), None);
}
