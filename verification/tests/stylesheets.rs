use component_meta::css::{scan_css_classes, scan_import_paths, scan_stylesheet};
use component_meta::meta::Location;

#[test]
fn test_css_class_dedup() {
    // The same class twice: one entry, first occurrence's position kept.
    let classes = scan_css_classes(".a{color:red}.a{other}");
    assert_eq!(classes.len(), 1);
    assert_eq!(classes[0].name, "a");
    assert_eq!(classes[0].loc, Location::from([1, 0], [1, 1]));
}

#[test]
fn test_css_class_positions() {
    let classes = scan_css_classes(".class-0 {}\n.class-1{}");
    assert_eq!(classes.len(), 2);
    assert_eq!(classes[0].name, "class-0");
    assert_eq!(classes[0].loc, Location::from([1, 0], [1, 7]));
    assert_eq!(classes[1].name, "class-1");
    // The scanner's column bookkeeping counts from the newline itself.
    assert_eq!(classes[1].loc, Location::from([2, 1], [2, 8]));
}

#[test]
fn test_css_boundary_rules() {
    // A decimal number is not a class selector.
    assert_eq!(scan_css_classes("margin: 0.5em;").len(), 0);
    // An unknown character before the dot rejects the match.
    assert_eq!(scan_css_classes("*.foo{}").len(), 0);
    // An unknown character after the name rejects the match.
    assert_eq!(scan_css_classes(".foo;").len(), 0);
    // Word characters before, and a pseudo-class after, are accepted.
    let classes = scan_css_classes("a.foo:hover{}");
    assert_eq!(classes.len(), 1);
    assert_eq!(classes[0].name, "foo");
    // A name must start with a lowercase letter or an underscore.
    assert_eq!(scan_css_classes(".Foo{}").len(), 0);
    let classes = scan_css_classes("._bar{}");
    assert_eq!(classes.len(), 1);
    assert_eq!(classes[0].name, "_bar");
}

#[test]
fn test_css_multiple_classes() {
    let classes = scan_css_classes(".one{}.two{}.one{}.three-x{}");
    assert_eq!(classes.len(), 3);
    assert_eq!(classes[0].name, "one");
    assert_eq!(classes[1].name, "two");
    assert_eq!(classes[2].name, "three-x");
}

#[test]
fn test_css_unicode_class_names() {
    // Class-name continuation characters are the Unicode word class (plus
    // the hyphen): a non-ASCII letter inside a name does not cut it short.
    let classes = scan_css_classes(".caf\u{e9}{}");
    assert_eq!(classes.len(), 1);
    assert_eq!(classes[0].name, "caf\u{e9}");
    // A name must still begin with an ASCII lowercase letter or underscore.
    assert_eq!(scan_css_classes(".\u{e9}abc{}").len(), 0);
}

#[test]
fn test_import_paths() {
    let imports = scan_import_paths("@import \"a.css\";\n@import url('b/c.css');\nbody{}");
    assert_eq!(imports.len(), 2);
    assert_eq!(imports[0], "a.css");
    assert_eq!(imports[1], "b/c.css");
}

#[test]
fn test_import_requires_whitespace() {
    // Without whitespace after the directive, nothing is matched.
    assert_eq!(scan_import_paths("@import\"a.css\";").len(), 0);
    // An unterminated path is not matched.
    assert_eq!(scan_import_paths("@import \"a.css").len(), 0);
}

#[test]
fn test_scan_stylesheet_combined() {
    let (meta, imports) = scan_stylesheet("@import \"dep.css\";\n.x-y{}\n.x-y{}");
    assert_eq!(meta.classes.len(), 1);
    assert_eq!(meta.classes[0].name, "x-y");
    assert_eq!(matches!(meta.imports, None), true);
    assert_eq!(imports.len(), 1);
    assert_eq!(imports[0], "dep.css");
}
