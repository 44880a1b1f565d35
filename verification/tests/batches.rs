use component_meta::batch::{collect_batch_results, css_round_update, map_get};
use component_meta::meta::{ComponentMeta, ComponentType, CssClassMeta, CssMeta};

fn css_meta(class_names: &[&str], imports: Option<&[&str]>) -> CssMeta {
    let mut meta = CssMeta::new(
        class_names.iter().map(|n| CssClassMeta::new(n.to_string())).collect(),
    );
    meta.imports = imports.map(|paths| paths.iter().map(|p| p.to_string()).collect());
    meta
}

#[test]
fn test_batch_omits_failed_files() {
    // One of three paths fails: the result map has exactly two entries, and
    // the failed path is absent rather than present with an error.
    let results: Vec<(String, Option<ComponentMeta>)> = vec![
        ("a.js".to_string(), Some(ComponentMeta::new(ComponentType::Page))),
        ("missing.js".to_string(), None),
        ("b.js".to_string(), Some(ComponentMeta::new(ComponentType::Component))),
    ];
    let map = collect_batch_results(results);
    assert_eq!(map.len(), 2);
    assert_eq!(matches!(map_get(&map, "a.js"), Some(_)), true);
    assert_eq!(matches!(map_get(&map, "missing.js"), None), true);
    let b = map_get(&map, "b.js").unwrap();
    assert_eq!(matches!(b.kind, ComponentType::Component), true);
}

#[test]
fn test_batch_replaces_duplicate_paths() {
    let results: Vec<(String, Option<u32>)> = vec![
        ("a".to_string(), Some(1)),
        ("a".to_string(), Some(2)),
    ];
    let map = collect_batch_results(results);
    assert_eq!(map.len(), 1);
    assert_eq!(map_get(&map, "a"), Some(&2));
}

#[test]
fn test_css_rounds_follow_imports() {
    // import.css -> [component.css, page.css], neither of which imports
    // further: two rounds, a three-entry map, each transitive file once.
    let mut map: Vec<(String, CssMeta)> = Vec::new();

    let round1 = vec![(
        "import.css".to_string(),
        css_meta(&["root"], Some(&["component.css", "page.css"])),
    )];
    let next = css_round_update(&mut map, round1);
    assert_eq!(next, vec!["component.css".to_string(), "page.css".to_string()]);
    assert_eq!(map.len(), 1);

    let round2 = vec![
        ("component.css".to_string(), css_meta(&["c1", "c2"], Some(&[]))),
        ("page.css".to_string(), css_meta(&["p1"], Some(&[]))),
    ];
    let next = css_round_update(&mut map, round2);
    assert_eq!(next.len(), 0);

    assert_eq!(map.len(), 3);
    assert_eq!(map_get(&map, "import.css").unwrap().classes.len(), 1);
    assert_eq!(map_get(&map, "component.css").unwrap().classes.len(), 2);
    assert_eq!(map_get(&map, "page.css").unwrap().classes.len(), 1);
}

#[test]
fn test_css_round_skips_known_paths() {
    // An import already in the map is not visited again: this is what ends
    // the recursion on cyclic imports.
    let mut map: Vec<(String, CssMeta)> = Vec::new();
    let round1 = vec![("a.css".to_string(), css_meta(&["a"], Some(&["b.css"])))];
    let next = css_round_update(&mut map, round1);
    assert_eq!(next, vec!["b.css".to_string()]);

    let round2 = vec![("b.css".to_string(), css_meta(&["b"], Some(&["a.css"])))];
    let next = css_round_update(&mut map, round2);
    assert_eq!(next.len(), 0);
    assert_eq!(map.len(), 2);
}

#[test]
fn test_css_round_duplicate_imports_within_round() {
    // Two files of one round importing the same new path contribute it twice;
    // the map still ends up with a single entry for it.
    let mut map: Vec<(String, CssMeta)> = Vec::new();
    let round = vec![
        ("x.css".to_string(), css_meta(&["x"], Some(&["shared.css"]))),
        ("y.css".to_string(), css_meta(&["y"], Some(&["shared.css"]))),
    ];
    let next = css_round_update(&mut map, round);
    assert_eq!(next, vec!["shared.css".to_string(), "shared.css".to_string()]);

    let round = vec![
        ("shared.css".to_string(), css_meta(&["s"], Some(&[]))),
        ("shared.css".to_string(), css_meta(&["s"], Some(&[]))),
    ];
    let next = css_round_update(&mut map, round);
    assert_eq!(next.len(), 0);
    assert_eq!(map.len(), 3);
}
