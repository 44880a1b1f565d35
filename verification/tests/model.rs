use component_meta::ast::{get_comment, CommentEntry, CommentKind};
use component_meta::meta::{
    ComponentMeta, ComponentType, CssClassMeta, CssMeta, DataMeta, EventMeta, Location, MethodMeta,
    Position, PropertyMeta,
};
use component_meta::text::convert_char_pos;

#[test]
fn test_location_default_and_from() {
    let unset = Location::default();
    assert_eq!(unset.start, Position { line: 0, column: 0 });
    assert_eq!(unset.end, Position { line: 0, column: 0 });
    let loc = Location::from([3, 1], [4, 7]);
    assert_eq!(loc.start, Position { line: 3, column: 1 });
    assert_eq!(loc.end, Position { line: 4, column: 7 });
}

#[test]
fn test_meta_constructors() {
    let d = DataMeta::new("d".to_string());
    assert_eq!(d.name, "d");
    assert_eq!(matches!(d.comment, None), true);
    assert_eq!(matches!(d.children, None), true);
    assert_eq!(d.loc, Location::default());

    let p = PropertyMeta::new("p".to_string());
    assert_eq!(p.name, "p");
    assert_eq!(p.prop_type, "");
    assert_eq!(matches!(p.value, None), true);

    let m = MethodMeta::new("m".to_string());
    assert_eq!(m.name, "m");
    assert_eq!(matches!(m.comment, None), true);

    let e = EventMeta::new("e".to_string());
    assert_eq!(e.name, "e");
    assert_eq!(e.loc, Location::default());

    let c = CssClassMeta::new("c".to_string());
    assert_eq!(c.name, "c");
    assert_eq!(c.loc, Location::default());

    let css = CssMeta::new(vec![CssClassMeta::new("x".to_string())]);
    assert_eq!(css.classes.len(), 1);
    assert_eq!(matches!(css.imports, None), true);

    let comp = ComponentMeta::new(ComponentType::Page);
    assert_eq!(matches!(comp.kind, ComponentType::Page), true);
    assert_eq!(comp.data.len(), 0);
    assert_eq!(comp.properties.len(), 0);
    assert_eq!(comp.methods.len(), 0);
    assert_eq!(matches!(comp.events, None), true);
}

#[test]
fn test_position_mapper() {
    // Lines are 1-based, columns are 0-based and counted in characters.
    let text = "ab\ncd\u{e9}\nf";
    assert_eq!(convert_char_pos(0, 2, text), Location::from([1, 0], [1, 2]));
    assert_eq!(convert_char_pos(3, 6, text), Location::from([2, 0], [2, 3]));
    // The character after the two-byte one: still column 3 of line 2.
    assert_eq!(convert_char_pos(5, 6, text), Location::from([2, 2], [2, 3]));
    assert_eq!(convert_char_pos(7, 8, text), Location::from([3, 0], [3, 1]));
}

#[test]
fn test_comment_lookup() {
    let comments = vec![
        CommentEntry { pos: 4, kind: CommentKind::Line, text: " one".to_string() },
        CommentEntry { pos: 4, kind: CommentKind::Block, text: " two ".to_string() },
        CommentEntry { pos: 9, kind: CommentKind::Block, text: "three".to_string() },
    ];
    // The first comment attached at the position wins.
    assert_eq!(get_comment(4, &comments).unwrap(), "// one");
    assert_eq!(get_comment(9, &comments).unwrap(), "/*three*/");
    assert_eq!(matches!(get_comment(5, &comments), None), true);
}
