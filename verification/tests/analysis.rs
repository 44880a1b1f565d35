use component_meta::ast::{CommentEntry, CommentKind, JsExpr, JsModule, JsProp, JsStmt, PropKey,
    Span};
use component_meta::meta::{ComponentType, Location, PropertyValue};
use component_meta::resolve::get_component_call;
use component_meta::script::analyze_module;

fn sp(lo: usize, hi: usize) -> Span {
    Span { lo, hi }
}

fn ident_key(name: &str) -> PropKey {
    PropKey::Ident { name: name.to_string(), span: sp(0, 0) }
}

fn kv(name: &str, value: JsExpr) -> JsProp {
    JsProp::KeyValue { key: ident_key(name), value }
}

fn method(name: &str) -> JsProp {
    JsProp::Method { key: ident_key(name) }
}

fn obj(props: Vec<JsProp>) -> JsExpr {
    JsExpr::Object { props }
}

fn call(callee: Option<&str>, args: Vec<JsExpr>) -> JsExpr {
    JsExpr::Call { callee: callee.map(|s| s.to_string()), args }
}

fn module_of(expr: JsExpr) -> JsModule {
    JsModule { body: vec![JsStmt::Expr { expr }] }
}

#[test]
fn test_get_component_call() {
    // Page(guess.wrapOptions({ data: {}, onLoad() {} }));
    let module = module_of(call(
        Some("Page"),
        vec![call(None, vec![obj(vec![kv("data", obj(vec![])), method("onLoad")])])],
    ));
    let result = get_component_call(&module).unwrap();
    assert_eq!(matches!(result.0, ComponentType::Page), true);
    assert_eq!(matches!(result.1, Some(_)), true);

    // myPage({ data: {}, onLoad() {} });
    let module = module_of(call(
        Some("myPage"),
        vec![obj(vec![kv("data", obj(vec![])), method("onLoad")])],
    ));
    let result = get_component_call(&module).unwrap();
    assert_eq!(matches!(result.0, ComponentType::Page), true);
    assert_eq!(matches!(result.1, Some(_)), true);

    // Component(wrap(wrap1({ properties: {}, methods: {} })));
    let module = module_of(call(
        Some("Component"),
        vec![call(
            None,
            vec![call(
                None,
                vec![obj(vec![kv("properties", obj(vec![])), kv("methods", obj(vec![]))])],
            )],
        )],
    ));
    let result = get_component_call(&module).unwrap();
    assert_eq!(matches!(result.0, ComponentType::Component), true);
    assert_eq!(matches!(result.1, Some(_)), true);

    // myComponent({ properties: {}, methods: {} });
    let module = module_of(call(
        Some("myComponent"),
        vec![obj(vec![kv("properties", obj(vec![])), kv("methods", obj(vec![]))])],
    ));
    let result = get_component_call(&module).unwrap();
    assert_eq!(matches!(result.0, ComponentType::Component), true);
    assert_eq!(matches!(result.1, Some(_)), true);

    // Component([{ properties: {}, methods: {} }]);
    let module = module_of(call(Some("Component"), vec![JsExpr::Other]));
    let result = get_component_call(&module).unwrap();
    assert_eq!(matches!(result.0, ComponentType::Component), true);
    assert_eq!(matches!(result.1, None), true);

    // Page(wrap({ c() {} }));
    let module = module_of(call(Some("Page"), vec![call(None, vec![obj(vec![method("c")])])]));
    let result = get_component_call(&module).unwrap();
    assert_eq!(matches!(result.0, ComponentType::Page), true);
    assert_eq!(matches!(result.1, None), true);

    // Page();
    let module = module_of(call(Some("Page"), vec![]));
    let result = get_component_call(&module);
    assert_eq!(matches!(result, None), true);

    // myPage(wrap({ data: {}, onLoad() {} }));
    let module = module_of(call(
        Some("myPage"),
        vec![call(None, vec![obj(vec![kv("data", obj(vec![])), method("onLoad")])])],
    ));
    let result = get_component_call(&module);
    assert_eq!(matches!(result, None), true);

    // wrap({ c() {} });
    let module = module_of(call(Some("wrap"), vec![obj(vec![method("c")])]));
    let result = get_component_call(&module);
    assert_eq!(matches!(result, None), true);
}

#[test]
fn test_analyze_component_object() {
    // Component({data:{a:{b:1}}, properties:{p:{type:Boolean,value:false}}, methods:{m(){}}})
    let config = obj(vec![
        kv("data", obj(vec![kv("a", obj(vec![kv("b", JsExpr::LitNum { text: "1".to_string() })]))])),
        kv(
            "properties",
            obj(vec![kv(
                "p",
                obj(vec![
                    kv("type", JsExpr::Ident { name: "Boolean".to_string() }),
                    kv("value", JsExpr::LitBool { value: false }),
                ]),
            )]),
        ),
        kv("methods", obj(vec![method("m")])),
    ]);
    let module = module_of(call(Some("Component"), vec![config]));
    let comments: Vec<CommentEntry> = vec![];
    let meta = analyze_module(&module, &comments, "").unwrap();
    assert_eq!(matches!(meta.kind, ComponentType::Component), true);

    assert_eq!(meta.data.len(), 1);
    assert_eq!(meta.data[0].name, "a");
    let children = meta.data[0].children.as_ref().unwrap();
    assert_eq!(children.len(), 1);
    assert_eq!(children[0].name, "b");
    assert_eq!(matches!(children[0].children, None), true);

    assert_eq!(meta.properties.len(), 1);
    assert_eq!(meta.properties[0].name, "p");
    assert_eq!(meta.properties[0].prop_type, "Boolean");
    assert_eq!(meta.properties[0].value.as_ref().unwrap(), &PropertyValue::Boolean(false));

    assert_eq!(meta.methods.len(), 1);
    assert_eq!(meta.methods[0].name, "m");

    // events are present (and empty) for a component
    assert_eq!(meta.events.as_ref().unwrap().len(), 0);
}

#[test]
fn test_analyze_page_object() {
    // Page({data:{x:1}, onLoad(){}})
    let config = obj(vec![
        kv("data", obj(vec![kv("x", JsExpr::LitNum { text: "1".to_string() })])),
        method("onLoad"),
    ]);
    let module = module_of(call(Some("Page"), vec![config]));
    let comments: Vec<CommentEntry> = vec![];
    let meta = analyze_module(&module, &comments, "").unwrap();
    assert_eq!(matches!(meta.kind, ComponentType::Page), true);
    assert_eq!(meta.properties.len(), 0);
    assert_eq!(matches!(meta.events, None), true);
    assert_eq!(meta.methods.len(), 1);
    assert_eq!(meta.methods[0].name, "onLoad");
    assert_eq!(meta.data.len(), 1);
    assert_eq!(meta.data[0].name, "x");
}

#[test]
fn test_guess_unwraps_nested_wrappers() {
    // Page(wrap(wrap2({data:{},onLoad(){},onShow(){}})))
    let config = obj(vec![kv("data", obj(vec![])), method("onLoad"), method("onShow")]);
    let module = module_of(call(Some("Page"), vec![call(None, vec![call(None, vec![config])])]));
    let result = get_component_call(&module).unwrap();
    assert_eq!(matches!(result.0, ComponentType::Page), true);
    assert_eq!(matches!(result.1, Some(_)), true);

    let comments: Vec<CommentEntry> = vec![];
    let meta = analyze_module(&module, &comments, "").unwrap();
    assert_eq!(meta.methods.len(), 2);
    assert_eq!(meta.methods[0].name, "onLoad");
    assert_eq!(meta.methods[1].name, "onShow");
    assert_eq!(meta.data.len(), 0);
}

#[test]
fn test_guess_rejects_object_without_recognized_keys() {
    // Page(wrap({c(){}})): zero recognized keys, so no configuration object;
    // analysis still yields the classified kind, with empty data and methods.
    let module = module_of(call(Some("Page"), vec![call(None, vec![obj(vec![method("c")])])]));
    let result = get_component_call(&module).unwrap();
    assert_eq!(matches!(result.0, ComponentType::Page), true);
    assert_eq!(matches!(result.1, None), true);

    let comments: Vec<CommentEntry> = vec![];
    let meta = analyze_module(&module, &comments, "").unwrap();
    assert_eq!(matches!(meta.kind, ComponentType::Page), true);
    assert_eq!(meta.data.len(), 0);
    assert_eq!(meta.methods.len(), 0);
    assert_eq!(meta.properties.len(), 0);
    assert_eq!(matches!(meta.events, None), true);
}

#[test]
fn test_config_less_component_still_scans_events() {
    // Component([...]) resolves to kind Component with no configuration
    // object: empty collections, but the text scan still reports events.
    let module = module_of(call(Some("Component"), vec![JsExpr::Other]));
    let comments: Vec<CommentEntry> = vec![];
    let meta = analyze_module(&module, &comments, "this.triggerEvent('ping')").unwrap();
    assert_eq!(matches!(meta.kind, ComponentType::Component), true);
    assert_eq!(meta.data.len(), 0);
    assert_eq!(meta.methods.len(), 0);
    let events = meta.events.as_ref().unwrap();
    assert_eq!(events.len(), 1);
    assert_eq!(events[0].name, "ping");
}

#[test]
fn test_duplicate_method_names_first_wins() {
    // {m(){}, m(){}} is legal source: the first occurrence wins and the
    // duplicate is dropped, so method names are unique per file.
    let config = obj(vec![
        method("m"),
        method("m"),
        kv("n", JsExpr::Arrow),
        method("n"),
    ]);
    let module = module_of(call(Some("Page"), vec![config]));
    let comments: Vec<CommentEntry> = vec![];
    let meta = analyze_module(&module, &comments, "").unwrap();
    assert_eq!(meta.methods.len(), 2);
    assert_eq!(meta.methods[0].name, "m");
    assert_eq!(meta.methods[1].name, "n");
}

#[test]
fn test_duplicate_property_names_first_wins() {
    // Two properties keyed p: the first occurrence (with its type) is kept,
    // the duplicate is dropped.
    let config = obj(vec![kv(
        "properties",
        obj(vec![
            kv("p", obj(vec![kv("type", JsExpr::Ident { name: "String".to_string() })])),
            kv("p", obj(vec![kv("type", JsExpr::Ident { name: "Number".to_string() })])),
        ]),
    )]);
    let module = module_of(call(Some("Component"), vec![config]));
    let comments: Vec<CommentEntry> = vec![];
    let meta = analyze_module(&module, &comments, "").unwrap();
    assert_eq!(meta.properties.len(), 1);
    assert_eq!(meta.properties[0].name, "p");
    assert_eq!(meta.properties[0].prop_type, "String");
}

#[test]
fn test_unicode_event_names() {
    // The event-name class is the Unicode word class: a name with a non-ASCII
    // letter is recorded, and a non-ASCII space before the quote is skipped.
    let text = "this.triggerEvent('\u{e9}v\u{e9}nement1')\nthis.triggerEvent(\u{a0}'b1')";
    let config = obj(vec![kv("data", obj(vec![])), kv("methods", obj(vec![]))]);
    let module = module_of(call(Some("Component"), vec![config]));
    let comments: Vec<CommentEntry> = vec![];
    let meta = analyze_module(&module, &comments, text).unwrap();
    let events = meta.events.as_ref().unwrap();
    assert_eq!(events.len(), 2);
    assert_eq!(events[0].name, "\u{e9}v\u{e9}nement1");
    assert_eq!(events[1].name, "b1");
}

#[test]
fn test_comment_association_and_positions() {
    // Page({\n  data: {\n    x: 1\n  }\n})
    // offsets:  P=0..., "data" starts at line 2 column 2, "x" at line 3 column 4.
    let text = "Page({\n  data: {\n    x: 1\n  }\n})";
    let data_key = PropKey::Ident { name: "data".to_string(), span: sp(9, 13) };
    let x_key = PropKey::Ident { name: "x".to_string(), span: sp(21, 22) };
    let config = JsExpr::Object {
        props: vec![JsProp::KeyValue {
            key: data_key,
            value: JsExpr::Object {
                props: vec![JsProp::KeyValue {
                    key: x_key,
                    value: JsExpr::LitNum { text: "1".to_string() },
                }],
            },
        }],
    };
    let module = module_of(call(Some("Page"), vec![config]));
    let comments = vec![
        CommentEntry { pos: 9, kind: CommentKind::Line, text: " data field".to_string() },
        CommentEntry { pos: 21, kind: CommentKind::Block, text: " x field ".to_string() },
    ];
    let meta = analyze_module(&module, &comments, text).unwrap();
    // the entries of the `data` object are the data metadata
    assert_eq!(meta.data.len(), 1);
    assert_eq!(meta.data[0].name, "x");
    assert_eq!(meta.data[0].comment.as_ref().unwrap(), "/* x field */");
    assert_eq!(meta.data[0].loc, Location::from([3, 4], [3, 5]));
    assert_eq!(matches!(meta.data[0].children, None), true);
}

#[test]
fn test_string_and_number_property_values() {
    let config = obj(vec![kv(
        "properties",
        obj(vec![
            kv(
                "color-string",
                obj(vec![
                    kv("type", JsExpr::Ident { name: "String".to_string() }),
                    kv("value", JsExpr::LitStr { value: "#3388FF".to_string() }),
                ]),
            ),
            kv(
                "count",
                obj(vec![
                    kv("type", JsExpr::Ident { name: "Number".to_string() }),
                    kv("value", JsExpr::LitNum { text: "666".to_string() }),
                ]),
            ),
            // a property whose value is an object literal: no PropertyValue
            kv("plain", obj(vec![kv("value", obj(vec![]))])),
            // a non-object property is skipped entirely
            kv("skipped", JsExpr::LitBool { value: true }),
        ]),
    )]);
    let module = module_of(call(Some("Component"), vec![config]));
    let comments: Vec<CommentEntry> = vec![];
    let meta = analyze_module(&module, &comments, "").unwrap();
    assert_eq!(meta.properties.len(), 3);
    assert_eq!(meta.properties[0].name, "color-string");
    assert_eq!(meta.properties[0].prop_type, "String");
    assert_eq!(
        meta.properties[0].value.as_ref().unwrap(),
        &PropertyValue::String("#3388FF".to_string())
    );
    assert_eq!(meta.properties[1].name, "count");
    assert_eq!(meta.properties[1].prop_type, "Number");
    assert_eq!(
        meta.properties[1].value.as_ref().unwrap(),
        &PropertyValue::Number("666".to_string())
    );
    assert_eq!(meta.properties[2].name, "plain");
    assert_eq!(meta.properties[2].prop_type, "");
    assert_eq!(matches!(meta.properties[2].value, None), true);
}

#[test]
fn test_event_scan_dedup_and_comments() {
    let text = "// fires first\nthis.triggerEvent('event1');\nthis.triggerEvent( \"event2\" )\nthis.triggerEvent('event1')";
    let config = obj(vec![kv("data", obj(vec![])), kv("methods", obj(vec![]))]);
    let module = module_of(call(Some("Component"), vec![config]));
    let comments =
        vec![CommentEntry { pos: 15, kind: CommentKind::Line, text: " fires first".to_string() }];
    let meta = analyze_module(&module, &comments, text).unwrap();
    let events = meta.events.as_ref().unwrap();
    assert_eq!(events.len(), 2);
    assert_eq!(events[0].name, "event1");
    assert_eq!(events[0].comment.as_ref().unwrap(), "// fires first");
    assert_eq!(events[0].loc, Location::from([2, 0], [2, 17]));
    assert_eq!(events[1].name, "event2");
    assert_eq!(matches!(events[1].comment, None), true);
}

#[test]
fn test_multibyte_columns() {
    // Columns count characters, not bytes: the two-byte character before the
    // key must advance the column by one.
    let text = "Page({\n\u{e9}x: 1\n})";
    // offsets: P a g e ( { \n = 0..6, line 2 starts at 7: 'é' 7, 'x' 8.
    let x_key = PropKey::Ident { name: "x".to_string(), span: sp(8, 9) };
    let config = JsExpr::Object {
        props: vec![JsProp::KeyValue {
            key: PropKey::Ident { name: "data".to_string(), span: sp(0, 0) },
            value: JsExpr::Object {
                props: vec![JsProp::KeyValue {
                    key: x_key,
                    value: JsExpr::LitNum { text: "1".to_string() },
                }],
            },
        }],
    };
    let module = module_of(call(Some("Page"), vec![config]));
    let comments: Vec<CommentEntry> = vec![];
    let meta = analyze_module(&module, &comments, text).unwrap();
    assert_eq!(meta.data.len(), 1);
    assert_eq!(meta.data[0].name, "x");
    assert_eq!(meta.data[0].loc, Location::from([2, 1], [2, 2]));
}

#[test]
fn test_string_and_numeric_keys() {
    let config = obj(vec![kv(
        "data",
        obj(vec![
            JsProp::KeyValue {
                key: PropKey::Str { value: "str-key".to_string(), span: sp(0, 0) },
                value: JsExpr::LitNum { text: "1".to_string() },
            },
            JsProp::KeyValue {
                key: PropKey::Num { text: "666".to_string(), span: sp(0, 0) },
                value: JsExpr::LitNum { text: "2".to_string() },
            },
            JsProp::KeyValue {
                key: PropKey::Other,
                value: JsExpr::LitNum { text: "3".to_string() },
            },
        ]),
    )]);
    let module = module_of(call(Some("Page"), vec![config]));
    let comments: Vec<CommentEntry> = vec![];
    let meta = analyze_module(&module, &comments, "").unwrap();
    assert_eq!(meta.data.len(), 2);
    assert_eq!(meta.data[0].name, "str-key");
    assert_eq!(meta.data[1].name, "666");
}

#[test]
fn test_first_matching_statement_decides() {
    // A statement that matches no rule is passed over; the first matching one
    // decides.
    let module = JsModule {
        body: vec![
            JsStmt::Other,
            JsStmt::Expr { expr: JsExpr::Ident { name: "x".to_string() } },
            JsStmt::Expr { expr: call(Some("helper"), vec![obj(vec![])]) },
            JsStmt::Expr {
                expr: call(Some("Page"), vec![obj(vec![kv("data", obj(vec![]))])]),
            },
        ],
    };
    let result = get_component_call(&module).unwrap();
    assert_eq!(matches!(result.0, ComponentType::Page), true);
    assert_eq!(matches!(result.1, Some(_)), true);
}
