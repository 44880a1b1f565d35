//! The object extractors: given a configuration object, extract the typed
//! metadata trees — data fields (recursive), properties (flat, typed and
//! valued), methods (flat) — with comments and positions attached.

use vstd::prelude::*;

use crate::ast::{comment_at, CommentEntry, JsExpr, JsProp, PropKey};
use crate::meta::{
    data_rec, data_recs, lemma_data_recs_push, method_rec, method_recs, property_rec,
    property_recs, prop_value_rec, view_opt_str, DataMeta, DataRec, Location, MethodMeta, NamedRec,
    PropertyMeta, PropertyRec, PropertyValue, PropValueRec,
};
use crate::text::{contains_string, location_of, str_views};
use crate::ast::Span;

verus! {

/// An offset clamped to the length of the text: spans that reach past the end
/// of the source are treated as ending at the end.
pub open spec fn clamped(off: int, n: int) -> int {
    if off <= n {
        off
    } else {
        n
    }
}

/// The location of a span within the text.
pub open spec fn span_location(text: Seq<char>, sp: Span) -> Location {
    location_of(
        text,
        clamped(sp.lo as int, text.len() as int),
        clamped(sp.hi as int, text.len() as int),
    )
}

/// Converts a span of character offsets into line/column positions.
pub fn span_to_location(sp: Span, text: &str) -> (loc: Location)
    requires
        text@.len() < usize::MAX,
    ensures
        loc == span_location(text@, sp),
{
    let n = text.unicode_len();
    let lo = if sp.lo <= n {
        sp.lo
    } else {
        n
    };
    let hi = if sp.hi <= n {
        sp.hi
    } else {
        n
    };
    crate::text::convert_char_pos(lo, hi, text)
}

/// What a property key contributes to a metadata entry: its textual name, the
/// comment attached at its starting offset, and its location. Computed keys
/// contribute nothing.
pub open spec fn key_rec(k: PropKey, cm: Seq<CommentEntry>, text: Seq<char>) -> Option<
    (Seq<char>, Option<Seq<char>>, Location),
> {
    match k {
        PropKey::Ident { name, span } => Some(
            (name@, comment_at(cm, span.lo as int), span_location(text, span)),
        ),
        PropKey::Str { value, span } => Some(
            (value@, comment_at(cm, span.lo as int), span_location(text, span)),
        ),
        PropKey::Num { text: digits, span } => Some(
            (digits@, comment_at(cm, span.lo as int), span_location(text, span)),
        ),
        PropKey::Other => None,
    }
}

/// The name, comment and location taken from one property key.
pub struct PropNameMeta {
    pub name: String,
    pub comment: Option<String>,
    pub loc: Location,
}

/// Extracts name, comment and location from an identifier, string-literal or
/// numeric-literal key; computed keys are not supported.
pub fn find_prop_name(key: &PropKey, comments: &Vec<CommentEntry>, text: &str) -> (r: Option<
    PropNameMeta,
>)
    requires
        text@.len() < usize::MAX,
    ensures
        match r {
            Some(m) => key_rec(*key, comments@, text@) == Some(
                (m.name@, view_opt_str(m.comment), m.loc),
            ),
            None => key_rec(*key, comments@, text@) is None,
        },
{
    match key {
        PropKey::Ident { name, span } => Some(
            PropNameMeta {
                name: name.clone(),
                comment: crate::ast::get_comment(span.lo, comments),
                loc: span_to_location(*span, text),
            },
        ),
        PropKey::Str { value, span } => Some(
            PropNameMeta {
                name: value.clone(),
                comment: crate::ast::get_comment(span.lo, comments),
                loc: span_to_location(*span, text),
            },
        ),
        PropKey::Num { text: digits, span } => Some(
            PropNameMeta {
                name: digits.clone(),
                comment: crate::ast::get_comment(span.lo, comments),
                loc: span_to_location(*span, text),
            },
        ),
        PropKey::Other => None,
    }
}

/// The value of the first key-value property whose key is the identifier
/// `name`, if any.
pub open spec fn find_prop_value(name: Seq<char>, props: Seq<JsProp>) -> Option<JsExpr>
    decreases props.len(),
{
    if props.len() == 0 {
        None
    } else {
        match props[0] {
            JsProp::KeyValue { key: PropKey::Ident { name: n, .. }, value } => if n@ == name {
                Some(value)
            } else {
                find_prop_value(name, props.drop_first())
            },
            _ => find_prop_value(name, props.drop_first()),
        }
    }
}

/// Finds the value of the first property with identifier key `name`.
pub fn find_property_by_name<'a>(name: &str, props: &'a Vec<JsProp>) -> (r: Option<&'a JsExpr>)
    ensures
        match r {
            Some(e) => find_prop_value(name@, props@) == Some(*e),
            None => find_prop_value(name@, props@) is None,
        },
{
    let mut i: usize = 0;
    proof {
        assert(props@.skip(0) =~= props@);
    }
    while i < props.len()
        invariant
            i <= props@.len(),
            find_prop_value(name@, props@) == find_prop_value(name@, props@.skip(i as int)),
        decreases props@.len() - i,
    {
        proof {
            assert(props@.skip(i as int)[0] == props@[i as int]);
            assert(props@.skip(i as int).drop_first() =~= props@.skip(i + 1));
        }
        match &props[i] {
            JsProp::KeyValue { key: PropKey::Ident { name: n, .. }, value } => {
                if crate::text::str_eq_str(n.as_str(), name) {
                    return Some(value);
                }
            },
            _ => {},
        }
        i = i + 1;
    }
    None
}

/// The property sequence of the first property named `name` whose value is an
/// object literal, if any.
pub open spec fn object_value_of(name: Seq<char>, props: Seq<JsProp>) -> Option<Seq<JsProp>> {
    match find_prop_value(name, props) {
        Some(JsExpr::Object { props: inner }) => Some(inner@),
        _ => None,
    }
}

/// Finds the property named `name` and returns its value's properties when
/// that value is an object literal.
pub fn find_property_with_object_value<'a>(name: &str, props: &'a Vec<JsProp>) -> (r: Option<
    &'a Vec<JsProp>,
>)
    ensures
        match r {
            Some(inner) => object_value_of(name@, props@) == Some(inner@),
            None => object_value_of(name@, props@) is None,
        },
{
    match find_property_by_name(name, props) {
        Some(value) => match value {
            JsExpr::Object { props: inner } => Some(inner),
            _ => None,
        },
        None => None,
    }
}

/// The data entry contributed by one property of a `data` object: key-value
/// pairs with a nameable key produce an entry; an object-literal value is
/// traversed recursively into `children` (present, possibly empty).
pub open spec fn data_of_prop(p: JsProp, cm: Seq<CommentEntry>, text: Seq<char>) -> Option<DataRec>
    decreases p,
{
    match p {
        JsProp::KeyValue { key, value } => match key_rec(key, cm, text) {
            Some((name, comment, loc)) => Some(
                DataRec {
                    name,
                    comment,
                    loc,
                    children: match value {
                        JsExpr::Object { props } => Some(data_of_props(props@, cm, text)),
                        _ => None,
                    },
                },
            ),
            None => None,
        },
        _ => None,
    }
}

/// The data entries of a `data` object's property list, in source order.
pub open spec fn data_of_props(props: Seq<JsProp>, cm: Seq<CommentEntry>, text: Seq<char>) -> Seq<
    DataRec,
>
    decreases props,
{
    if props.len() == 0 {
        Seq::empty()
    } else {
        let rest = data_of_props(props.drop_first(), cm, text);
        match data_of_prop(props[0], cm, text) {
            Some(r) => seq![r] + rest,
            None => rest,
        }
    }
}

/// Extracts the data tree under one object literal, recursing into nested
/// object-literal values at every depth.
pub fn parse_data_children(props: &Vec<JsProp>, comments: &Vec<CommentEntry>, text: &str) -> (r:
    Vec<DataMeta>)
    requires
        text@.len() < usize::MAX,
    ensures
        data_recs(r@) == data_of_props(props@, comments@, text@),
    decreases *props,
{
    let mut result: Vec<DataMeta> = Vec::new();
    let mut i: usize = 0;
    proof {
        assert(props@.skip(0) =~= props@);
    }
    while i < props.len()
        invariant
            i <= props@.len(),
            text@.len() < usize::MAX,
            data_recs(result@) + data_of_props(props@.skip(i as int), comments@, text@)
                == data_of_props(props@, comments@, text@),
        decreases props@.len() - i,
    {
        proof {
            assert(props@.skip(i as int)[0] == props@[i as int]);
            assert(props@.skip(i as int).drop_first() =~= props@.skip(i + 1));
        }
        let p = &props[i];
        match p {
            JsProp::KeyValue { key, value } => {
                match find_prop_name(key, comments, text) {
                    Some(name_meta) => {
                        let mut entry = DataMeta::new(name_meta.name);
                        entry.comment = name_meta.comment;
                        entry.loc = name_meta.loc;
                        match value {
                            JsExpr::Object { props: child_props } => {
                                proof {
                                    assert(decreases_to!(*props => *child_props)) by {
                                        assert(decreases_to!(*props => props@));
                                        assert(decreases_to!(props@ => props@[i as int]));
                                        assert(props@[i as int] == *p);
                                        assert(decreases_to!(*p => *value));
                                        assert(decreases_to!(*value => *child_props));
                                    }
                                }
                                let children = parse_data_children(child_props, comments, text);
                                entry.children = Some(children);
                            },
                            _ => {},
                        }
                        proof {
                            let spec_entry = data_of_prop(props@[i as int], comments@, text@);
                            assert(spec_entry == Some(data_rec(entry)));
                            lemma_data_recs_push(result@, entry);
                            assert(data_recs(result@.push(entry)) + data_of_props(
                                props@.skip(i + 1),
                                comments@,
                                text@,
                            ) =~= data_recs(result@) + data_of_props(
                                props@.skip(i as int),
                                comments@,
                                text@,
                            ));
                        }
                        result.push(entry);
                    },
                    None => {},
                }
            },
            _ => {},
        }
        i = i + 1;
    }
    proof {
        assert(props@.skip(props@.len() as int) =~= Seq::<JsProp>::empty());
        assert(data_recs(result@) + Seq::<DataRec>::empty() =~= data_recs(result@));
    }
    result
}

/// Extracts the `data` metadata of a configuration object's `data` value.
pub fn get_data_meta(props: &Vec<JsProp>, comments: &Vec<CommentEntry>, text: &str) -> (r: Vec<
    DataMeta,
>)
    requires
        text@.len() < usize::MAX,
    ensures
        data_recs(r@) == data_of_props(props@, comments@, text@),
{
    parse_data_children(props, comments, text)
}

/// The property entry contributed by one key of a `properties` object: only
/// keys whose value is an object literal produce an entry; `type` must be an
/// identifier to set the type string; `value` must be a string, number or
/// boolean literal to set the value.
pub open spec fn property_of_prop(p: JsProp, cm: Seq<CommentEntry>, text: Seq<char>) -> Option<
    PropertyRec,
> {
    match p {
        JsProp::KeyValue { key, value: JsExpr::Object { props: inner } } => match key_rec(
            key,
            cm,
            text,
        ) {
            Some((name, comment, loc)) => Some(
                PropertyRec {
                    name,
                    prop_type: match find_prop_value("type"@, inner@) {
                        Some(JsExpr::Ident { name: t }) => t@,
                        _ => Seq::empty(),
                    },
                    value: match find_prop_value("value"@, inner@) {
                        Some(JsExpr::LitStr { value: v }) => Some(PropValueRec::String(v@)),
                        Some(JsExpr::LitNum { text: t }) => Some(PropValueRec::Number(t@)),
                        Some(JsExpr::LitBool { value: b }) => Some(PropValueRec::Boolean(b)),
                        _ => None,
                    },
                    comment,
                    loc,
                },
            ),
            None => None,
        },
        _ => None,
    }
}

/// The property entries of a `properties` object from one point on, given the
/// names already produced: an entry whose name was produced before is
/// dropped, so the first occurrence wins and names stay unique.
pub open spec fn properties_of_seen(
    props: Seq<JsProp>,
    cm: Seq<CommentEntry>,
    text: Seq<char>,
    seen: Seq<Seq<char>>,
) -> Seq<PropertyRec>
    decreases props.len(),
{
    if props.len() == 0 {
        Seq::empty()
    } else {
        match property_of_prop(props[0], cm, text) {
            Some(r) => if seen.contains(r.name) {
                properties_of_seen(props.drop_first(), cm, text, seen)
            } else {
                seq![r] + properties_of_seen(props.drop_first(), cm, text, seen.push(r.name))
            },
            None => properties_of_seen(props.drop_first(), cm, text, seen),
        }
    }
}

/// The property entries of a `properties` object's property list, names
/// deduplicated (first occurrence wins).
pub open spec fn properties_of(props: Seq<JsProp>, cm: Seq<CommentEntry>, text: Seq<char>) -> Seq<
    PropertyRec,
> {
    properties_of_seen(props, cm, text, Seq::empty())
}

/// Extracts the property metadata of a configuration object's `properties`
/// value. Names are unique in the result: the first occurrence wins and a
/// later property with an already-produced name is dropped.
pub fn get_properties_meta(props: &Vec<JsProp>, comments: &Vec<CommentEntry>, text: &str) -> (r:
    Vec<PropertyMeta>)
    requires
        text@.len() < usize::MAX,
    ensures
        property_recs(r@) == properties_of(props@, comments@, text@),
{
    let mut result: Vec<PropertyMeta> = Vec::new();
    let mut seen: Vec<String> = Vec::new();
    let mut i: usize = 0;
    proof {
        assert(props@.skip(0) =~= props@);
        assert(str_views(seen@) =~= Seq::<Seq<char>>::empty());
        assert(property_recs(result@) =~= Seq::<PropertyRec>::empty());
        assert(property_recs(result@) + properties_of(props@, comments@, text@) =~= properties_of(
            props@,
            comments@,
            text@,
        ));
    }
    while i < props.len()
        invariant
            i <= props@.len(),
            text@.len() < usize::MAX,
            property_recs(result@) + properties_of_seen(
                props@.skip(i as int),
                comments@,
                text@,
                str_views(seen@),
            ) == properties_of(props@, comments@, text@),
        decreases props@.len() - i,
    {
        proof {
            assert(props@.skip(i as int)[0] == props@[i as int]);
            assert(props@.skip(i as int).drop_first() =~= props@.skip(i + 1));
        }
        match &props[i] {
            JsProp::KeyValue { key, value } => {
                match find_prop_name(key, comments, text) {
                    Some(name_meta) => {
                        match value {
                            JsExpr::Object { props: inner } => {
                                if contains_string(&seen, name_meta.name.as_str()) {
                                    proof {
                                        let r = property_of_prop(
                                            props@[i as int],
                                            comments@,
                                            text@,
                                        );
                                        assert(r is Some && r->0.name == name_meta.name@);
                                    }
                                } else {
                                    let seen_name = name_meta.name.clone();
                                    let mut property = PropertyMeta::new(name_meta.name);
                                    property.comment = name_meta.comment;
                                    property.loc = name_meta.loc;
                                    match find_property_by_name("type", inner) {
                                        Some(JsExpr::Ident { name: t }) => {
                                            property.prop_type = t.clone();
                                        },
                                        _ => {},
                                    }
                                    match find_property_by_name("value", inner) {
                                        Some(JsExpr::LitStr { value: v }) => {
                                            property.value = Some(
                                                PropertyValue::String(v.clone()),
                                            );
                                        },
                                        Some(JsExpr::LitNum { text: t }) => {
                                            property.value = Some(
                                                PropertyValue::Number(t.clone()),
                                            );
                                        },
                                        Some(JsExpr::LitBool { value: b }) => {
                                            property.value = Some(PropertyValue::Boolean(*b));
                                        },
                                        _ => {},
                                    }
                                    proof {
                                        assert(property_of_prop(props@[i as int], comments@, text@)
                                            == Some(property_rec(property)));
                                        assert(str_views(seen@.push(seen_name)) =~= str_views(
                                            seen@,
                                        ).push(property_rec(property).name));
                                        assert(property_recs(result@.push(property))
                                            =~= property_recs(result@).push(
                                            property_rec(property),
                                        ));
                                        assert(property_recs(result@.push(property))
                                            + properties_of_seen(
                                            props@.skip(i + 1),
                                            comments@,
                                            text@,
                                            str_views(seen@).push(property_rec(property).name),
                                        ) =~= property_recs(result@) + (seq![
                                            property_rec(property),
                                        ] + properties_of_seen(
                                            props@.skip(i + 1),
                                            comments@,
                                            text@,
                                            str_views(seen@).push(property_rec(property).name),
                                        )));
                                    }
                                    result.push(property);
                                    seen.push(seen_name);
                                }
                            },
                            _ => {},
                        }
                    },
                    None => {},
                }
            },
            _ => {},
        }
        i = i + 1;
    }
    proof {
        assert(props@.skip(props@.len() as int) =~= Seq::<JsProp>::empty());
        assert(property_recs(result@) + Seq::<PropertyRec>::empty() =~= property_recs(result@));
    }
    result
}

/// The method entry contributed by one property: a key-value pair whose value
/// is an arrow function or a function expression, or a shorthand method with
/// an identifier key.
pub open spec fn method_of_prop(p: JsProp, cm: Seq<CommentEntry>, text: Seq<char>) -> Option<
    NamedRec,
> {
    match p {
        JsProp::KeyValue { key, value } => match key_rec(key, cm, text) {
            Some((name, comment, loc)) => if value is Arrow || value is Function {
                Some(NamedRec { name, comment, loc })
            } else {
                None
            },
            None => None,
        },
        JsProp::Method { key: PropKey::Ident { name, span } } => Some(
            NamedRec {
                name: name@,
                comment: comment_at(cm, span.lo as int),
                loc: span_location(text, span),
            },
        ),
        _ => None,
    }
}

/// The method entries of an object from one point on, given the names already
/// produced: an entry whose name was produced before is dropped, so the first
/// occurrence wins and names stay unique.
pub open spec fn methods_of_seen(
    props: Seq<JsProp>,
    cm: Seq<CommentEntry>,
    text: Seq<char>,
    seen: Seq<Seq<char>>,
) -> Seq<NamedRec>
    decreases props.len(),
{
    if props.len() == 0 {
        Seq::empty()
    } else {
        match method_of_prop(props[0], cm, text) {
            Some(r) => if seen.contains(r.name) {
                methods_of_seen(props.drop_first(), cm, text, seen)
            } else {
                seq![r] + methods_of_seen(props.drop_first(), cm, text, seen.push(r.name))
            },
            None => methods_of_seen(props.drop_first(), cm, text, seen),
        }
    }
}

/// The method entries of an object's property list, names deduplicated (first
/// occurrence wins).
pub open spec fn methods_of(props: Seq<JsProp>, cm: Seq<CommentEntry>, text: Seq<char>) -> Seq<
    NamedRec,
> {
    methods_of_seen(props, cm, text, Seq::empty())
}


/// Extracts the method metadata of an object's function-valued keys. Names
/// are unique in the result: the first occurrence wins and a later method
/// with an already-produced name is dropped.
pub fn get_methods_meta(props: &Vec<JsProp>, comments: &Vec<CommentEntry>, text: &str) -> (r: Vec<
    MethodMeta,
>)
    requires
        text@.len() < usize::MAX,
    ensures
        method_recs(r@) == methods_of(props@, comments@, text@),
{
    let mut result: Vec<MethodMeta> = Vec::new();
    let mut seen: Vec<String> = Vec::new();
    let mut i: usize = 0;
    proof {
        assert(props@.skip(0) =~= props@);
        assert(str_views(seen@) =~= Seq::<Seq<char>>::empty());
        assert(method_recs(result@) =~= Seq::<NamedRec>::empty());
        assert(method_recs(result@) + methods_of(props@, comments@, text@) =~= methods_of(
            props@,
            comments@,
            text@,
        ));
    }
    while i < props.len()
        invariant
            i <= props@.len(),
            text@.len() < usize::MAX,
            method_recs(result@) + methods_of_seen(
                props@.skip(i as int),
                comments@,
                text@,
                str_views(seen@),
            ) == methods_of(props@, comments@, text@),
        decreases props@.len() - i,
    {
        proof {
            assert(props@.skip(i as int)[0] == props@[i as int]);
            assert(props@.skip(i as int).drop_first() =~= props@.skip(i + 1));
        }
        let mut entry: Option<MethodMeta> = None;
        match &props[i] {
            JsProp::KeyValue { key, value } => {
                match find_prop_name(key, comments, text) {
                    Some(name_meta) => {
                        let is_function = match value {
                            JsExpr::Arrow => true,
                            JsExpr::Function => true,
                            _ => false,
                        };
                        if is_function {
                            let mut method = MethodMeta::new(name_meta.name);
                            method.comment = name_meta.comment;
                            method.loc = name_meta.loc;
                            entry = Some(method);
                        }
                    },
                    None => {},
                }
            },
            JsProp::Method { key } => {
                match key {
                    PropKey::Ident { name, span } => {
                        let mut method = MethodMeta::new(name.clone());
                        method.comment = crate::ast::get_comment(span.lo, comments);
                        method.loc = span_to_location(*span, text);
                        entry = Some(method);
                    },
                    _ => {},
                }
            },
            _ => {},
        }
        match entry {
            Some(method) => {
                proof {
                    assert(method_of_prop(props@[i as int], comments@, text@) == Some(
                        method_rec(method),
                    ));
                }
                if contains_string(&seen, method.name.as_str()) {
                    proof {
                        assert(str_views(seen@).contains(method_rec(method).name));
                    }
                } else {
                    let seen_name = method.name.clone();
                    proof {
                        assert(str_views(seen@.push(seen_name)) =~= str_views(seen@).push(
                            method_rec(method).name,
                        ));
                        assert(method_recs(result@.push(method)) =~= method_recs(result@).push(
                            method_rec(method),
                        ));
                        assert(method_recs(result@.push(method)) + methods_of_seen(
                            props@.skip(i + 1),
                            comments@,
                            text@,
                            str_views(seen@).push(method_rec(method).name),
                        ) =~= method_recs(result@) + (seq![method_rec(method)] + methods_of_seen(
                            props@.skip(i + 1),
                            comments@,
                            text@,
                            str_views(seen@).push(method_rec(method).name),
                        )));
                    }
                    result.push(method);
                    seen.push(seen_name);
                }
            },
            None => {
                proof {
                    assert(method_of_prop(props@[i as int], comments@, text@) is None);
                }
            },
        }
        i = i + 1;
    }
    proof {
        assert(props@.skip(props@.len() as int) =~= Seq::<JsProp>::empty());
        assert(method_recs(result@) + Seq::<NamedRec>::empty() =~= method_recs(result@));
    }
    result
}

/// First occurrence wins: every property entry has a name that is not among
/// the names already produced, and no two entries share a name.
pub proof fn lemma_properties_distinct(
    props: Seq<JsProp>,
    cm: Seq<CommentEntry>,
    text: Seq<char>,
    seen: Seq<Seq<char>>,
)
    ensures
        forall|a: int|
            0 <= a < properties_of_seen(props, cm, text, seen).len() ==> !seen.contains(
                #[trigger] properties_of_seen(props, cm, text, seen)[a].name,
            ),
        forall|a: int, b: int|
            0 <= a < b < properties_of_seen(props, cm, text, seen).len()
                ==> #[trigger] properties_of_seen(props, cm, text, seen)[a].name
                != #[trigger] properties_of_seen(props, cm, text, seen)[b].name,
    decreases props.len(),
{
    let r = properties_of_seen(props, cm, text, seen);
    if props.len() > 0 {
        match property_of_prop(props[0], cm, text) {
            None => {
                lemma_properties_distinct(props.drop_first(), cm, text, seen);
            },
            Some(head) => {
                if seen.contains(head.name) {
                    lemma_properties_distinct(props.drop_first(), cm, text, seen);
                } else {
                    let rest = properties_of_seen(props.drop_first(), cm, text, seen.push(
                        head.name,
                    ));
                    lemma_properties_distinct(props.drop_first(), cm, text, seen.push(head.name));
                    assert forall|a: int| 0 <= a < r.len() implies !seen.contains(
                        #[trigger] r[a].name,
                    ) by {
                        if a > 0 {
                            assert(r[a] == rest[a - 1]);
                            assert(!seen.push(head.name).contains(rest[a - 1].name));
                            assert(seen.push(head.name)[seen.len() as int] == head.name);
                            if seen.contains(rest[a - 1].name) {
                                let w = choose|w: int|
                                    0 <= w < seen.len() && seen[w] == rest[a - 1].name;
                                assert(seen.push(head.name)[w] == seen[w]);
                            }
                        }
                    }
                    assert forall|a: int, b: int| 0 <= a < b < r.len() implies #[trigger] r[a].name
                        != #[trigger] r[b].name by {
                        if a == 0 {
                            assert(r[b] == rest[b - 1]);
                            assert(!seen.push(head.name).contains(rest[b - 1].name));
                            assert(seen.push(head.name)[seen.len() as int] == head.name);
                        } else {
                            assert(r[a] == rest[a - 1]);
                            assert(r[b] == rest[b - 1]);
                        }
                    }
                }
            },
        }
    }
}

/// First occurrence wins: every method entry has a name that is not among the
/// names already produced, and no two entries share a name.
pub proof fn lemma_methods_distinct(
    props: Seq<JsProp>,
    cm: Seq<CommentEntry>,
    text: Seq<char>,
    seen: Seq<Seq<char>>,
)
    ensures
        forall|a: int|
            0 <= a < methods_of_seen(props, cm, text, seen).len() ==> !seen.contains(
                #[trigger] methods_of_seen(props, cm, text, seen)[a].name,
            ),
        forall|a: int, b: int|
            0 <= a < b < methods_of_seen(props, cm, text, seen).len()
                ==> #[trigger] methods_of_seen(props, cm, text, seen)[a].name
                != #[trigger] methods_of_seen(props, cm, text, seen)[b].name,
    decreases props.len(),
{
    let r = methods_of_seen(props, cm, text, seen);
    if props.len() > 0 {
        match method_of_prop(props[0], cm, text) {
            None => {
                lemma_methods_distinct(props.drop_first(), cm, text, seen);
            },
            Some(head) => {
                if seen.contains(head.name) {
                    lemma_methods_distinct(props.drop_first(), cm, text, seen);
                } else {
                    let rest = methods_of_seen(props.drop_first(), cm, text, seen.push(head.name));
                    lemma_methods_distinct(props.drop_first(), cm, text, seen.push(head.name));
                    assert forall|a: int| 0 <= a < r.len() implies !seen.contains(
                        #[trigger] r[a].name,
                    ) by {
                        if a > 0 {
                            assert(r[a] == rest[a - 1]);
                            assert(!seen.push(head.name).contains(rest[a - 1].name));
                            assert(seen.push(head.name)[seen.len() as int] == head.name);
                            if seen.contains(rest[a - 1].name) {
                                let w = choose|w: int|
                                    0 <= w < seen.len() && seen[w] == rest[a - 1].name;
                                assert(seen.push(head.name)[w] == seen[w]);
                            }
                        }
                    }
                    assert forall|a: int, b: int| 0 <= a < b < r.len() implies #[trigger] r[a].name
                        != #[trigger] r[b].name by {
                        if a == 0 {
                            assert(r[b] == rest[b - 1]);
                            assert(!seen.push(head.name).contains(rest[b - 1].name));
                            assert(seen.push(head.name)[seen.len() as int] == head.name);
                        } else {
                            assert(r[a] == rest[a - 1]);
                            assert(r[b] == rest[b - 1]);
                        }
                    }
                }
            },
        }
    }
}

} // verus!
