//! The script analyzer: resolves the registration call of a parsed module and
//! assembles the component metadata — data tree, properties, methods and, for
//! components, the events found by the text scan.

use vstd::prelude::*;

use crate::ast::{CommentEntry, JsModule, JsProp, JsStmt};
use crate::events::{parse_trigger_event, scan_events};
use crate::extract::{
    data_of_props, find_property_with_object_value, get_data_meta, get_methods_meta,
    get_properties_meta, methods_of, object_value_of, properties_of,
};
use crate::meta::{
    component_rec, ComponentMeta, ComponentRec, ComponentType, DataRec, NamedRec, PropertyRec,
};
use crate::resolve::{get_component_call, resolve_module};

verus! {

/// The metadata assembled from a resolved configuration object. `data` comes
/// from the `data` key; a `Page` takes its methods from the configuration
/// object itself and declares no properties and no events; a `Component`
/// takes properties and methods from the keys so named and its events from
/// the text scan.
pub open spec fn build_component(
    kind: ComponentType,
    props: Seq<JsProp>,
    cm: Seq<CommentEntry>,
    text: Seq<char>,
) -> ComponentRec {
    ComponentRec {
        kind: kind,
        data: match object_value_of("data"@, props) {
            Some(inner) => data_of_props(inner, cm, text),
            None => Seq::<DataRec>::empty(),
        },
        properties: match kind {
            ComponentType::Component => match object_value_of("properties"@, props) {
                Some(inner) => properties_of(inner, cm, text),
                None => Seq::<PropertyRec>::empty(),
            },
            ComponentType::Page => Seq::<PropertyRec>::empty(),
        },
        methods: match kind {
            ComponentType::Page => methods_of(props, cm, text),
            ComponentType::Component => match object_value_of("methods"@, props) {
                Some(inner) => methods_of(inner, cm, text),
                None => Seq::<NamedRec>::empty(),
            },
        },
        events: match kind {
            ComponentType::Component => Some(scan_events(text, cm, 0, 1, 0, Seq::empty())),
            ComponentType::Page => None,
        },
    }
}

/// What analysis yields for a module: metadata exactly when resolution
/// classified a registration call. When the call was classified but the
/// heuristic rejected its object — there is no configuration expression —
/// the result is the kind with every collection empty, as if the
/// configuration object had no properties.
pub open spec fn analyze_module_spec(
    stmts: Seq<JsStmt>,
    cm: Seq<CommentEntry>,
    text: Seq<char>,
) -> Option<ComponentRec> {
    match resolve_module(stmts) {
        Some((kind, config)) => match config {
            Some(props) => Some(build_component(kind, props, cm, text)),
            None => Some(build_component(kind, Seq::empty(), cm, text)),
        },
        None => None,
    }
}

/// A page declares no properties and no events; a component always carries an
/// event list (possibly empty), holding exactly what the text scan finds.
pub proof fn lemma_kind_shape(stmts: Seq<JsStmt>, cm: Seq<CommentEntry>, text: Seq<char>)
    ensures
        match analyze_module_spec(stmts, cm, text) {
            Some(c) => match c.kind {
                ComponentType::Page => c.properties.len() == 0 && c.events is None,
                ComponentType::Component => c.events == Some(
                    scan_events(text, cm, 0, 1, 0, Seq::empty()),
                ),
            },
            None => true,
        },
{
}

/// Analyzes a parsed module against its source text and leading-comment
/// table. `None` means no registration call was found; the caller reports
/// that as "component not found".
pub fn analyze_module(module: &JsModule, comments: &Vec<CommentEntry>, text: &str) -> (r: Option<
    ComponentMeta,
>)
    requires
        text@.len() < usize::MAX - 17,
    ensures
        match r {
            Some(c) => analyze_module_spec(module.body@, comments@, text@) == Some(
                component_rec(c),
            ),
            None => analyze_module_spec(module.body@, comments@, text@) is None,
        },
{
    match get_component_call(module) {
        Some((kind, config)) => match config {
            Some(props) => {
                let mut meta = ComponentMeta::new(kind);
                match find_property_with_object_value("data", props) {
                    Some(inner) => {
                        meta.data = get_data_meta(inner, comments, text);
                    },
                    None => {},
                }
                match kind {
                    ComponentType::Page => {
                        meta.methods = get_methods_meta(props, comments, text);
                    },
                    ComponentType::Component => {
                        match find_property_with_object_value("properties", props) {
                            Some(inner) => {
                                meta.properties = get_properties_meta(inner, comments, text);
                            },
                            None => {},
                        }
                        match find_property_with_object_value("methods", props) {
                            Some(inner) => {
                                meta.methods = get_methods_meta(inner, comments, text);
                            },
                            None => {},
                        }
                        meta.events = Some(parse_trigger_event(comments, text));
                    },
                }
                proof {
                    assert(crate::meta::data_recs(Seq::<crate::meta::DataMeta>::empty()) =~= Seq::<
                        DataRec,
                    >::empty());
                    assert(crate::meta::property_recs(
                        Seq::<crate::meta::PropertyMeta>::empty(),
                    ) =~= Seq::<PropertyRec>::empty());
                    assert(crate::meta::method_recs(Seq::<crate::meta::MethodMeta>::empty())
                        =~= Seq::<NamedRec>::empty());
                    assert(component_rec(meta) == build_component(kind, props@, comments@, text@));
                }
                Some(meta)
            },
            None => {
                let mut meta = ComponentMeta::new(kind);
                match kind {
                    ComponentType::Page => {},
                    ComponentType::Component => {
                        meta.events = Some(parse_trigger_event(comments, text));
                    },
                }
                proof {
                    assert(crate::extract::object_value_of("data"@, Seq::<JsProp>::empty())
                        is None);
                    assert(crate::extract::object_value_of("properties"@, Seq::<JsProp>::empty())
                        is None);
                    assert(crate::extract::object_value_of("methods"@, Seq::<JsProp>::empty())
                        is None);
                    assert(methods_of(Seq::<JsProp>::empty(), comments@, text@) =~= Seq::<
                        NamedRec,
                    >::empty());
                    assert(crate::meta::data_recs(Seq::<crate::meta::DataMeta>::empty()) =~= Seq::<
                        DataRec,
                    >::empty());
                    assert(crate::meta::property_recs(
                        Seq::<crate::meta::PropertyMeta>::empty(),
                    ) =~= Seq::<PropertyRec>::empty());
                    assert(crate::meta::method_recs(Seq::<crate::meta::MethodMeta>::empty())
                        =~= Seq::<NamedRec>::empty());
                    assert(component_rec(meta) == build_component(
                        kind,
                        Seq::empty(),
                        comments@,
                        text@,
                    ));
                }
                Some(meta)
            },
        },
        None => None,
    }
}

} // verus!
