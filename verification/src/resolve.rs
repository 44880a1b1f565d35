//! The call-site resolver: finds the registration call among a module's
//! top-level statements, classifies it as `Component` or `Page`, and unwraps
//! nested wrapper calls heuristically to reach the configuration object.

use vstd::prelude::*;

use crate::ast::{JsExpr, JsModule, JsProp, JsStmt, PropKey};
use crate::meta::ComponentType;
use crate::text::{ends_with, str_ends_with, str_eq_str};

verus! {

/// The fixed recognized-key set of each kind: a configuration object is
/// accepted by the heuristic when at least two of these appear as direct
/// property names.
pub open spec fn is_recognized_key(kind: ComponentType, name: Seq<char>) -> bool {
    match kind {
        ComponentType::Component => name == "properties"@ || name == "data"@ || name == "methods"@
            || name == "attached"@ || name == "ready"@,
        ComponentType::Page => name == "data"@ || name == "onInit"@ || name == "onLoad"@ || name
            == "onReady"@ || name == "onShow"@,
    }
}

/// The identifier name of a property that the heuristic inspects: a key-value
/// pair or a shorthand method whose key is a plain identifier.
pub open spec fn prop_ident_name(p: JsProp) -> Option<Seq<char>> {
    match p {
        JsProp::KeyValue { key: PropKey::Ident { name, .. }, .. } => Some(name@),
        JsProp::Method { key: PropKey::Ident { name, .. } } => Some(name@),
        _ => None,
    }
}

/// How many direct properties of an object carry a recognized key for `kind`.
pub open spec fn count_recognized(kind: ComponentType, props: Seq<JsProp>) -> int
    decreases props.len(),
{
    if props.len() == 0 {
        0
    } else {
        (match prop_ident_name(props[0]) {
            Some(name) => if is_recognized_key(kind, name) {
                1int
            } else {
                0int
            },
            None => 0int,
        }) + count_recognized(kind, props.drop_first())
    }
}

pub proof fn lemma_count_recognized_bounds(kind: ComponentType, props: Seq<JsProp>)
    ensures
        0 <= count_recognized(kind, props) <= props.len(),
    decreases props.len(),
{
    if props.len() > 0 {
        lemma_count_recognized_bounds(kind, props.drop_first());
    }
}

fn prop_key_ident<'a>(p: &'a JsProp) -> (r: Option<&'a String>)
    ensures
        match r {
            Some(name) => prop_ident_name(*p) == Some(name@),
            None => prop_ident_name(*p) is None,
        },
{
    match p {
        JsProp::KeyValue { key: PropKey::Ident { name, .. }, .. } => Some(name),
        JsProp::Method { key: PropKey::Ident { name, .. } } => Some(name),
        _ => None,
    }
}

fn recognized_key(kind: ComponentType, name: &str) -> (r: bool)
    ensures
        r == is_recognized_key(kind, name@),
{
    match kind {
        ComponentType::Component => str_eq_str(name, "properties") || str_eq_str(name, "data")
            || str_eq_str(name, "methods") || str_eq_str(name, "attached") || str_eq_str(
            name,
            "ready",
        ),
        ComponentType::Page => str_eq_str(name, "data") || str_eq_str(name, "onInit") || str_eq_str(
            name,
            "onLoad",
        ) || str_eq_str(name, "onReady") || str_eq_str(name, "onShow"),
    }
}

/// Counts the direct properties whose identifier key is recognized for `kind`.
pub fn find_and_count_properties(kind: ComponentType, props: &Vec<JsProp>) -> (r: usize)
    ensures
        r == count_recognized(kind, props@),
{
    let mut count: usize = 0;
    let mut i: usize = 0;
    proof {
        assert(props@.skip(0) =~= props@);
        lemma_count_recognized_bounds(kind, props@);
    }
    while i < props.len()
        invariant
            i <= props@.len(),
            count <= i,
            count + count_recognized(kind, props@.skip(i as int)) == count_recognized(
                kind,
                props@,
            ),
        decreases props@.len() - i,
    {
        proof {
            assert(props@.skip(i as int)[0] == props@[i as int]);
            assert(props@.skip(i as int).drop_first() =~= props@.skip(i + 1));
            lemma_count_recognized_bounds(kind, props@.skip(i + 1));
        }
        let matched = match prop_key_ident(&props[i]) {
            Some(name) => recognized_key(kind, name.as_str()),
            None => false,
        };
        if matched {
            count = count + 1;
        }
        i = i + 1;
    }
    count
}

/// Heuristic unwrapping on an expression: walk through nested wrapper calls
/// via their first argument until an object literal is reached; accept it as
/// the configuration object exactly when it shows at least two recognized
/// keys for `kind`.
pub open spec fn guess_spec(kind: ComponentType, e: JsExpr) -> Option<Seq<JsProp>>
    decreases e,
{
    match e {
        JsExpr::Call { args, .. } => {
            if args.len() == 0 {
                None
            } else {
                match args[0] {
                    JsExpr::Object { props } => if count_recognized(kind, props@) >= 2 {
                        Some(props@)
                    } else {
                        None
                    },
                    _ => guess_spec(kind, args[0]),
                }
            }
        },
        _ => None,
    }
}

/// Resolves a wrapped registration argument to its configuration object, per
/// the heuristic. A wrapper call without arguments fails the heuristic.
pub fn guess_component_params<'a>(kind: ComponentType, expr: &'a JsExpr) -> (r: Option<
    &'a Vec<JsProp>,
>)
    ensures
        match r {
            Some(props) => guess_spec(kind, *expr) == Some(props@),
            None => guess_spec(kind, *expr) is None,
        },
    decreases *expr,
{
    match expr {
        JsExpr::Call { args, .. } => {
            if args.len() == 0 {
                None
            } else {
                let first = &args[0];
                match first {
                    JsExpr::Object { props } => {
                        if find_and_count_properties(kind, props) >= 2 {
                            Some(props)
                        } else {
                            None
                        }
                    },
                    _ => {
                        proof {
                            assert(decreases_to!(*expr => *first)) by {
                                assert(decreases_to!(*expr => *args));
                                assert(decreases_to!(*args => args@));
                                assert(decreases_to!(args@ => args@[0]));
                            }
                        }
                        guess_component_params(kind, first)
                    },
                }
            }
        },
        _ => None,
    }
}

/// Whether a top-level statement matches a registration rule: it must be an
/// expression statement holding a call with at least one argument and an
/// identifier callee whose name is exactly `Component` or `Page`, or ends in
/// one of those with the first argument being an object literal.
pub open spec fn stmt_rule_match(s: JsStmt) -> bool {
    match s {
        JsStmt::Expr { expr: JsExpr::Call { callee: Some(name), args } } => args.len() >= 1 && (
        name@ == "Component"@ || name@ == "Page"@ || (ends_with(name@, "Component"@) && args[0]
            is Object) || (ends_with(name@, "Page"@) && args[0] is Object)),
        _ => false,
    }
}

/// The configuration object of an exact-name registration call: a bare object
/// literal is accepted as it is; any other argument is unwrapped heuristically.
pub open spec fn exact_config(kind: ComponentType, arg0: JsExpr) -> Option<Seq<JsProp>> {
    match arg0 {
        JsExpr::Object { props } => Some(props@),
        _ => guess_spec(kind, arg0),
    }
}

/// What resolution yields for a statement that matches a rule: the kind, and
/// the configuration object when one was found. A suffix-name match succeeds
/// only when the heuristic, run on the entire outer call, accepts it.
pub open spec fn resolve_stmt(s: JsStmt) -> Option<(ComponentType, Option<Seq<JsProp>>)>
    recommends
        stmt_rule_match(s),
{
    match s {
        JsStmt::Expr { expr } => match expr {
            JsExpr::Call { callee: Some(name), args } => {
                if name@ == "Component"@ {
                    Some(
                        (
                            ComponentType::Component,
                            exact_config(ComponentType::Component, args[0]),
                        ),
                    )
                } else if name@ == "Page"@ {
                    Some((ComponentType::Page, exact_config(ComponentType::Page, args[0])))
                } else if ends_with(name@, "Component"@) {
                    match guess_spec(ComponentType::Component, expr) {
                        Some(props) => Some((ComponentType::Component, Some(props))),
                        None => None,
                    }
                } else {
                    match guess_spec(ComponentType::Page, expr) {
                        Some(props) => Some((ComponentType::Page, Some(props))),
                        None => None,
                    }
                }
            },
            _ => None,
        },
        _ => None,
    }
}

/// Resolution over a module: the first statement matching a rule decides; a
/// module without any matching statement yields no registration.
pub open spec fn resolve_module(stmts: Seq<JsStmt>) -> Option<
    (ComponentType, Option<Seq<JsProp>>),
>
    decreases stmts.len(),
{
    if stmts.len() == 0 {
        None
    } else if stmt_rule_match(stmts[0]) {
        resolve_stmt(stmts[0])
    } else {
        resolve_module(stmts.drop_first())
    }
}

/// Locates the registration call of a module and resolves its configuration
/// object. `None` means no registration was found; `Some((kind, None))` means
/// the call was classified but no configuration object could be extracted.
pub fn get_component_call<'a>(module: &'a JsModule) -> (r: Option<
    (ComponentType, Option<&'a Vec<JsProp>>),
>)
    ensures
        ({
            let m = resolve_module(module.body@);
            match r {
                None => m is None,
                Some((kind, config)) => match config {
                    None => m == Some((kind, None::<Seq<JsProp>>)),
                    Some(props) => m == Some((kind, Some(props@))),
                },
            }
        }),
{
    let mut i: usize = 0;
    proof {
        assert(module.body@.skip(0) =~= module.body@);
    }
    while i < module.body.len()
        invariant
            i <= module.body@.len(),
            resolve_module(module.body@) == resolve_module(module.body@.skip(i as int)),
        decreases module.body@.len() - i,
    {
        proof {
            assert(module.body@.skip(i as int)[0] == module.body@[i as int]);
            assert(module.body@.skip(i as int).drop_first() =~= module.body@.skip(i + 1));
        }
        let stmt = &module.body[i];
        match stmt {
            JsStmt::Expr { expr } => {
                match expr {
                    JsExpr::Call { callee, args } => {
                        if args.len() > 0 {
                            if let Some(name) = callee {
                                if str_eq_str(name.as_str(), "Component") {
                                    let arg0 = &args[0];
                                    let config = match arg0 {
                                        JsExpr::Object { props } => Some(props),
                                        _ => guess_component_params(ComponentType::Component, arg0),
                                    };
                                    return Some((ComponentType::Component, config));
                                } else if str_eq_str(name.as_str(), "Page") {
                                    let arg0 = &args[0];
                                    let config = match arg0 {
                                        JsExpr::Object { props } => Some(props),
                                        _ => guess_component_params(ComponentType::Page, arg0),
                                    };
                                    return Some((ComponentType::Page, config));
                                } else if str_ends_with(name.as_str(), "Component") {
                                    let arg0_is_object = (match &args[0] {
                                        JsExpr::Object { .. } => true,
                                        _ => false,
                                    });
                                    if arg0_is_object {
                                        return match guess_component_params(
                                            ComponentType::Component,
                                            expr,
                                        ) {
                                            Some(props) => Some(
                                                (ComponentType::Component, Some(props)),
                                            ),
                                            None => None,
                                        };
                                    }
                                } else if str_ends_with(name.as_str(), "Page") {
                                    let arg0_is_object = (match &args[0] {
                                        JsExpr::Object { .. } => true,
                                        _ => false,
                                    });
                                    if arg0_is_object {
                                        return match guess_component_params(
                                            ComponentType::Page,
                                            expr,
                                        ) {
                                            Some(props) => Some((ComponentType::Page, Some(props))),
                                            None => None,
                                        };
                                    }
                                }
                            }
                        }
                    },
                    _ => {},
                }
            },
            _ => {},
        }
        proof {
            assert(!stmt_rule_match(module.body@[i as int]));
        }
        i = i + 1;
    }
    None
}

} // verus!
