//! The data model: metadata entities extracted from script and stylesheet
//! sources, each carrying a source location and, where present, the leading
//! documentation comment.

use vstd::prelude::*;

verus! {

/// The kind of a registration call: a reusable `Component` or a `Page`.
#[derive(Debug, Clone, Copy, PartialEq, Eq, Structural)]
pub enum ComponentType {
    Component,
    Page,
}

/// A 1-based line together with a 0-based character column, counted in
/// Unicode scalar values from the start of the line.
#[derive(Debug, Clone, Copy, PartialEq, Eq, Structural)]
pub struct Position {
    pub line: usize,
    pub column: usize,
}

/// A half-open source span. The all-zero span denotes "unset".
#[derive(Debug, Clone, Copy, PartialEq, Eq, Structural)]
pub struct Location {
    pub start: Position,
    pub end: Position,
}

/// The all-zero location that denotes "unset".
pub open spec fn unset_loc() -> Location {
    Location { start: Position { line: 0, column: 0 }, end: Position { line: 0, column: 0 } }
}

impl Location {
    /// The "unset" location.
    pub fn default() -> (r: Self)
        ensures
            r == unset_loc(),
    {
        Location { start: Position { line: 0, column: 0 }, end: Position { line: 0, column: 0 } }
    }

    /// Builds a location from `[line, column]` pairs for start and end.
    pub fn from(start: [usize; 2], end: [usize; 2]) -> (r: Self)
        ensures
            r == (Location {
                start: Position { line: start@[0], column: start@[1] },
                end: Position { line: end@[0], column: end@[1] },
            }),
    {
        Location {
            start: Position { line: start[0], column: start[1] },
            end: Position { line: end[0], column: end[1] },
        }
    }
}

/// One key of the `data` configuration tree. `children` is present (possibly
/// empty) exactly when the key's value was itself an object literal.
#[derive(Debug)]
pub struct DataMeta {
    pub name: String,
    pub comment: Option<String>,
    pub loc: Location,
    pub children: Option<Vec<DataMeta>>,
}

impl DataMeta {
    fn default() -> (r: Self)
        ensures
            r.name@ == Seq::<char>::empty(),
            r.comment is None,
            r.loc == unset_loc(),
            r.children is None,
    {
        DataMeta {
            name: String::new(),
            comment: Option::None,
            loc: Location::default(),
            children: Option::None,
        }
    }

    /// A data entry with the given name and every other field unset.
    pub fn new(name: String) -> (r: Self)
        ensures
            r.name == name,
            r.comment is None,
            r.loc == unset_loc(),
            r.children is None,
    {
        let mut instance = Self::default();
        instance.name = name;
        instance
    }
}

/// The literal value of a property's `value` sub-key. A numeric literal is
/// carried as its decimal text.
#[derive(Debug, Clone, PartialEq, Eq)]
pub enum PropertyValue {
    String(String),
    Number(String),
    Boolean(bool),
}

/// One key of the `properties` configuration object.
#[derive(Debug, Clone)]
pub struct PropertyMeta {
    pub name: String,
    pub prop_type: String,
    pub value: Option<PropertyValue>,
    pub comment: Option<String>,
    pub loc: Location,
}

impl PropertyMeta {
    fn default() -> (r: Self)
        ensures
            r.name@ == Seq::<char>::empty(),
            r.prop_type@ == Seq::<char>::empty(),
            r.value is None,
            r.comment is None,
            r.loc == unset_loc(),
    {
        PropertyMeta {
            name: String::new(),
            prop_type: String::new(),
            value: Option::None,
            comment: Option::None,
            loc: Location::default(),
        }
    }

    /// A property entry with the given name and every other field unset.
    pub fn new(name: String) -> (r: Self)
        ensures
            r.name == name,
            r.prop_type@ == Seq::<char>::empty(),
            r.value is None,
            r.comment is None,
            r.loc == unset_loc(),
    {
        let mut instance = Self::default();
        instance.name = name;
        instance
    }
}

/// One function-valued key of a configuration object.
#[derive(Debug, Clone)]
pub struct MethodMeta {
    pub name: String,
    pub comment: Option<String>,
    pub loc: Location,
}

impl MethodMeta {
    fn default() -> (r: Self)
        ensures
            r.name@ == Seq::<char>::empty(),
            r.comment is None,
            r.loc == unset_loc(),
    {
        MethodMeta { name: String::new(), comment: Option::None, loc: Location::default() }
    }

    /// A method entry with the given name and every other field unset.
    pub fn new(name: String) -> (r: Self)
        ensures
            r.name == name,
            r.comment is None,
            r.loc == unset_loc(),
    {
        let mut instance = Self::default();
        instance.name = name;
        instance
    }
}

/// One event emission found by the text scan, named after the emitted event.
#[derive(Debug, Clone)]
pub struct EventMeta {
    pub name: String,
    pub comment: Option<String>,
    pub loc: Location,
}

impl EventMeta {
    fn default() -> (r: Self)
        ensures
            r.name@ == Seq::<char>::empty(),
            r.comment is None,
            r.loc == unset_loc(),
    {
        EventMeta { name: String::new(), comment: Option::None, loc: Location::default() }
    }

    /// An event entry with the given name and every other field unset.
    pub fn new(name: String) -> (r: Self)
        ensures
            r.name == name,
            r.comment is None,
            r.loc == unset_loc(),
    {
        let mut instance = Self::default();
        instance.name = name;
        instance
    }
}

/// Everything extracted from one script file. `events` is populated only for
/// the `Component` kind; `properties` is always empty for the `Page` kind.
#[derive(Debug)]
pub struct ComponentMeta {
    pub kind: ComponentType,
    pub data: Vec<DataMeta>,
    pub properties: Vec<PropertyMeta>,
    pub methods: Vec<MethodMeta>,
    pub events: Option<Vec<EventMeta>>,
}

impl ComponentMeta {
    /// A metadata record of the given kind with every collection empty.
    pub fn new(kind: ComponentType) -> (r: Self)
        ensures
            r.kind == kind,
            r.data@ == Seq::<DataMeta>::empty(),
            r.properties@ == Seq::<PropertyMeta>::empty(),
            r.methods@ == Seq::<MethodMeta>::empty(),
            r.events is None,
    {
        ComponentMeta {
            kind,
            data: Vec::new(),
            properties: Vec::new(),
            methods: Vec::new(),
            events: None,
        }
    }
}

/// One class selector found in a stylesheet.
#[derive(Debug, Clone)]
pub struct CssClassMeta {
    pub name: String,
    pub loc: Location,
}

impl CssClassMeta {
    fn default() -> (r: Self)
        ensures
            r.name@ == Seq::<char>::empty(),
            r.loc == unset_loc(),
    {
        CssClassMeta { name: String::new(), loc: Location::default() }
    }

    /// A class entry with the given name and an unset location.
    pub fn new(name: String) -> (r: Self)
        ensures
            r.name == name,
            r.loc == unset_loc(),
    {
        let mut instance = Self::default();
        instance.name = name;
        instance
    }
}

/// Everything extracted from one stylesheet: its class selectors and, when
/// import resolution ran, the absolute paths of the stylesheets it imports.
#[derive(Debug, Clone)]
pub struct CssMeta {
    pub classes: Vec<CssClassMeta>,
    pub imports: Option<Vec<String>>,
}

impl CssMeta {
    /// A stylesheet record with the given classes and no import list.
    pub fn new(classes: Vec<CssClassMeta>) -> (r: Self)
        ensures
            r.classes == classes,
            r.imports is None,
    {
        CssMeta { classes, imports: None }
    }
}

/// The mathematical view of an optional owned string.
pub open spec fn view_opt_str(s: Option<String>) -> Option<Seq<char>> {
    match s {
        Some(x) => Some(x@),
        None => None,
    }
}

/// The mathematical view of a `DataMeta`.
pub struct DataRec {
    pub name: Seq<char>,
    pub comment: Option<Seq<char>>,
    pub loc: Location,
    pub children: Option<Seq<DataRec>>,
}

/// The mathematical view of a `PropertyValue`.
pub enum PropValueRec {
    String(Seq<char>),
    Number(Seq<char>),
    Boolean(bool),
}

/// The mathematical view of a `PropertyMeta`.
pub struct PropertyRec {
    pub name: Seq<char>,
    pub prop_type: Seq<char>,
    pub value: Option<PropValueRec>,
    pub comment: Option<Seq<char>>,
    pub loc: Location,
}

/// The mathematical view of a `MethodMeta` or an `EventMeta`.
pub struct NamedRec {
    pub name: Seq<char>,
    pub comment: Option<Seq<char>>,
    pub loc: Location,
}

/// The mathematical view of a `CssClassMeta`.
pub struct CssClassRec {
    pub name: Seq<char>,
    pub loc: Location,
}

pub open spec fn data_rec(d: DataMeta) -> DataRec
    decreases d,
{
    DataRec {
        name: d.name@,
        comment: view_opt_str(d.comment),
        loc: d.loc,
        children: match d.children {
            Some(v) => Some(data_recs(v@)),
            None => None,
        },
    }
}

pub open spec fn data_recs(s: Seq<DataMeta>) -> Seq<DataRec>
    decreases s,
{
    if s.len() == 0 {
        Seq::empty()
    } else {
        seq![data_rec(s[0])] + data_recs(s.drop_first())
    }
}

pub proof fn lemma_data_recs_push(s: Seq<DataMeta>, d: DataMeta)
    ensures
        data_recs(s.push(d)) == data_recs(s).push(data_rec(d)),
    decreases s.len(),
{
    if s.len() == 0 {
        assert(s.push(d).drop_first() =~= Seq::<DataMeta>::empty());
        assert(s.push(d)[0] == d);
        assert(data_recs(s.push(d)) == seq![data_rec(d)] + data_recs(Seq::<DataMeta>::empty()));
        assert(data_recs(s.push(d)) =~= data_recs(s).push(data_rec(d)));
    } else {
        assert(s.push(d).drop_first() =~= s.drop_first().push(d));
        lemma_data_recs_push(s.drop_first(), d);
        assert(s.push(d)[0] == s[0]);
        assert(data_recs(s.push(d)) == seq![data_rec(s[0])] + data_recs(s.drop_first()).push(
            data_rec(d),
        ));
        assert(seq![data_rec(s[0])] + data_recs(s.drop_first()).push(data_rec(d)) =~= (seq![
            data_rec(s[0]),
        ] + data_recs(s.drop_first())).push(data_rec(d)));
    }
}

pub open spec fn prop_value_rec(v: PropertyValue) -> PropValueRec {
    match v {
        PropertyValue::String(s) => PropValueRec::String(s@),
        PropertyValue::Number(t) => PropValueRec::Number(t@),
        PropertyValue::Boolean(b) => PropValueRec::Boolean(b),
    }
}

pub open spec fn property_rec(p: PropertyMeta) -> PropertyRec {
    PropertyRec {
        name: p.name@,
        prop_type: p.prop_type@,
        value: match p.value {
            Some(v) => Some(prop_value_rec(v)),
            None => None,
        },
        comment: view_opt_str(p.comment),
        loc: p.loc,
    }
}

pub open spec fn method_rec(m: MethodMeta) -> NamedRec {
    NamedRec { name: m.name@, comment: view_opt_str(m.comment), loc: m.loc }
}

pub open spec fn event_rec(e: EventMeta) -> NamedRec {
    NamedRec { name: e.name@, comment: view_opt_str(e.comment), loc: e.loc }
}

pub open spec fn css_class_rec(c: CssClassMeta) -> CssClassRec {
    CssClassRec { name: c.name@, loc: c.loc }
}

pub open spec fn property_recs(s: Seq<PropertyMeta>) -> Seq<PropertyRec> {
    s.map_values(|p: PropertyMeta| property_rec(p))
}

pub open spec fn method_recs(s: Seq<MethodMeta>) -> Seq<NamedRec> {
    s.map_values(|m: MethodMeta| method_rec(m))
}

pub open spec fn event_recs(s: Seq<EventMeta>) -> Seq<NamedRec> {
    s.map_values(|e: EventMeta| event_rec(e))
}

pub open spec fn css_class_recs(s: Seq<CssClassMeta>) -> Seq<CssClassRec> {
    s.map_values(|c: CssClassMeta| css_class_rec(c))
}

/// The mathematical view of a `ComponentMeta`.
pub struct ComponentRec {
    pub kind: ComponentType,
    pub data: Seq<DataRec>,
    pub properties: Seq<PropertyRec>,
    pub methods: Seq<NamedRec>,
    pub events: Option<Seq<NamedRec>>,
}

pub open spec fn component_rec(c: ComponentMeta) -> ComponentRec {
    ComponentRec {
        kind: c.kind,
        data: data_recs(c.data@),
        properties: property_recs(c.properties@),
        methods: method_recs(c.methods@),
        events: match c.events {
            Some(v) => Some(event_recs(v@)),
            None => None,
        },
    }
}

} // verus!
