//! The versioned, serializable document schema.
//!
//! An `IRDocument` is the compiler's output and a renderer's input: one
//! root `IRComponent` tree, an optional set of reusable component
//! definitions, a logic section (named function bodies and event
//! bindings) and a manifest of declared reactive variables. Components
//! carry a closed type enumeration, a fixed set of optional typed
//! properties and an ordered list of owned children.
//!
//! Every type here has a ghost view (`ComponentView`, `DocumentView`,
//! ...) over mathematical sequences; the contracts of the constructors,
//! the builders and the JSON codec all speak in terms of these views.

use vstd::prelude::*;

verus! {

/// The version string this compiler writes.
pub open spec fn format_version_spec() -> Seq<char> {
    "3.0"@
}

/// Closed component type enumeration.
#[derive(Debug, Clone, Copy, PartialEq, Eq, Structural)]
pub enum ComponentType {
    Container,
    Row,
    Column,
    Center,
    Text,
    Button,
    Input,
    Checkbox,
    TabGroup,
    TabBar,
    Tab,
    TabContent,
    TabPanel,
    Table,
    TableRow,
    TableCell,
    Dropdown,
    Scrollable,
}

impl Default for ComponentType {
    fn default() -> (r: Self)
        ensures
            r == ComponentType::Container,
    {
        ComponentType::Container
    }
}

/// Closed alignment enumeration.
#[derive(Debug, Clone, Copy, PartialEq, Eq, Structural)]
pub enum Alignment {
    Start,
    Center,
    End,
    SpaceBetween,
    SpaceAround,
}

/// An alignment property value: either a constant alignment or a named
/// reference to a reactive variable, resolved by the renderer.
#[derive(Debug, Clone)]
pub enum AlignmentValue {
    Constant(Alignment),
    Variable { var: String },
}

/// Ghost view of an `AlignmentValue`.
#[verifier::ext_equal]
pub enum AlignmentValueView {
    Constant(Alignment),
    Variable(Seq<char>),
}

impl View for AlignmentValue {
    type V = AlignmentValueView;

    open spec fn view(&self) -> AlignmentValueView {
        match self {
            AlignmentValue::Constant(a) => AlignmentValueView::Constant(*a),
            AlignmentValue::Variable { var } => AlignmentValueView::Variable(var@),
        }
    }
}

/// An event binding in the logic section.
#[derive(Debug, Clone)]
pub struct EventBinding {
    pub component_id: u32,
    pub event_type: String,
    pub handler: String,
}

/// Ghost view of an `EventBinding`.
#[verifier::ext_equal]
pub struct EventBindingView {
    pub component_id: u32,
    pub event_type: Seq<char>,
    pub handler: Seq<char>,
}

impl View for EventBinding {
    type V = EventBindingView;

    open spec fn view(&self) -> EventBindingView {
        EventBindingView {
            component_id: self.component_id,
            event_type: self.event_type@,
            handler: self.handler@,
        }
    }
}

/// Logic section: an ordered name-to-body function map and the ordered
/// event bindings. The map keeps insertion order; a well-formed
/// section satisfies `logic_names_unique`.
#[derive(Debug, Clone)]
pub struct Logic {
    pub functions: Vec<(String, String)>,
    pub event_bindings: Vec<EventBinding>,
}

/// Ghost view of a `Logic` section.
#[verifier::ext_equal]
pub struct LogicView {
    pub functions: Seq<(Seq<char>, Seq<char>)>,
    pub event_bindings: Seq<EventBindingView>,
}

impl View for Logic {
    type V = LogicView;

    open spec fn view(&self) -> LogicView {
        LogicView {
            functions: Seq::new(
                self.functions@.len(),
                |i: int| (self.functions@[i].0@, self.functions@[i].1@),
            ),
            event_bindings: Seq::new(
                self.event_bindings@.len(),
                |i: int| self.event_bindings@[i]@,
            ),
        }
    }
}

/// A logic section's function names are pairwise distinct.
pub open spec fn logic_names_unique(l: LogicView) -> bool {
    forall|i: int, j: int|
        0 <= i < j < l.functions.len() ==> (#[trigger] l.functions[i]).0 != (
        #[trigger] l.functions[j]).0
}

impl Logic {
    /// An empty logic section.
    pub fn empty() -> (r: Self)
        ensures
            r@.functions.len() == 0,
            r@.event_bindings.len() == 0,
            logic_names_unique(r@),
    {
        Logic { functions: Vec::new(), event_bindings: Vec::new() }
    }
}

impl Default for Logic {
    fn default() -> (r: Self)
        ensures
            r@.functions.len() == 0,
            r@.event_bindings.len() == 0,
    {
        Logic::empty()
    }
}

/// A scalar initial value of a reactive variable.
#[derive(Debug, Clone)]
pub enum ScalarValue {
    Null,
    Bool(bool),
    Int(i64),
    Str(String),
}

/// Ghost view of a `ScalarValue`.
#[verifier::ext_equal]
pub enum ScalarValueView {
    Null,
    Bool(bool),
    Int(i64),
    Str(Seq<char>),
}

impl View for ScalarValue {
    type V = ScalarValueView;

    open spec fn view(&self) -> ScalarValueView {
        match self {
            ScalarValue::Null => ScalarValueView::Null,
            ScalarValue::Bool(b) => ScalarValueView::Bool(*b),
            ScalarValue::Int(n) => ScalarValueView::Int(*n),
            ScalarValue::Str(s) => ScalarValueView::Str(s@),
        }
    }
}

/// A declared reactive variable: name, declared type tag, initial value.
#[derive(Debug, Clone)]
pub struct ReactiveVariable {
    pub id: String,
    pub var_type: String,
    pub initial_value: ScalarValue,
}

/// Ghost view of a `ReactiveVariable`.
#[verifier::ext_equal]
pub struct ReactiveVariableView {
    pub id: Seq<char>,
    pub var_type: Seq<char>,
    pub initial_value: ScalarValueView,
}

impl View for ReactiveVariable {
    type V = ReactiveVariableView;

    open spec fn view(&self) -> ReactiveVariableView {
        ReactiveVariableView {
            id: self.id@,
            var_type: self.var_type@,
            initial_value: self.initial_value@,
        }
    }
}

/// Manifest of the declared reactive variables, in declaration order.
#[derive(Debug, Clone)]
pub struct ReactiveManifest {
    pub variables: Vec<ReactiveVariable>,
}

/// Ghost view of a `ReactiveManifest`.
#[verifier::ext_equal]
pub struct ReactiveManifestView {
    pub variables: Seq<ReactiveVariableView>,
}

impl View for ReactiveManifest {
    type V = ReactiveManifestView;

    open spec fn view(&self) -> ReactiveManifestView {
        ReactiveManifestView {
            variables: Seq::new(self.variables@.len(), |i: int| self.variables@[i]@),
        }
    }
}

impl ReactiveManifest {
    /// An empty manifest.
    pub fn empty() -> (r: Self)
        ensures
            r@.variables.len() == 0,
    {
        ReactiveManifest { variables: Vec::new() }
    }
}

impl Default for ReactiveManifest {
    fn default() -> (r: Self)
        ensures
            r@.variables.len() == 0,
    {
        ReactiveManifest::empty()
    }
}

/// One UI component: an identifier, a type, the optional typed
/// properties, and the ordered children.
#[derive(Debug)]
pub struct IRComponent {
    pub id: u32,
    pub component_type: ComponentType,
    pub width: Option<String>,
    pub height: Option<String>,
    pub padding: Option<u32>,
    pub margin: Option<u32>,
    pub gap: Option<u32>,
    pub justify_content: Option<AlignmentValue>,
    pub align_items: Option<AlignmentValue>,
    pub flex_grow: Option<u8>,
    pub flex_shrink: Option<u8>,
    pub background: Option<String>,
    pub color: Option<String>,
    pub opacity: Option<u32>,
    pub font_size: Option<u32>,
    pub content: Option<String>,
    pub text: Option<String>,
    pub placeholder: Option<String>,
    pub window_title: Option<String>,
    pub children: Vec<IRComponent>,
}

/// Ghost view of an `IRComponent`: the same shape over sequences.
#[verifier::ext_equal]
pub struct ComponentView {
    pub id: u32,
    pub component_type: ComponentType,
    pub width: Option<Seq<char>>,
    pub height: Option<Seq<char>>,
    pub padding: Option<u32>,
    pub margin: Option<u32>,
    pub gap: Option<u32>,
    pub justify_content: Option<AlignmentValueView>,
    pub align_items: Option<AlignmentValueView>,
    pub flex_grow: Option<u8>,
    pub flex_shrink: Option<u8>,
    pub background: Option<Seq<char>>,
    pub color: Option<Seq<char>>,
    pub opacity: Option<u32>,
    pub font_size: Option<u32>,
    pub content: Option<Seq<char>>,
    pub text: Option<Seq<char>>,
    pub placeholder: Option<Seq<char>>,
    pub window_title: Option<Seq<char>>,
    pub children: Seq<ComponentView>,
}

/// The view of an optional string.
pub open spec fn opt_str_view(o: Option<String>) -> Option<Seq<char>> {
    match o {
        Option::None => Option::None,
        Option::Some(s) => Option::Some(s@),
    }
}

/// The view of an optional alignment value.
pub open spec fn opt_align_view(o: Option<AlignmentValue>) -> Option<AlignmentValueView> {
    match o {
        Option::None => Option::None,
        Option::Some(a) => Option::Some(a@),
    }
}

/// Recursive view of a component tree.
pub open spec fn comp_view(c: IRComponent) -> ComponentView
    decreases c,
{
    ComponentView {
        id: c.id,
        component_type: c.component_type,
        width: opt_str_view(c.width),
        height: opt_str_view(c.height),
        padding: c.padding,
        margin: c.margin,
        gap: c.gap,
        justify_content: opt_align_view(c.justify_content),
        align_items: opt_align_view(c.align_items),
        flex_grow: c.flex_grow,
        flex_shrink: c.flex_shrink,
        background: opt_str_view(c.background),
        color: opt_str_view(c.color),
        opacity: c.opacity,
        font_size: c.font_size,
        content: opt_str_view(c.content),
        text: opt_str_view(c.text),
        placeholder: opt_str_view(c.placeholder),
        window_title: opt_str_view(c.window_title),
        children: comp_seq_view(c.children@),
    }
}

/// Recursive view of a sequence of components.
pub open spec fn comp_seq_view(s: Seq<IRComponent>) -> Seq<ComponentView>
    decreases s,
{
    if s.len() == 0 {
        Seq::empty()
    } else {
        seq![comp_view(s[0])] + comp_seq_view(s.drop_first())
    }
}

/// `comp_seq_view` maps the sequence pointwise.
pub proof fn lemma_comp_seq_view_index(s: Seq<IRComponent>, i: int)
    requires
        0 <= i < s.len(),
    ensures
        comp_seq_view(s).len() == s.len(),
        comp_seq_view(s)[i] == comp_view(s[i]),
    decreases s.len(),
{
    lemma_comp_seq_view_len(s);
    if i > 0 {
        lemma_comp_seq_view_index(s.drop_first(), i - 1);
    }
}

/// `comp_seq_view` keeps the length.
pub proof fn lemma_comp_seq_view_len(s: Seq<IRComponent>)
    ensures
        comp_seq_view(s).len() == s.len(),
    decreases s.len(),
{
    if s.len() > 0 {
        lemma_comp_seq_view_len(s.drop_first());
    }
}

/// Pushing a component onto a sequence pushes its view.
pub proof fn lemma_comp_seq_view_push(s: Seq<IRComponent>, c: IRComponent)
    ensures
        comp_seq_view(s.push(c)) == comp_seq_view(s).push(comp_view(c)),
{
    lemma_comp_seq_view_len(s);
    lemma_comp_seq_view_len(s.push(c));
    assert forall|i: int| 0 <= i < s.len() + 1 implies comp_seq_view(s.push(c))[i]
        == comp_seq_view(s).push(comp_view(c))[i] by {
        lemma_comp_seq_view_index(s.push(c), i);
        if i < s.len() {
            lemma_comp_seq_view_index(s, i);
            assert(s.push(c)[i] == s[i]);
        } else {
            assert(s.push(c)[i] == c);
        }
    }
    assert(comp_seq_view(s.push(c)) =~= comp_seq_view(s).push(comp_view(c)));
}

impl View for IRComponent {
    type V = ComponentView;

    open spec fn view(&self) -> ComponentView {
        comp_view(*self)
    }
}

/// A reusable component template.
#[derive(Debug)]
pub struct ComponentDefinition {
    pub name: String,
    pub template: IRComponent,
}

/// Ghost view of a `ComponentDefinition`.
#[verifier::ext_equal]
pub struct ComponentDefinitionView {
    pub name: Seq<char>,
    pub template: ComponentView,
}

impl View for ComponentDefinition {
    type V = ComponentDefinitionView;

    open spec fn view(&self) -> ComponentDefinitionView {
        ComponentDefinitionView { name: self.name@, template: self.template@ }
    }
}

/// A whole document: format version, optional reusable definitions, one
/// root component, the logic section and the reactive manifest.
#[derive(Debug)]
pub struct IRDocument {
    pub format_version: String,
    pub component_definitions: Vec<ComponentDefinition>,
    pub root: IRComponent,
    pub logic: Logic,
    pub reactive_manifest: ReactiveManifest,
}

/// Ghost view of an `IRDocument`.
#[verifier::ext_equal]
pub struct DocumentView {
    pub format_version: Seq<char>,
    pub component_definitions: Seq<ComponentDefinitionView>,
    pub root: ComponentView,
    pub logic: LogicView,
    pub reactive_manifest: ReactiveManifestView,
}

impl View for IRDocument {
    type V = DocumentView;

    open spec fn view(&self) -> DocumentView {
        DocumentView {
            format_version: self.format_version@,
            component_definitions: Seq::new(
                self.component_definitions@.len(),
                |i: int| self.component_definitions@[i]@,
            ),
            root: self.root@,
            logic: self.logic@,
            reactive_manifest: self.reactive_manifest@,
        }
    }
}

impl IRDocument {
    /// Wrap a root component into a fresh document carrying the version
    /// this compiler writes, no definitions, empty logic and an empty
    /// reactive manifest.
    pub fn new(root: IRComponent) -> (d: Self)
        ensures
            d@.format_version == format_version_spec(),
            d@.component_definitions.len() == 0,
            d@.root == root@,
            d@.logic.functions.len() == 0,
            d@.logic.event_bindings.len() == 0,
            d@.reactive_manifest.variables.len() == 0,
    {
        let fv: &str = "3.0";
        proof {
            reveal_strlit("3.0");
        }
        IRDocument {
            format_version: fv.to_owned(),
            component_definitions: Vec::new(),
            root,
            logic: Logic::empty(),
            reactive_manifest: ReactiveManifest::empty(),
        }
    }
}

/// The view of a component with every optional property absent and no
/// children.
pub open spec fn bare_component_view(component_type: ComponentType, id: u32) -> ComponentView {
    ComponentView {
        id,
        component_type,
        width: Option::None,
        height: Option::None,
        padding: Option::None,
        margin: Option::None,
        gap: Option::None,
        justify_content: Option::None,
        align_items: Option::None,
        flex_grow: Option::None,
        flex_shrink: Option::None,
        background: Option::None,
        color: Option::None,
        opacity: Option::None,
        font_size: Option::None,
        content: Option::None,
        text: Option::None,
        placeholder: Option::None,
        window_title: Option::None,
        children: Seq::empty(),
    }
}

impl IRComponent {
    /// A component of the given type and identifier with every optional
    /// property absent and no children.
    pub fn new(component_type: ComponentType, id: u32) -> (c: Self)
        ensures
            c@ == bare_component_view(component_type, id),
    {
        let c = IRComponent {
            id,
            component_type,
            width: None,
            height: None,
            padding: None,
            margin: None,
            gap: None,
            justify_content: None,
            align_items: None,
            flex_grow: None,
            flex_shrink: None,
            background: None,
            color: None,
            opacity: None,
            font_size: None,
            content: None,
            text: None,
            placeholder: None,
            window_title: None,
            children: Vec::new(),
        };
        proof {
            assert(c.children@ =~= Seq::<IRComponent>::empty());
            assert(c@ == bare_component_view(component_type, id));
        }
        c
    }

    /// Append a child; everything else is unchanged.
    pub fn add_child(&mut self, child: IRComponent)
        ensures
            final(self)@ == (ComponentView {
                children: old(self)@.children.push(child@),
                ..old(self)@
            }),
    {
        proof {
            lemma_comp_seq_view_push(self.children@, child);
        }
        self.children.push(child);
    }

    /// Set the width, consuming and returning the component.
    pub fn with_width(self, width: String) -> (c: Self)
        ensures
            c@ == (ComponentView { width: Option::Some(width@), ..self@ }),
    {
        IRComponent { width: Some(width), ..self }
    }

    /// Set the height.
    pub fn with_height(self, height: String) -> (c: Self)
        ensures
            c@ == (ComponentView { height: Option::Some(height@), ..self@ }),
    {
        IRComponent { height: Some(height), ..self }
    }

    /// Set the background color string.
    pub fn with_background(self, color: String) -> (c: Self)
        ensures
            c@ == (ComponentView { background: Option::Some(color@), ..self@ }),
    {
        IRComponent { background: Some(color), ..self }
    }

    /// Set the text color string.
    pub fn with_color(self, color: String) -> (c: Self)
        ensures
            c@ == (ComponentView { color: Option::Some(color@), ..self@ }),
    {
        IRComponent { color: Some(color), ..self }
    }

    /// Set the padding.
    pub fn with_padding(self, padding: u32) -> (c: Self)
        ensures
            c@ == (ComponentView { padding: Option::Some(padding), ..self@ }),
    {
        IRComponent { padding: Some(padding), ..self }
    }

    /// Set the gap.
    pub fn with_gap(self, gap: u32) -> (c: Self)
        ensures
            c@ == (ComponentView { gap: Option::Some(gap), ..self@ }),
    {
        IRComponent { gap: Some(gap), ..self }
    }

    /// Set the content (for text components).
    pub fn with_content(self, content: String) -> (c: Self)
        ensures
            c@ == (ComponentView { content: Option::Some(content@), ..self@ }),
    {
        IRComponent { content: Some(content), ..self }
    }

    /// Set the text (for button components).
    pub fn with_text(self, text: String) -> (c: Self)
        ensures
            c@ == (ComponentView { text: Option::Some(text@), ..self@ }),
    {
        IRComponent { text: Some(text), ..self }
    }
}

} // verus!
