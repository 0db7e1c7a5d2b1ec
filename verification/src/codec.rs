//! The document codec: between the IR schema and JSON text.
//!
//! A document serializes in one canonical shape: the struct fields in
//! schema order, absent optional fields omitted, empty definition and
//! children lists omitted, multi-word keys in camel case. Reading is
//! defensive where the schema allows it — a document without a logic
//! section or a reactive manifest gets the empty default — and strict
//! everywhere else: a missing required field, an unknown enumeration
//! value or a value of the wrong type is an error, never a silent
//! coercion. Serializing and then deserializing restores every field
//! exactly: `lemma_document_round_trip`.

use vstd::prelude::*;
use crate::ir::{Alignment, AlignmentValue, AlignmentValueView, ComponentDefinition,
    ComponentDefinitionView, ComponentType, ComponentView, DocumentView, EventBinding,
    EventBindingView, IRComponent, IRDocument, Logic, LogicView, ReactiveManifest,
    ReactiveManifestView, ReactiveVariable, ReactiveVariableView, ScalarValue, ScalarValueView};
use crate::json::{JsonVal, JsonValue};

verus! {

/// The wire name of a component type: the variant name itself.
pub open spec fn ct_name(ct: ComponentType) -> Seq<char> {
    match ct {
        ComponentType::Container => "Container"@,
        ComponentType::Row => "Row"@,
        ComponentType::Column => "Column"@,
        ComponentType::Center => "Center"@,
        ComponentType::Text => "Text"@,
        ComponentType::Button => "Button"@,
        ComponentType::Input => "Input"@,
        ComponentType::Checkbox => "Checkbox"@,
        ComponentType::TabGroup => "TabGroup"@,
        ComponentType::TabBar => "TabBar"@,
        ComponentType::Tab => "Tab"@,
        ComponentType::TabContent => "TabContent"@,
        ComponentType::TabPanel => "TabPanel"@,
        ComponentType::Table => "Table"@,
        ComponentType::TableRow => "TableRow"@,
        ComponentType::TableCell => "TableCell"@,
        ComponentType::Dropdown => "Dropdown"@,
        ComponentType::Scrollable => "Scrollable"@,
    }
}

/// The component type a wire name stands for; unknown names are
/// rejected.
pub open spec fn ct_of_name(s: Seq<char>) -> Option<ComponentType> {
    if s == "Container"@ {
        Some(ComponentType::Container)
    } else if s == "Row"@ {
        Some(ComponentType::Row)
    } else if s == "Column"@ {
        Some(ComponentType::Column)
    } else if s == "Center"@ {
        Some(ComponentType::Center)
    } else if s == "Text"@ {
        Some(ComponentType::Text)
    } else if s == "Button"@ {
        Some(ComponentType::Button)
    } else if s == "Input"@ {
        Some(ComponentType::Input)
    } else if s == "Checkbox"@ {
        Some(ComponentType::Checkbox)
    } else if s == "TabGroup"@ {
        Some(ComponentType::TabGroup)
    } else if s == "TabBar"@ {
        Some(ComponentType::TabBar)
    } else if s == "Tab"@ {
        Some(ComponentType::Tab)
    } else if s == "TabContent"@ {
        Some(ComponentType::TabContent)
    } else if s == "TabPanel"@ {
        Some(ComponentType::TabPanel)
    } else if s == "Table"@ {
        Some(ComponentType::Table)
    } else if s == "TableRow"@ {
        Some(ComponentType::TableRow)
    } else if s == "TableCell"@ {
        Some(ComponentType::TableCell)
    } else if s == "Dropdown"@ {
        Some(ComponentType::Dropdown)
    } else if s == "Scrollable"@ {
        Some(ComponentType::Scrollable)
    } else {
        None
    }
}

/// Reading back a written type name yields the type.
pub proof fn lemma_type_name_round(ct: ComponentType)
    ensures
        ct_of_name(ct_name(ct)) == Some(ct),
{
    reveal_strlit("Container");
    reveal_strlit("Row");
    reveal_strlit("Column");
    reveal_strlit("Center");
    reveal_strlit("Text");
    reveal_strlit("Button");
    reveal_strlit("Input");
    reveal_strlit("Checkbox");
    reveal_strlit("TabGroup");
    reveal_strlit("TabBar");
    reveal_strlit("Tab");
    reveal_strlit("TabContent");
    reveal_strlit("TabPanel");
    reveal_strlit("Table");
    reveal_strlit("TableRow");
    reveal_strlit("TableCell");
    reveal_strlit("Dropdown");
    reveal_strlit("Scrollable");
    assert("Container"@ =~= seq!['C', 'o', 'n', 't', 'a', 'i', 'n', 'e', 'r']);
    assert("Row"@ =~= seq!['R', 'o', 'w']);
    assert("Column"@ =~= seq!['C', 'o', 'l', 'u', 'm', 'n']);
    assert("Center"@ =~= seq!['C', 'e', 'n', 't', 'e', 'r']);
    assert("Text"@ =~= seq!['T', 'e', 'x', 't']);
    assert("Button"@ =~= seq!['B', 'u', 't', 't', 'o', 'n']);
    assert("Input"@ =~= seq!['I', 'n', 'p', 'u', 't']);
    assert("Checkbox"@ =~= seq!['C', 'h', 'e', 'c', 'k', 'b', 'o', 'x']);
    assert("TabGroup"@ =~= seq!['T', 'a', 'b', 'G', 'r', 'o', 'u', 'p']);
    assert("TabBar"@ =~= seq!['T', 'a', 'b', 'B', 'a', 'r']);
    assert("Tab"@ =~= seq!['T', 'a', 'b']);
    assert("TabContent"@ =~= seq!['T', 'a', 'b', 'C', 'o', 'n', 't', 'e', 'n', 't']);
    assert("TabPanel"@ =~= seq!['T', 'a', 'b', 'P', 'a', 'n', 'e', 'l']);
    assert("Table"@ =~= seq!['T', 'a', 'b', 'l', 'e']);
    assert("TableRow"@ =~= seq!['T', 'a', 'b', 'l', 'e', 'R', 'o', 'w']);
    assert("TableCell"@ =~= seq!['T', 'a', 'b', 'l', 'e', 'C', 'e', 'l', 'l']);
    assert("Dropdown"@ =~= seq!['D', 'r', 'o', 'p', 'd', 'o', 'w', 'n']);
    assert("Scrollable"@ =~= seq!['S', 'c', 'r', 'o', 'l', 'l', 'a', 'b', 'l', 'e']);
}

/// Write a component type's wire name.
fn ct_name_of(ct: &ComponentType) -> (r: String)
    ensures
        r@ == ct_name(*ct),
{
    match ct {
        ComponentType::Container => String::from_str("Container"),
        ComponentType::Row => String::from_str("Row"),
        ComponentType::Column => String::from_str("Column"),
        ComponentType::Center => String::from_str("Center"),
        ComponentType::Text => String::from_str("Text"),
        ComponentType::Button => String::from_str("Button"),
        ComponentType::Input => String::from_str("Input"),
        ComponentType::Checkbox => String::from_str("Checkbox"),
        ComponentType::TabGroup => String::from_str("TabGroup"),
        ComponentType::TabBar => String::from_str("TabBar"),
        ComponentType::Tab => String::from_str("Tab"),
        ComponentType::TabContent => String::from_str("TabContent"),
        ComponentType::TabPanel => String::from_str("TabPanel"),
        ComponentType::Table => String::from_str("Table"),
        ComponentType::TableRow => String::from_str("TableRow"),
        ComponentType::TableCell => String::from_str("TableCell"),
        ComponentType::Dropdown => String::from_str("Dropdown"),
        ComponentType::Scrollable => String::from_str("Scrollable"),
    }
}

/// Read a component type from its wire name.
fn ct_from_name(s: &String) -> (r: Option<ComponentType>)
    ensures
        r == ct_of_name(s@),
{
    if s.eq(&String::from_str("Container")) {
        Some(ComponentType::Container)
    } else if s.eq(&String::from_str("Row")) {
        Some(ComponentType::Row)
    } else if s.eq(&String::from_str("Column")) {
        Some(ComponentType::Column)
    } else if s.eq(&String::from_str("Center")) {
        Some(ComponentType::Center)
    } else if s.eq(&String::from_str("Text")) {
        Some(ComponentType::Text)
    } else if s.eq(&String::from_str("Button")) {
        Some(ComponentType::Button)
    } else if s.eq(&String::from_str("Input")) {
        Some(ComponentType::Input)
    } else if s.eq(&String::from_str("Checkbox")) {
        Some(ComponentType::Checkbox)
    } else if s.eq(&String::from_str("TabGroup")) {
        Some(ComponentType::TabGroup)
    } else if s.eq(&String::from_str("TabBar")) {
        Some(ComponentType::TabBar)
    } else if s.eq(&String::from_str("Tab")) {
        Some(ComponentType::Tab)
    } else if s.eq(&String::from_str("TabContent")) {
        Some(ComponentType::TabContent)
    } else if s.eq(&String::from_str("TabPanel")) {
        Some(ComponentType::TabPanel)
    } else if s.eq(&String::from_str("Table")) {
        Some(ComponentType::Table)
    } else if s.eq(&String::from_str("TableRow")) {
        Some(ComponentType::TableRow)
    } else if s.eq(&String::from_str("TableCell")) {
        Some(ComponentType::TableCell)
    } else if s.eq(&String::from_str("Dropdown")) {
        Some(ComponentType::Dropdown)
    } else if s.eq(&String::from_str("Scrollable")) {
        Some(ComponentType::Scrollable)
    } else {
        None
    }
}

/// The wire name of an alignment constant.
pub open spec fn align_name(a: Alignment) -> Seq<char> {
    match a {
        Alignment::Start => "start"@,
        Alignment::Center => "center"@,
        Alignment::End => "end"@,
        Alignment::SpaceBetween => "space-between"@,
        Alignment::SpaceAround => "space-around"@,
    }
}

/// The JSON shape of an alignment value: a constant as its name, a
/// variable reference as an object with one `var` member.
pub open spec fn align_to_jv(av: AlignmentValueView) -> JsonVal {
    match av {
        AlignmentValueView::Constant(a) => JsonVal::Str(align_name(a)),
        AlignmentValueView::Variable(s) => JsonVal::Obj(seq![("var"@, JsonVal::Str(s))]),
    }
}

/// Read an alignment value back from its JSON shape.
pub open spec fn jv_to_align(j: JsonVal) -> Option<AlignmentValueView> {
    match j {
        JsonVal::Str(s) => match crate::codegen::alignment_of(s) {
            Some(a) => Some(AlignmentValueView::Constant(a)),
            None => None,
        },
        JsonVal::Obj(ms) => if ms.len() == 1 && ms[0].0 == "var"@ {
            match ms[0].1 {
                JsonVal::Str(s) => Some(AlignmentValueView::Variable(s)),
                _ => None,
            }
        } else {
            None
        },
        _ => None,
    }
}

/// Reading back a written alignment value yields the value.
pub proof fn lemma_align_round(av: AlignmentValueView)
    ensures
        jv_to_align(align_to_jv(av)) == Some(av),
{
    reveal_strlit("start");
    reveal_strlit("center");
    reveal_strlit("end");
    reveal_strlit("space-between");
    reveal_strlit("space-around");
    assert("start"@ =~= seq!['s', 't', 'a', 'r', 't']);
    assert("center"@ =~= seq!['c', 'e', 'n', 't', 'e', 'r']);
    assert("end"@ =~= seq!['e', 'n', 'd']);
    assert("space-between"@ =~= seq![
        's', 'p', 'a', 'c', 'e', '-', 'b', 'e', 't', 'w', 'e', 'e', 'n',
    ]);
    assert("space-around"@ =~= seq![
        's', 'p', 'a', 'c', 'e', '-', 'a', 'r', 'o', 'u', 'n', 'd',
    ]);
    match av {
        AlignmentValueView::Constant(a) => {
            assert(crate::codegen::alignment_of(align_name(a)) == Some(a));
        },
        AlignmentValueView::Variable(s) => {
        },
    }
}

/// The JSON shape of a scalar initial value.
pub open spec fn scalar_to_jv(v: ScalarValueView) -> JsonVal {
    match v {
        ScalarValueView::Null => JsonVal::Null,
        ScalarValueView::Bool(b) => JsonVal::Bool(b),
        ScalarValueView::Int(n) => JsonVal::Int(n),
        ScalarValueView::Str(s) => JsonVal::Str(s),
    }
}

/// Read a scalar initial value back. Nested structures are not scalar
/// values and are rejected.
pub open spec fn jv_to_scalar(j: JsonVal) -> Option<ScalarValueView> {
    match j {
        JsonVal::Null => Some(ScalarValueView::Null),
        JsonVal::Bool(b) => Some(ScalarValueView::Bool(b)),
        JsonVal::Int(n) => Some(ScalarValueView::Int(n)),
        JsonVal::Str(s) => Some(ScalarValueView::Str(s)),
        _ => None,
    }
}

/// Reading back a written scalar yields the scalar.
pub proof fn lemma_scalar_round(v: ScalarValueView)
    ensures
        jv_to_scalar(scalar_to_jv(v)) == Some(v),
{
}

/// One optional string member.
pub open spec fn m_str(k: Seq<char>, o: Option<Seq<char>>) -> Seq<(Seq<char>, JsonVal)> {
    match o {
        Some(s) => seq![(k, JsonVal::Str(s))],
        None => Seq::empty(),
    }
}

/// One optional numeric member.
pub open spec fn m_u32(k: Seq<char>, o: Option<u32>) -> Seq<(Seq<char>, JsonVal)> {
    match o {
        Some(n) => seq![(k, JsonVal::Int(n as i64))],
        None => Seq::empty(),
    }
}

/// One optional small numeric member.
pub open spec fn m_u8(k: Seq<char>, o: Option<u8>) -> Seq<(Seq<char>, JsonVal)> {
    match o {
        Some(n) => seq![(k, JsonVal::Int(n as i64))],
        None => Seq::empty(),
    }
}

/// One optional alignment member.
pub open spec fn m_align(k: Seq<char>, o: Option<AlignmentValueView>) -> Seq<(Seq<char>, JsonVal)> {
    match o {
        Some(av) => seq![(k, align_to_jv(av))],
        None => Seq::empty(),
    }
}

/// The members from the `width` field on.
pub open spec fn sfx_width(c: ComponentView) -> Seq<(Seq<char>, JsonVal)>
    decreases c, 19int,
{
    m_str("width"@, c.width) + sfx_height(c)
}

/// The members from the `height` field on.
pub open spec fn sfx_height(c: ComponentView) -> Seq<(Seq<char>, JsonVal)>
    decreases c, 18int,
{
    m_str("height"@, c.height) + sfx_padding(c)
}

/// The members from the `padding` field on.
pub open spec fn sfx_padding(c: ComponentView) -> Seq<(Seq<char>, JsonVal)>
    decreases c, 17int,
{
    m_u32("padding"@, c.padding) + sfx_margin(c)
}

/// The members from the `margin` field on.
pub open spec fn sfx_margin(c: ComponentView) -> Seq<(Seq<char>, JsonVal)>
    decreases c, 16int,
{
    m_u32("margin"@, c.margin) + sfx_gap(c)
}

/// The members from the `gap` field on.
pub open spec fn sfx_gap(c: ComponentView) -> Seq<(Seq<char>, JsonVal)>
    decreases c, 15int,
{
    m_u32("gap"@, c.gap) + sfx_justify_content(c)
}

/// The members from the `justifyContent` field on.
pub open spec fn sfx_justify_content(c: ComponentView) -> Seq<(Seq<char>, JsonVal)>
    decreases c, 14int,
{
    m_align("justifyContent"@, c.justify_content) + sfx_align_items(c)
}

/// The members from the `alignItems` field on.
pub open spec fn sfx_align_items(c: ComponentView) -> Seq<(Seq<char>, JsonVal)>
    decreases c, 13int,
{
    m_align("alignItems"@, c.align_items) + sfx_flex_grow(c)
}

/// The members from the `flexGrow` field on.
pub open spec fn sfx_flex_grow(c: ComponentView) -> Seq<(Seq<char>, JsonVal)>
    decreases c, 12int,
{
    m_u8("flexGrow"@, c.flex_grow) + sfx_flex_shrink(c)
}

/// The members from the `flexShrink` field on.
pub open spec fn sfx_flex_shrink(c: ComponentView) -> Seq<(Seq<char>, JsonVal)>
    decreases c, 11int,
{
    m_u8("flexShrink"@, c.flex_shrink) + sfx_background(c)
}

/// The members from the `background` field on.
pub open spec fn sfx_background(c: ComponentView) -> Seq<(Seq<char>, JsonVal)>
    decreases c, 10int,
{
    m_str("background"@, c.background) + sfx_color(c)
}

/// The members from the `color` field on.
pub open spec fn sfx_color(c: ComponentView) -> Seq<(Seq<char>, JsonVal)>
    decreases c, 9int,
{
    m_str("color"@, c.color) + sfx_opacity(c)
}

/// The members from the `opacity` field on.
pub open spec fn sfx_opacity(c: ComponentView) -> Seq<(Seq<char>, JsonVal)>
    decreases c, 8int,
{
    m_u32("opacity"@, c.opacity) + sfx_font_size(c)
}

/// The members from the `fontSize` field on.
pub open spec fn sfx_font_size(c: ComponentView) -> Seq<(Seq<char>, JsonVal)>
    decreases c, 7int,
{
    m_u32("fontSize"@, c.font_size) + sfx_content(c)
}

/// The members from the `content` field on.
pub open spec fn sfx_content(c: ComponentView) -> Seq<(Seq<char>, JsonVal)>
    decreases c, 6int,
{
    m_str("content"@, c.content) + sfx_text(c)
}

/// The members from the `text` field on.
pub open spec fn sfx_text(c: ComponentView) -> Seq<(Seq<char>, JsonVal)>
    decreases c, 5int,
{
    m_str("text"@, c.text) + sfx_placeholder(c)
}

/// The members from the `placeholder` field on.
pub open spec fn sfx_placeholder(c: ComponentView) -> Seq<(Seq<char>, JsonVal)>
    decreases c, 4int,
{
    m_str("placeholder"@, c.placeholder) + sfx_window_title(c)
}

/// The members from the `windowTitle` field on.
pub open spec fn sfx_window_title(c: ComponentView) -> Seq<(Seq<char>, JsonVal)>
    decreases c, 3int,
{
    m_str("windowTitle"@, c.window_title) + sfx_children(c)
}

/// The children member, omitted when there are no children.
pub open spec fn sfx_children(c: ComponentView) -> Seq<(Seq<char>, JsonVal)>
    decreases c, 2int,
{
    if c.children.len() == 0 {
        Seq::empty()
    } else {
        seq![("children"@, JsonVal::Arr(comps_to_jv(c.children)))]
    }
}

/// The full member list of a component.
pub open spec fn comp_members(c: ComponentView) -> Seq<(Seq<char>, JsonVal)>
    decreases c, 24int,
{
    seq![("id"@, JsonVal::Int(c.id as i64)), ("type"@, JsonVal::Str(ct_name(c.component_type)))] + m_str("width"@, c.width) + m_str("height"@, c.height) + m_u32("padding"@, c.padding) + m_u32("margin"@, c.margin) + m_u32("gap"@, c.gap) + m_align("justifyContent"@, c.justify_content) + m_align("alignItems"@, c.align_items) + m_u8("flexGrow"@, c.flex_grow) + m_u8("flexShrink"@, c.flex_shrink) + m_str("background"@, c.background) + m_str("color"@, c.color) + m_u32("opacity"@, c.opacity) + m_u32("fontSize"@, c.font_size) + m_str("content"@, c.content) + m_str("text"@, c.text) + m_str("placeholder"@, c.placeholder) + m_str("windowTitle"@, c.window_title) + sfx_children(c)
}

/// The member list regrouped as the suffix chain that the decoder
/// walks.
pub proof fn lemma_comp_members_sfx(c: ComponentView)
    ensures
        comp_members(c) == seq![
            ("id"@, JsonVal::Int(c.id as i64)),
            ("type"@, JsonVal::Str(ct_name(c.component_type))),
        ] + sfx_width(c),
{
    let head = seq![
        ("id"@, JsonVal::Int(c.id as i64)),
        ("type"@, JsonVal::Str(ct_name(c.component_type))),
    ];
    vstd::seq_lib::lemma_concat_associative(head, m_str("width"@, c.width), sfx_height(c));
    vstd::seq_lib::lemma_concat_associative((head + m_str("width"@, c.width)), m_str("height"@, c.height), sfx_padding(c));
    vstd::seq_lib::lemma_concat_associative(((head + m_str("width"@, c.width)) + m_str("height"@, c.height)), m_u32("padding"@, c.padding), sfx_margin(c));
    vstd::seq_lib::lemma_concat_associative((((head + m_str("width"@, c.width)) + m_str("height"@, c.height)) + m_u32("padding"@, c.padding)), m_u32("margin"@, c.margin), sfx_gap(c));
    vstd::seq_lib::lemma_concat_associative(((((head + m_str("width"@, c.width)) + m_str("height"@, c.height)) + m_u32("padding"@, c.padding)) + m_u32("margin"@, c.margin)), m_u32("gap"@, c.gap), sfx_justify_content(c));
    vstd::seq_lib::lemma_concat_associative((((((head + m_str("width"@, c.width)) + m_str("height"@, c.height)) + m_u32("padding"@, c.padding)) + m_u32("margin"@, c.margin)) + m_u32("gap"@, c.gap)), m_align("justifyContent"@, c.justify_content), sfx_align_items(c));
    vstd::seq_lib::lemma_concat_associative(((((((head + m_str("width"@, c.width)) + m_str("height"@, c.height)) + m_u32("padding"@, c.padding)) + m_u32("margin"@, c.margin)) + m_u32("gap"@, c.gap)) + m_align("justifyContent"@, c.justify_content)), m_align("alignItems"@, c.align_items), sfx_flex_grow(c));
    vstd::seq_lib::lemma_concat_associative((((((((head + m_str("width"@, c.width)) + m_str("height"@, c.height)) + m_u32("padding"@, c.padding)) + m_u32("margin"@, c.margin)) + m_u32("gap"@, c.gap)) + m_align("justifyContent"@, c.justify_content)) + m_align("alignItems"@, c.align_items)), m_u8("flexGrow"@, c.flex_grow), sfx_flex_shrink(c));
    vstd::seq_lib::lemma_concat_associative(((((((((head + m_str("width"@, c.width)) + m_str("height"@, c.height)) + m_u32("padding"@, c.padding)) + m_u32("margin"@, c.margin)) + m_u32("gap"@, c.gap)) + m_align("justifyContent"@, c.justify_content)) + m_align("alignItems"@, c.align_items)) + m_u8("flexGrow"@, c.flex_grow)), m_u8("flexShrink"@, c.flex_shrink), sfx_background(c));
    vstd::seq_lib::lemma_concat_associative((((((((((head + m_str("width"@, c.width)) + m_str("height"@, c.height)) + m_u32("padding"@, c.padding)) + m_u32("margin"@, c.margin)) + m_u32("gap"@, c.gap)) + m_align("justifyContent"@, c.justify_content)) + m_align("alignItems"@, c.align_items)) + m_u8("flexGrow"@, c.flex_grow)) + m_u8("flexShrink"@, c.flex_shrink)), m_str("background"@, c.background), sfx_color(c));
    vstd::seq_lib::lemma_concat_associative(((((((((((head + m_str("width"@, c.width)) + m_str("height"@, c.height)) + m_u32("padding"@, c.padding)) + m_u32("margin"@, c.margin)) + m_u32("gap"@, c.gap)) + m_align("justifyContent"@, c.justify_content)) + m_align("alignItems"@, c.align_items)) + m_u8("flexGrow"@, c.flex_grow)) + m_u8("flexShrink"@, c.flex_shrink)) + m_str("background"@, c.background)), m_str("color"@, c.color), sfx_opacity(c));
    vstd::seq_lib::lemma_concat_associative((((((((((((head + m_str("width"@, c.width)) + m_str("height"@, c.height)) + m_u32("padding"@, c.padding)) + m_u32("margin"@, c.margin)) + m_u32("gap"@, c.gap)) + m_align("justifyContent"@, c.justify_content)) + m_align("alignItems"@, c.align_items)) + m_u8("flexGrow"@, c.flex_grow)) + m_u8("flexShrink"@, c.flex_shrink)) + m_str("background"@, c.background)) + m_str("color"@, c.color)), m_u32("opacity"@, c.opacity), sfx_font_size(c));
    vstd::seq_lib::lemma_concat_associative(((((((((((((head + m_str("width"@, c.width)) + m_str("height"@, c.height)) + m_u32("padding"@, c.padding)) + m_u32("margin"@, c.margin)) + m_u32("gap"@, c.gap)) + m_align("justifyContent"@, c.justify_content)) + m_align("alignItems"@, c.align_items)) + m_u8("flexGrow"@, c.flex_grow)) + m_u8("flexShrink"@, c.flex_shrink)) + m_str("background"@, c.background)) + m_str("color"@, c.color)) + m_u32("opacity"@, c.opacity)), m_u32("fontSize"@, c.font_size), sfx_content(c));
    vstd::seq_lib::lemma_concat_associative((((((((((((((head + m_str("width"@, c.width)) + m_str("height"@, c.height)) + m_u32("padding"@, c.padding)) + m_u32("margin"@, c.margin)) + m_u32("gap"@, c.gap)) + m_align("justifyContent"@, c.justify_content)) + m_align("alignItems"@, c.align_items)) + m_u8("flexGrow"@, c.flex_grow)) + m_u8("flexShrink"@, c.flex_shrink)) + m_str("background"@, c.background)) + m_str("color"@, c.color)) + m_u32("opacity"@, c.opacity)) + m_u32("fontSize"@, c.font_size)), m_str("content"@, c.content), sfx_text(c));
    vstd::seq_lib::lemma_concat_associative(((((((((((((((head + m_str("width"@, c.width)) + m_str("height"@, c.height)) + m_u32("padding"@, c.padding)) + m_u32("margin"@, c.margin)) + m_u32("gap"@, c.gap)) + m_align("justifyContent"@, c.justify_content)) + m_align("alignItems"@, c.align_items)) + m_u8("flexGrow"@, c.flex_grow)) + m_u8("flexShrink"@, c.flex_shrink)) + m_str("background"@, c.background)) + m_str("color"@, c.color)) + m_u32("opacity"@, c.opacity)) + m_u32("fontSize"@, c.font_size)) + m_str("content"@, c.content)), m_str("text"@, c.text), sfx_placeholder(c));
    vstd::seq_lib::lemma_concat_associative((((((((((((((((head + m_str("width"@, c.width)) + m_str("height"@, c.height)) + m_u32("padding"@, c.padding)) + m_u32("margin"@, c.margin)) + m_u32("gap"@, c.gap)) + m_align("justifyContent"@, c.justify_content)) + m_align("alignItems"@, c.align_items)) + m_u8("flexGrow"@, c.flex_grow)) + m_u8("flexShrink"@, c.flex_shrink)) + m_str("background"@, c.background)) + m_str("color"@, c.color)) + m_u32("opacity"@, c.opacity)) + m_u32("fontSize"@, c.font_size)) + m_str("content"@, c.content)) + m_str("text"@, c.text)), m_str("placeholder"@, c.placeholder), sfx_window_title(c));
    vstd::seq_lib::lemma_concat_associative(((((((((((((((((head + m_str("width"@, c.width)) + m_str("height"@, c.height)) + m_u32("padding"@, c.padding)) + m_u32("margin"@, c.margin)) + m_u32("gap"@, c.gap)) + m_align("justifyContent"@, c.justify_content)) + m_align("alignItems"@, c.align_items)) + m_u8("flexGrow"@, c.flex_grow)) + m_u8("flexShrink"@, c.flex_shrink)) + m_str("background"@, c.background)) + m_str("color"@, c.color)) + m_u32("opacity"@, c.opacity)) + m_u32("fontSize"@, c.font_size)) + m_str("content"@, c.content)) + m_str("text"@, c.text)) + m_str("placeholder"@, c.placeholder)), m_str("windowTitle"@, c.window_title), sfx_children(c));
}

/// The JSON shape of a component.
pub open spec fn comp_to_jv(c: ComponentView) -> JsonVal
    decreases c, 25int,
{
    JsonVal::Obj(comp_members(c))
}

/// The JSON shapes of a child list.
pub open spec fn comps_to_jv(cs: Seq<ComponentView>) -> Seq<JsonVal>
    decreases cs, 26int,
{
    if cs.len() == 0 {
        Seq::empty()
    } else {
        seq![comp_to_jv(cs[0])] + comps_to_jv(cs.drop_first())
    }
}

/// Peel one optional string member at `i`.
pub open spec fn peel_str(ms: Seq<(Seq<char>, JsonVal)>, i: int, k: Seq<char>) -> Option<
    (Option<Seq<char>>, int),
> {
    if 0 <= i < ms.len() && ms[i].0 == k {
        match ms[i].1 {
            JsonVal::Str(s) => Some((Some(s), i + 1)),
            _ => None,
        }
    } else {
        Some((None, i))
    }
}

/// Peel one optional numeric member at `i`.
pub open spec fn peel_u32(ms: Seq<(Seq<char>, JsonVal)>, i: int, k: Seq<char>) -> Option<
    (Option<u32>, int),
> {
    if 0 <= i < ms.len() && ms[i].0 == k {
        match ms[i].1 {
            JsonVal::Int(n) => if 0 <= n <= u32::MAX {
                Some((Some(n as u32), i + 1))
            } else {
                None
            },
            _ => None,
        }
    } else {
        Some((None, i))
    }
}

/// Peel one optional small numeric member at `i`.
pub open spec fn peel_u8(ms: Seq<(Seq<char>, JsonVal)>, i: int, k: Seq<char>) -> Option<
    (Option<u8>, int),
> {
    if 0 <= i < ms.len() && ms[i].0 == k {
        match ms[i].1 {
            JsonVal::Int(n) => if 0 <= n <= 255 {
                Some((Some(n as u8), i + 1))
            } else {
                None
            },
            _ => None,
        }
    } else {
        Some((None, i))
    }
}

/// Peel one optional alignment member at `i`.
pub open spec fn peel_align(ms: Seq<(Seq<char>, JsonVal)>, i: int, k: Seq<char>) -> Option<
    (Option<AlignmentValueView>, int),
> {
    if 0 <= i < ms.len() && ms[i].0 == k {
        match jv_to_align(ms[i].1) {
            Some(av) => Some((Some(av), i + 1)),
            None => None,
        }
    } else {
        Some((None, i))
    }
}

/// Decode the `width` field, then the rest.
pub open spec fn dec_width(ms: Seq<(Seq<char>, JsonVal)>, i: int, c: ComponentView) -> Option<
    ComponentView,
>
    decreases ms, 22int,
{
    match peel_str(ms, i, "width"@) {
        None => None,
        Some((v, i2)) => dec_height(ms, i2, ComponentView { width: v, ..c }),
    }
}

/// Decode the `height` field, then the rest.
pub open spec fn dec_height(ms: Seq<(Seq<char>, JsonVal)>, i: int, c: ComponentView) -> Option<
    ComponentView,
>
    decreases ms, 21int,
{
    match peel_str(ms, i, "height"@) {
        None => None,
        Some((v, i2)) => dec_padding(ms, i2, ComponentView { height: v, ..c }),
    }
}

/// Decode the `padding` field, then the rest.
pub open spec fn dec_padding(ms: Seq<(Seq<char>, JsonVal)>, i: int, c: ComponentView) -> Option<
    ComponentView,
>
    decreases ms, 20int,
{
    match peel_u32(ms, i, "padding"@) {
        None => None,
        Some((v, i2)) => dec_margin(ms, i2, ComponentView { padding: v, ..c }),
    }
}

/// Decode the `margin` field, then the rest.
pub open spec fn dec_margin(ms: Seq<(Seq<char>, JsonVal)>, i: int, c: ComponentView) -> Option<
    ComponentView,
>
    decreases ms, 19int,
{
    match peel_u32(ms, i, "margin"@) {
        None => None,
        Some((v, i2)) => dec_gap(ms, i2, ComponentView { margin: v, ..c }),
    }
}

/// Decode the `gap` field, then the rest.
pub open spec fn dec_gap(ms: Seq<(Seq<char>, JsonVal)>, i: int, c: ComponentView) -> Option<
    ComponentView,
>
    decreases ms, 18int,
{
    match peel_u32(ms, i, "gap"@) {
        None => None,
        Some((v, i2)) => dec_justify_content(ms, i2, ComponentView { gap: v, ..c }),
    }
}

/// Decode the `justifyContent` field, then the rest.
pub open spec fn dec_justify_content(ms: Seq<(Seq<char>, JsonVal)>, i: int, c: ComponentView) -> Option<
    ComponentView,
>
    decreases ms, 17int,
{
    match peel_align(ms, i, "justifyContent"@) {
        None => None,
        Some((v, i2)) => dec_align_items(ms, i2, ComponentView { justify_content: v, ..c }),
    }
}

/// Decode the `alignItems` field, then the rest.
pub open spec fn dec_align_items(ms: Seq<(Seq<char>, JsonVal)>, i: int, c: ComponentView) -> Option<
    ComponentView,
>
    decreases ms, 16int,
{
    match peel_align(ms, i, "alignItems"@) {
        None => None,
        Some((v, i2)) => dec_flex_grow(ms, i2, ComponentView { align_items: v, ..c }),
    }
}

/// Decode the `flexGrow` field, then the rest.
pub open spec fn dec_flex_grow(ms: Seq<(Seq<char>, JsonVal)>, i: int, c: ComponentView) -> Option<
    ComponentView,
>
    decreases ms, 15int,
{
    match peel_u8(ms, i, "flexGrow"@) {
        None => None,
        Some((v, i2)) => dec_flex_shrink(ms, i2, ComponentView { flex_grow: v, ..c }),
    }
}

/// Decode the `flexShrink` field, then the rest.
pub open spec fn dec_flex_shrink(ms: Seq<(Seq<char>, JsonVal)>, i: int, c: ComponentView) -> Option<
    ComponentView,
>
    decreases ms, 14int,
{
    match peel_u8(ms, i, "flexShrink"@) {
        None => None,
        Some((v, i2)) => dec_background(ms, i2, ComponentView { flex_shrink: v, ..c }),
    }
}

/// Decode the `background` field, then the rest.
pub open spec fn dec_background(ms: Seq<(Seq<char>, JsonVal)>, i: int, c: ComponentView) -> Option<
    ComponentView,
>
    decreases ms, 13int,
{
    match peel_str(ms, i, "background"@) {
        None => None,
        Some((v, i2)) => dec_color(ms, i2, ComponentView { background: v, ..c }),
    }
}

/// Decode the `color` field, then the rest.
pub open spec fn dec_color(ms: Seq<(Seq<char>, JsonVal)>, i: int, c: ComponentView) -> Option<
    ComponentView,
>
    decreases ms, 12int,
{
    match peel_str(ms, i, "color"@) {
        None => None,
        Some((v, i2)) => dec_opacity(ms, i2, ComponentView { color: v, ..c }),
    }
}

/// Decode the `opacity` field, then the rest.
pub open spec fn dec_opacity(ms: Seq<(Seq<char>, JsonVal)>, i: int, c: ComponentView) -> Option<
    ComponentView,
>
    decreases ms, 11int,
{
    match peel_u32(ms, i, "opacity"@) {
        None => None,
        Some((v, i2)) => dec_font_size(ms, i2, ComponentView { opacity: v, ..c }),
    }
}

/// Decode the `fontSize` field, then the rest.
pub open spec fn dec_font_size(ms: Seq<(Seq<char>, JsonVal)>, i: int, c: ComponentView) -> Option<
    ComponentView,
>
    decreases ms, 10int,
{
    match peel_u32(ms, i, "fontSize"@) {
        None => None,
        Some((v, i2)) => dec_content(ms, i2, ComponentView { font_size: v, ..c }),
    }
}

/// Decode the `content` field, then the rest.
pub open spec fn dec_content(ms: Seq<(Seq<char>, JsonVal)>, i: int, c: ComponentView) -> Option<
    ComponentView,
>
    decreases ms, 9int,
{
    match peel_str(ms, i, "content"@) {
        None => None,
        Some((v, i2)) => dec_text(ms, i2, ComponentView { content: v, ..c }),
    }
}

/// Decode the `text` field, then the rest.
pub open spec fn dec_text(ms: Seq<(Seq<char>, JsonVal)>, i: int, c: ComponentView) -> Option<
    ComponentView,
>
    decreases ms, 8int,
{
    match peel_str(ms, i, "text"@) {
        None => None,
        Some((v, i2)) => dec_placeholder(ms, i2, ComponentView { text: v, ..c }),
    }
}

/// Decode the `placeholder` field, then the rest.
pub open spec fn dec_placeholder(ms: Seq<(Seq<char>, JsonVal)>, i: int, c: ComponentView) -> Option<
    ComponentView,
>
    decreases ms, 7int,
{
    match peel_str(ms, i, "placeholder"@) {
        None => None,
        Some((v, i2)) => dec_window_title(ms, i2, ComponentView { placeholder: v, ..c }),
    }
}

/// Decode the `windowTitle` field, then the rest.
pub open spec fn dec_window_title(ms: Seq<(Seq<char>, JsonVal)>, i: int, c: ComponentView) -> Option<
    ComponentView,
>
    decreases ms, 6int,
{
    match peel_str(ms, i, "windowTitle"@) {
        None => None,
        Some((v, i2)) => dec_children(ms, i2, ComponentView { window_title: v, ..c }),
    }
}

/// Decode the children member and require the member list to end.
pub open spec fn dec_children(ms: Seq<(Seq<char>, JsonVal)>, i: int, c: ComponentView) -> Option<
    ComponentView,
>
    decreases ms, 5int,
{
    if 0 <= i < ms.len() && ms[i].0 == "children"@ {
        match ms[i].1 {
            JsonVal::Arr(items) => if i + 1 == ms.len() {
                match jvs_to_comps(items) {
                    Some(kids) => Some(ComponentView { children: kids, ..c }),
                    None => None,
                }
            } else {
                None
            },
            _ => None,
        }
    } else if i == ms.len() {
        Some(c)
    } else {
        None
    }
}

/// Decode one component from its JSON shape: the required identifier
/// and type first, then the optional fields in schema order, then the
/// children.
pub open spec fn jv_to_comp(j: JsonVal) -> Option<ComponentView>
    decreases j, 26int,
{
    match j {
        JsonVal::Obj(ms) => {
            if ms.len() >= 2 && ms[0].0 == "id"@ && ms[1].0 == "type"@ {
                match (ms[0].1, ms[1].1) {
                    (JsonVal::Int(n), JsonVal::Str(tn)) => {
                        if 0 <= n <= u32::MAX {
                            match ct_of_name(tn) {
                                Some(ct) => dec_width(
                                    ms,
                                    2,
                                    crate::ir::bare_component_view(ct, n as u32),
                                ),
                                None => None,
                            }
                        } else {
                            None
                        }
                    },
                    _ => None,
                }
            } else {
                None
            }
        },
        _ => None,
    }
}

/// Decode a child list: every entry must be a component.
pub open spec fn jvs_to_comps(js: Seq<JsonVal>) -> Option<Seq<ComponentView>>
    decreases js, 27int,
{
    if js.len() == 0 {
        Some(Seq::empty())
    } else {
        match jv_to_comp(js[0]) {
            None => None,
            Some(c) => match jvs_to_comps(js.drop_first()) {
                None => None,
                Some(rest) => Some(seq![c] + rest),
            },
        }
    }
}

/// The JSON shape of an event binding.
pub open spec fn binding_to_jv(b: EventBindingView) -> JsonVal {
    JsonVal::Obj(
        seq![
            ("component_id"@, JsonVal::Int(b.component_id as i64)),
            ("event_type"@, JsonVal::Str(b.event_type)),
            ("handler"@, JsonVal::Str(b.handler)),
        ],
    )
}

/// Read an event binding back.
pub open spec fn jv_to_binding(j: JsonVal) -> Option<EventBindingView> {
    match j {
        JsonVal::Obj(ms) => {
            if ms.len() == 3 && ms[0].0 == "component_id"@ && ms[1].0 == "event_type"@
                && ms[2].0 == "handler"@ {
                match (ms[0].1, ms[1].1, ms[2].1) {
                    (JsonVal::Int(n), JsonVal::Str(et), JsonVal::Str(h)) => if 0 <= n
                        <= u32::MAX {
                        Some(
                            EventBindingView {
                                component_id: n as u32,
                                event_type: et,
                                handler: h,
                            },
                        )
                    } else {
                        None
                    },
                    _ => None,
                }
            } else {
                None
            }
        },
        _ => None,
    }
}

/// The JSON members of the function map, in insertion order.
pub open spec fn pairs_to_jv(ps: Seq<(Seq<char>, Seq<char>)>) -> Seq<(Seq<char>, JsonVal)>
    decreases ps,
{
    if ps.len() == 0 {
        Seq::empty()
    } else {
        seq![(ps[0].0, JsonVal::Str(ps[0].1))] + pairs_to_jv(ps.drop_first())
    }
}

/// Read the function map back: every member value must be a string.
pub open spec fn jv_to_pairs(ms: Seq<(Seq<char>, JsonVal)>) -> Option<
    Seq<(Seq<char>, Seq<char>)>,
>
    decreases ms,
{
    if ms.len() == 0 {
        Some(Seq::empty())
    } else {
        match ms[0].1 {
            JsonVal::Str(body) => match jv_to_pairs(ms.drop_first()) {
                Some(rest) => Some(seq![(ms[0].0, body)] + rest),
                None => None,
            },
            _ => None,
        }
    }
}

/// The JSON shapes of the event binding list.
pub open spec fn bindings_to_jv(bs: Seq<EventBindingView>) -> Seq<JsonVal>
    decreases bs,
{
    if bs.len() == 0 {
        Seq::empty()
    } else {
        seq![binding_to_jv(bs[0])] + bindings_to_jv(bs.drop_first())
    }
}

/// Read the event binding list back.
pub open spec fn jvs_to_bindings(js: Seq<JsonVal>) -> Option<Seq<EventBindingView>>
    decreases js,
{
    if js.len() == 0 {
        Some(Seq::empty())
    } else {
        match jv_to_binding(js[0]) {
            None => None,
            Some(b) => match jvs_to_bindings(js.drop_first()) {
                None => None,
                Some(rest) => Some(seq![b] + rest),
            },
        }
    }
}

/// The JSON shape of the logic section.
pub open spec fn logic_to_jv(l: LogicView) -> JsonVal {
    JsonVal::Obj(
        seq![
            ("functions"@, JsonVal::Obj(pairs_to_jv(l.functions))),
            ("event_bindings"@, JsonVal::Arr(bindings_to_jv(l.event_bindings))),
        ],
    )
}

/// Read the logic section back.
pub open spec fn jv_to_logic(j: JsonVal) -> Option<LogicView> {
    match j {
        JsonVal::Obj(ms) => {
            if ms.len() == 2 && ms[0].0 == "functions"@ && ms[1].0 == "event_bindings"@ {
                match (ms[0].1, ms[1].1) {
                    (JsonVal::Obj(fms), JsonVal::Arr(bjs)) => match (
                        jv_to_pairs(fms),
                        jvs_to_bindings(bjs),
                    ) {
                        (Some(ps), Some(bs)) => Some(
                            LogicView { functions: ps, event_bindings: bs },
                        ),
                        _ => None,
                    },
                    _ => None,
                }
            } else {
                None
            }
        },
        _ => None,
    }
}

/// The JSON shape of one reactive variable.
pub open spec fn var_to_jv(v: ReactiveVariableView) -> JsonVal {
    JsonVal::Obj(
        seq![
            ("id"@, JsonVal::Str(v.id)),
            ("var_type"@, JsonVal::Str(v.var_type)),
            ("initial_value"@, scalar_to_jv(v.initial_value)),
        ],
    )
}

/// Read one reactive variable back.
pub open spec fn jv_to_var(j: JsonVal) -> Option<ReactiveVariableView> {
    match j {
        JsonVal::Obj(ms) => {
            if ms.len() == 3 && ms[0].0 == "id"@ && ms[1].0 == "var_type"@ && ms[2].0
                == "initial_value"@ {
                match (ms[0].1, ms[1].1) {
                    (JsonVal::Str(id), JsonVal::Str(vt)) => match jv_to_scalar(ms[2].1) {
                        Some(iv) => Some(
                            ReactiveVariableView { id, var_type: vt, initial_value: iv },
                        ),
                        None => None,
                    },
                    _ => None,
                }
            } else {
                None
            }
        },
        _ => None,
    }
}

/// The JSON shapes of the variable list.
pub open spec fn vars_to_jv(vs: Seq<ReactiveVariableView>) -> Seq<JsonVal>
    decreases vs,
{
    if vs.len() == 0 {
        Seq::empty()
    } else {
        seq![var_to_jv(vs[0])] + vars_to_jv(vs.drop_first())
    }
}

/// Read the variable list back.
pub open spec fn jvs_to_vars(js: Seq<JsonVal>) -> Option<Seq<ReactiveVariableView>>
    decreases js,
{
    if js.len() == 0 {
        Some(Seq::empty())
    } else {
        match jv_to_var(js[0]) {
            None => None,
            Some(v) => match jvs_to_vars(js.drop_first()) {
                None => None,
                Some(rest) => Some(seq![v] + rest),
            },
        }
    }
}

/// The JSON shape of the reactive manifest.
pub open spec fn manifest_to_jv(m: ReactiveManifestView) -> JsonVal {
    JsonVal::Obj(seq![("variables"@, JsonVal::Arr(vars_to_jv(m.variables)))])
}

/// Read the reactive manifest back.
pub open spec fn jv_to_manifest(j: JsonVal) -> Option<ReactiveManifestView> {
    match j {
        JsonVal::Obj(ms) => {
            if ms.len() == 1 && ms[0].0 == "variables"@ {
                match ms[0].1 {
                    JsonVal::Arr(vjs) => match jvs_to_vars(vjs) {
                        Some(vs) => Some(ReactiveManifestView { variables: vs }),
                        None => None,
                    },
                    _ => None,
                }
            } else {
                None
            }
        },
        _ => None,
    }
}

/// The JSON shape of one component definition.
pub open spec fn def_to_jv(d: ComponentDefinitionView) -> JsonVal
    decreases d, 30int,
{
    JsonVal::Obj(
        seq![("name"@, JsonVal::Str(d.name)), ("template"@, comp_to_jv(d.template))],
    )
}

/// Read one component definition back.
pub open spec fn jv_to_def(j: JsonVal) -> Option<ComponentDefinitionView>
    decreases j, 30int,
{
    match j {
        JsonVal::Obj(ms) => {
            if ms.len() == 2 && ms[0].0 == "name"@ && ms[1].0 == "template"@ {
                match ms[0].1 {
                    JsonVal::Str(name) => match jv_to_comp(ms[1].1) {
                        Some(t) => Some(ComponentDefinitionView { name, template: t }),
                        None => None,
                    },
                    _ => None,
                }
            } else {
                None
            }
        },
        _ => None,
    }
}

/// The JSON shapes of the definition list.
pub open spec fn defs_to_jv(ds: Seq<ComponentDefinitionView>) -> Seq<JsonVal>
    decreases ds, 31int,
{
    if ds.len() == 0 {
        Seq::empty()
    } else {
        seq![def_to_jv(ds[0])] + defs_to_jv(ds.drop_first())
    }
}

/// Read the definition list back.
pub open spec fn jvs_to_defs(js: Seq<JsonVal>) -> Option<Seq<ComponentDefinitionView>>
    decreases js, 31int,
{
    if js.len() == 0 {
        Some(Seq::empty())
    } else {
        match jv_to_def(js[0]) {
            None => None,
            Some(d) => match jvs_to_defs(js.drop_first()) {
                None => None,
                Some(rest) => Some(seq![d] + rest),
            },
        }
    }
}

/// The full member list of a document: the version, the definitions
/// when there are any, the root, the logic section and the reactive
/// manifest.
pub open spec fn doc_members(d: DocumentView) -> Seq<(Seq<char>, JsonVal)> {
    seq![("format_version"@, JsonVal::Str(d.format_version))] + (if d.component_definitions.len()
        == 0 {
        Seq::empty()
    } else {
        seq![("component_definitions"@, JsonVal::Arr(defs_to_jv(d.component_definitions)))]
    }) + seq![
        ("root"@, comp_to_jv(d.root)),
        ("logic"@, logic_to_jv(d.logic)),
        ("reactive_manifest"@, manifest_to_jv(d.reactive_manifest)),
    ]
}

/// The JSON shape of a whole document.
pub open spec fn doc_to_jv(d: DocumentView) -> JsonVal {
    JsonVal::Obj(doc_members(d))
}

/// The empty logic section.
pub open spec fn empty_logic_view() -> LogicView {
    LogicView { functions: Seq::empty(), event_bindings: Seq::empty() }
}

/// The empty reactive manifest.
pub open spec fn empty_manifest_view() -> ReactiveManifestView {
    ReactiveManifestView { variables: Seq::empty() }
}

/// Read a whole document back: the version and the root are required,
/// the definition list defaults to empty, and a document missing the
/// logic section or the reactive manifest gets the empty default.
pub open spec fn jv_to_doc(j: JsonVal) -> Option<DocumentView>
    decreases j, 40int,
{
    match j {
        JsonVal::Obj(ms) => {
            if ms.len() >= 1 && ms[0].0 == "format_version"@ {
                match ms[0].1 {
                    JsonVal::Str(fv) => {
                        let (defs, i1): (Option<Seq<ComponentDefinitionView>>, int) = if 1
                            < ms.len() && ms[1].0 == "component_definitions"@ {
                            match ms[1].1 {
                                JsonVal::Arr(djs) => (jvs_to_defs(djs), 2),
                                _ => (None, 2),
                            }
                        } else {
                            (Some(Seq::empty()), 1)
                        };
                        match defs {
                            None => None,
                            Some(ds) => {
                                if i1 < ms.len() && ms[i1].0 == "root"@ {
                                    match jv_to_comp(ms[i1].1) {
                                        None => None,
                                        Some(root) => {
                                            let (lg, i2): (Option<LogicView>, int) = if i1 + 1
                                                < ms.len() && ms[i1 + 1].0 == "logic"@ {
                                                (jv_to_logic(ms[i1 + 1].1), i1 + 2)
                                            } else {
                                                (Some(empty_logic_view()), i1 + 1)
                                            };
                                            match lg {
                                                None => None,
                                                Some(lgv) => {
                                                    let (mf, i3): (
                                                        Option<ReactiveManifestView>,
                                                        int,
                                                    ) = if i2 < ms.len() && ms[i2].0
                                                        == "reactive_manifest"@ {
                                                        (jv_to_manifest(ms[i2].1), i2 + 1)
                                                    } else {
                                                        (Some(empty_manifest_view()), i2)
                                                    };
                                                    match mf {
                                                        None => None,
                                                        Some(mfv) => if i3 == ms.len() {
                                                            Some(
                                                                DocumentView {
                                                                    format_version: fv,
                                                                    component_definitions: ds,
                                                                    root,
                                                                    logic: lgv,
                                                                    reactive_manifest: mfv,
                                                                },
                                                            )
                                                        } else {
                                                            None
                                                        },
                                                    }
                                                },
                                            }
                                        },
                                    }
                                } else {
                                    None
                                }
                            },
                        }
                    },
                    _ => None,
                }
            } else {
                None
            }
        },
        _ => None,
    }
}

/// Write one alignment value.
fn encode_align(av: &AlignmentValue) -> (r: JsonValue)
    ensures
        r@ == align_to_jv(av@),
{
    match av {
        AlignmentValue::Constant(a) => {
            let name = match a {
                Alignment::Start => String::from_str("start"),
                Alignment::Center => String::from_str("center"),
                Alignment::End => String::from_str("end"),
                Alignment::SpaceBetween => String::from_str("space-between"),
                Alignment::SpaceAround => String::from_str("space-around"),
            };
            JsonValue::Str(name)
        },
        AlignmentValue::Variable { var } => {
            let mut ms: Vec<(String, JsonValue)> = Vec::new();
            let m = (String::from_str("var"), JsonValue::Str(var.clone()));
            proof {
                assert(crate::json::jm_seq_view(ms@) =~= Seq::<(Seq<char>, JsonVal)>::empty());
                crate::json::lemma_jm_seq_view_push(ms@, m);
            }
            ms.push(m);
            proof {
                assert(crate::json::jm_seq_view(ms@) =~= seq![("var"@, JsonVal::Str(var@))]);
            }
            JsonValue::Obj(ms)
        },
    }
}

/// Read one alignment value back.
fn decode_align(j: &JsonValue) -> (r: Option<AlignmentValue>)
    ensures
        match r {
            Some(av) => jv_to_align(j@) == Some(av@),
            None => jv_to_align(j@) is None,
        },
{
    match j {
        JsonValue::Str(s) => match crate::codegen::parse_alignment(s) {
            Some(a) => Some(AlignmentValue::Constant(a)),
            None => None,
        },
        JsonValue::Obj(ms) => {
            if ms.len() == 1 {
                proof {
                    crate::json::lemma_jm_seq_view_index(ms@, 0);
                }
                if ms[0].0.eq(&String::from_str("var")) {
                    match &ms[0].1 {
                        JsonValue::Str(s) => Some(AlignmentValue::Variable { var: s.clone() }),
                        _ => None,
                    }
                } else {
                    None
                }
            } else {
                proof {
                    crate::json::lemma_jm_seq_view_len(ms@);
                }
                None
            }
        },
        _ => None,
    }
}

/// Write the layout property members.
fn enc_layout(c: &IRComponent, ms: &mut Vec<(String, JsonValue)>)
    ensures
        crate::json::jm_seq_view(final(ms)@) == crate::json::jm_seq_view(old(ms)@) + m_str("width"@, c@.width) + m_str("height"@, c@.height) + m_u32("padding"@, c@.padding) + m_u32("margin"@, c@.margin) + m_u32("gap"@, c@.gap),
{
    let ghost pre_width = crate::json::jm_seq_view(ms@);
    match &c.width {
        Some(s) => {
            let m = (String::from_str("width"), JsonValue::Str(s.clone()));
            proof { crate::json::lemma_jm_seq_view_push(ms@, m); }
            ms.push(m);
        },
        None => {},
    }
    proof {
        assert(crate::json::jm_seq_view(ms@) =~= pre_width + m_str("width"@, c@.width));
    }
    let ghost pre_height = crate::json::jm_seq_view(ms@);
    match &c.height {
        Some(s) => {
            let m = (String::from_str("height"), JsonValue::Str(s.clone()));
            proof { crate::json::lemma_jm_seq_view_push(ms@, m); }
            ms.push(m);
        },
        None => {},
    }
    proof {
        assert(crate::json::jm_seq_view(ms@) =~= pre_height + m_str("height"@, c@.height));
    }
    let ghost pre_padding = crate::json::jm_seq_view(ms@);
    match &c.padding {
        Some(n) => {
            let m = (String::from_str("padding"), JsonValue::Int(*n as i64));
            proof { crate::json::lemma_jm_seq_view_push(ms@, m); }
            ms.push(m);
        },
        None => {},
    }
    proof {
        assert(crate::json::jm_seq_view(ms@) =~= pre_padding + m_u32("padding"@, c@.padding));
    }
    let ghost pre_margin = crate::json::jm_seq_view(ms@);
    match &c.margin {
        Some(n) => {
            let m = (String::from_str("margin"), JsonValue::Int(*n as i64));
            proof { crate::json::lemma_jm_seq_view_push(ms@, m); }
            ms.push(m);
        },
        None => {},
    }
    proof {
        assert(crate::json::jm_seq_view(ms@) =~= pre_margin + m_u32("margin"@, c@.margin));
    }
    let ghost pre_gap = crate::json::jm_seq_view(ms@);
    match &c.gap {
        Some(n) => {
            let m = (String::from_str("gap"), JsonValue::Int(*n as i64));
            proof { crate::json::lemma_jm_seq_view_push(ms@, m); }
            ms.push(m);
        },
        None => {},
    }
    proof {
        assert(crate::json::jm_seq_view(ms@) =~= pre_gap + m_u32("gap"@, c@.gap));
    }
    proof {
        vstd::seq_lib::lemma_concat_associative(crate::json::jm_seq_view(old(ms)@), m_str("width"@, c@.width), m_str("height"@, c@.height));
        vstd::seq_lib::lemma_concat_associative((crate::json::jm_seq_view(old(ms)@) + m_str("width"@, c@.width)), m_str("height"@, c@.height), m_u32("padding"@, c@.padding));
        vstd::seq_lib::lemma_concat_associative(((crate::json::jm_seq_view(old(ms)@) + m_str("width"@, c@.width)) + m_str("height"@, c@.height)), m_u32("padding"@, c@.padding), m_u32("margin"@, c@.margin));
        vstd::seq_lib::lemma_concat_associative((((crate::json::jm_seq_view(old(ms)@) + m_str("width"@, c@.width)) + m_str("height"@, c@.height)) + m_u32("padding"@, c@.padding)), m_u32("margin"@, c@.margin), m_u32("gap"@, c@.gap));
    }
}

/// Write the alignment property members.
fn enc_alignment(c: &IRComponent, ms: &mut Vec<(String, JsonValue)>)
    ensures
        crate::json::jm_seq_view(final(ms)@) == crate::json::jm_seq_view(old(ms)@) + m_align("justifyContent"@, c@.justify_content) + m_align("alignItems"@, c@.align_items) + m_u8("flexGrow"@, c@.flex_grow) + m_u8("flexShrink"@, c@.flex_shrink),
{
    let ghost pre_justify_content = crate::json::jm_seq_view(ms@);
    match &c.justify_content {
        Some(av) => {
            let m = (String::from_str("justifyContent"), encode_align(av));
            proof { crate::json::lemma_jm_seq_view_push(ms@, m); }
            ms.push(m);
        },
        None => {},
    }
    proof {
        assert(crate::json::jm_seq_view(ms@) =~= pre_justify_content + m_align("justifyContent"@, c@.justify_content));
    }
    let ghost pre_align_items = crate::json::jm_seq_view(ms@);
    match &c.align_items {
        Some(av) => {
            let m = (String::from_str("alignItems"), encode_align(av));
            proof { crate::json::lemma_jm_seq_view_push(ms@, m); }
            ms.push(m);
        },
        None => {},
    }
    proof {
        assert(crate::json::jm_seq_view(ms@) =~= pre_align_items + m_align("alignItems"@, c@.align_items));
    }
    let ghost pre_flex_grow = crate::json::jm_seq_view(ms@);
    match &c.flex_grow {
        Some(n) => {
            let m = (String::from_str("flexGrow"), JsonValue::Int(*n as i64));
            proof { crate::json::lemma_jm_seq_view_push(ms@, m); }
            ms.push(m);
        },
        None => {},
    }
    proof {
        assert(crate::json::jm_seq_view(ms@) =~= pre_flex_grow + m_u8("flexGrow"@, c@.flex_grow));
    }
    let ghost pre_flex_shrink = crate::json::jm_seq_view(ms@);
    match &c.flex_shrink {
        Some(n) => {
            let m = (String::from_str("flexShrink"), JsonValue::Int(*n as i64));
            proof { crate::json::lemma_jm_seq_view_push(ms@, m); }
            ms.push(m);
        },
        None => {},
    }
    proof {
        assert(crate::json::jm_seq_view(ms@) =~= pre_flex_shrink + m_u8("flexShrink"@, c@.flex_shrink));
    }
    proof {
        vstd::seq_lib::lemma_concat_associative(crate::json::jm_seq_view(old(ms)@), m_align("justifyContent"@, c@.justify_content), m_align("alignItems"@, c@.align_items));
        vstd::seq_lib::lemma_concat_associative((crate::json::jm_seq_view(old(ms)@) + m_align("justifyContent"@, c@.justify_content)), m_align("alignItems"@, c@.align_items), m_u8("flexGrow"@, c@.flex_grow));
        vstd::seq_lib::lemma_concat_associative(((crate::json::jm_seq_view(old(ms)@) + m_align("justifyContent"@, c@.justify_content)) + m_align("alignItems"@, c@.align_items)), m_u8("flexGrow"@, c@.flex_grow), m_u8("flexShrink"@, c@.flex_shrink));
    }
}

/// Write the visual property members.
fn enc_visual(c: &IRComponent, ms: &mut Vec<(String, JsonValue)>)
    ensures
        crate::json::jm_seq_view(final(ms)@) == crate::json::jm_seq_view(old(ms)@) + m_str("background"@, c@.background) + m_str("color"@, c@.color) + m_u32("opacity"@, c@.opacity) + m_u32("fontSize"@, c@.font_size),
{
    let ghost pre_background = crate::json::jm_seq_view(ms@);
    match &c.background {
        Some(s) => {
            let m = (String::from_str("background"), JsonValue::Str(s.clone()));
            proof { crate::json::lemma_jm_seq_view_push(ms@, m); }
            ms.push(m);
        },
        None => {},
    }
    proof {
        assert(crate::json::jm_seq_view(ms@) =~= pre_background + m_str("background"@, c@.background));
    }
    let ghost pre_color = crate::json::jm_seq_view(ms@);
    match &c.color {
        Some(s) => {
            let m = (String::from_str("color"), JsonValue::Str(s.clone()));
            proof { crate::json::lemma_jm_seq_view_push(ms@, m); }
            ms.push(m);
        },
        None => {},
    }
    proof {
        assert(crate::json::jm_seq_view(ms@) =~= pre_color + m_str("color"@, c@.color));
    }
    let ghost pre_opacity = crate::json::jm_seq_view(ms@);
    match &c.opacity {
        Some(n) => {
            let m = (String::from_str("opacity"), JsonValue::Int(*n as i64));
            proof { crate::json::lemma_jm_seq_view_push(ms@, m); }
            ms.push(m);
        },
        None => {},
    }
    proof {
        assert(crate::json::jm_seq_view(ms@) =~= pre_opacity + m_u32("opacity"@, c@.opacity));
    }
    let ghost pre_font_size = crate::json::jm_seq_view(ms@);
    match &c.font_size {
        Some(n) => {
            let m = (String::from_str("fontSize"), JsonValue::Int(*n as i64));
            proof { crate::json::lemma_jm_seq_view_push(ms@, m); }
            ms.push(m);
        },
        None => {},
    }
    proof {
        assert(crate::json::jm_seq_view(ms@) =~= pre_font_size + m_u32("fontSize"@, c@.font_size));
    }
    proof {
        vstd::seq_lib::lemma_concat_associative(crate::json::jm_seq_view(old(ms)@), m_str("background"@, c@.background), m_str("color"@, c@.color));
        vstd::seq_lib::lemma_concat_associative((crate::json::jm_seq_view(old(ms)@) + m_str("background"@, c@.background)), m_str("color"@, c@.color), m_u32("opacity"@, c@.opacity));
        vstd::seq_lib::lemma_concat_associative(((crate::json::jm_seq_view(old(ms)@) + m_str("background"@, c@.background)) + m_str("color"@, c@.color)), m_u32("opacity"@, c@.opacity), m_u32("fontSize"@, c@.font_size));
    }
}

/// Write the content property members.
fn enc_content(c: &IRComponent, ms: &mut Vec<(String, JsonValue)>)
    ensures
        crate::json::jm_seq_view(final(ms)@) == crate::json::jm_seq_view(old(ms)@) + m_str("content"@, c@.content) + m_str("text"@, c@.text) + m_str("placeholder"@, c@.placeholder) + m_str("windowTitle"@, c@.window_title),
{
    let ghost pre_content = crate::json::jm_seq_view(ms@);
    match &c.content {
        Some(s) => {
            let m = (String::from_str("content"), JsonValue::Str(s.clone()));
            proof { crate::json::lemma_jm_seq_view_push(ms@, m); }
            ms.push(m);
        },
        None => {},
    }
    proof {
        assert(crate::json::jm_seq_view(ms@) =~= pre_content + m_str("content"@, c@.content));
    }
    let ghost pre_text = crate::json::jm_seq_view(ms@);
    match &c.text {
        Some(s) => {
            let m = (String::from_str("text"), JsonValue::Str(s.clone()));
            proof { crate::json::lemma_jm_seq_view_push(ms@, m); }
            ms.push(m);
        },
        None => {},
    }
    proof {
        assert(crate::json::jm_seq_view(ms@) =~= pre_text + m_str("text"@, c@.text));
    }
    let ghost pre_placeholder = crate::json::jm_seq_view(ms@);
    match &c.placeholder {
        Some(s) => {
            let m = (String::from_str("placeholder"), JsonValue::Str(s.clone()));
            proof { crate::json::lemma_jm_seq_view_push(ms@, m); }
            ms.push(m);
        },
        None => {},
    }
    proof {
        assert(crate::json::jm_seq_view(ms@) =~= pre_placeholder + m_str("placeholder"@, c@.placeholder));
    }
    let ghost pre_window_title = crate::json::jm_seq_view(ms@);
    match &c.window_title {
        Some(s) => {
            let m = (String::from_str("windowTitle"), JsonValue::Str(s.clone()));
            proof { crate::json::lemma_jm_seq_view_push(ms@, m); }
            ms.push(m);
        },
        None => {},
    }
    proof {
        assert(crate::json::jm_seq_view(ms@) =~= pre_window_title + m_str("windowTitle"@, c@.window_title));
    }
    proof {
        vstd::seq_lib::lemma_concat_associative(crate::json::jm_seq_view(old(ms)@), m_str("content"@, c@.content), m_str("text"@, c@.text));
        vstd::seq_lib::lemma_concat_associative((crate::json::jm_seq_view(old(ms)@) + m_str("content"@, c@.content)), m_str("text"@, c@.text), m_str("placeholder"@, c@.placeholder));
        vstd::seq_lib::lemma_concat_associative(((crate::json::jm_seq_view(old(ms)@) + m_str("content"@, c@.content)) + m_str("text"@, c@.text)), m_str("placeholder"@, c@.placeholder), m_str("windowTitle"@, c@.window_title));
    }
}

/// Write one component in its canonical member order.
fn encode_comp(c: &IRComponent) -> (r: JsonValue)
    ensures
        r@ == comp_to_jv(c@),
    decreases *c, 1int,
{
    let ghost cv = c@;
    let mut ms: Vec<(String, JsonValue)> = Vec::new();
    let m_id = (String::from_str("id"), JsonValue::Int(c.id as i64));
    proof {
        assert(crate::json::jm_seq_view(ms@) =~= Seq::<(Seq<char>, JsonVal)>::empty());
        crate::json::lemma_jm_seq_view_push(ms@, m_id);
    }
    ms.push(m_id);
    let m_ty = (String::from_str("type"), JsonValue::Str(ct_name_of(&c.component_type)));
    proof {
        crate::json::lemma_jm_seq_view_push(ms@, m_ty);
    }
    ms.push(m_ty);
    let ghost head = crate::json::jm_seq_view(ms@);
    proof {
        assert(head =~= seq![
            ("id"@, JsonVal::Int(cv.id as i64)),
            ("type"@, JsonVal::Str(ct_name(cv.component_type))),
        ]);
    }
    enc_layout(c, &mut ms);
    enc_alignment(c, &mut ms);
    enc_visual(c, &mut ms);
    enc_content(c, &mut ms);
    let ghost pre_children = crate::json::jm_seq_view(ms@);
    if c.children.len() > 0 {
        let items = encode_children(&c.children, 0);
        let m = (String::from_str("children"), JsonValue::Arr(items));
        proof {
            assert(crate::ir::comp_seq_view(c.children@).skip(0) =~= crate::ir::comp_seq_view(
                c.children@,
            ));
            crate::ir::lemma_comp_seq_view_len(c.children@);
            crate::json::lemma_jm_seq_view_push(ms@, m);
        }
        ms.push(m);
    } else {
        proof {
            assert(crate::ir::comp_seq_view(c.children@) =~= Seq::<ComponentView>::empty());
        }
    }
    proof {
        assert(crate::json::jm_seq_view(ms@) =~= pre_children + sfx_children(cv));
        assert(crate::json::jm_seq_view(ms@) =~= comp_members(cv));
    }
    JsonValue::Obj(ms)
}

/// Write the children from `idx` on.
fn encode_children(kids: &Vec<IRComponent>, idx: usize) -> (r: Vec<JsonValue>)
    requires
        idx < kids@.len(),
    ensures
        crate::json::jv_seq_view(r@) == comps_to_jv(
            crate::ir::comp_seq_view(kids@).skip(idx as int),
        ),
    decreases kids@, kids@.len() - idx, 2int,
{
    proof {
        crate::ir::lemma_comp_seq_view_index(kids@, idx as int);
        crate::ir::lemma_comp_seq_view_len(kids@);
    }
    let ghost vs = crate::ir::comp_seq_view(kids@).skip(idx as int);
    let n = kids.len();
    let v = encode_comp(&kids[idx]);
    if idx + 1 < n {
        let mut rest = encode_children(kids, idx + 1);
        let ghost rest_pre = rest@;
        rest.insert(0, v);
        proof {
            assert(vs[0] == crate::ir::comp_seq_view(kids@)[idx as int]);
            assert(vs.drop_first() =~= crate::ir::comp_seq_view(kids@).skip(idx as int + 1));
            assert(rest@.drop_first() =~= rest_pre);
            assert(rest@[0] == v);
            assert(crate::json::jv_seq_view(rest@) == seq![crate::json::jv_view(rest@[0])]
                + crate::json::jv_seq_view(rest@.drop_first()));
            assert(crate::json::jv_seq_view(rest@) =~= comps_to_jv(vs));
        }
        rest
    } else {
        let mut one: Vec<JsonValue> = Vec::new();
        one.push(v);
        proof {
            assert(vs.len() == 1);
            assert(vs[0] == crate::ir::comp_seq_view(kids@)[idx as int]);
            assert(vs.drop_first() =~= Seq::<ComponentView>::empty());
            assert(one@.drop_first() =~= Seq::<JsonValue>::empty());
            assert(crate::json::jv_seq_view(one@.drop_first()) == Seq::<JsonVal>::empty());
            assert(crate::json::jv_seq_view(one@) == seq![crate::json::jv_view(one@[0])]
                + crate::json::jv_seq_view(one@.drop_first()));
            assert(comps_to_jv(vs) == seq![comp_to_jv(vs[0])] + comps_to_jv(vs.drop_first()));
            assert(crate::json::jv_seq_view(one@) =~= comps_to_jv(vs));
        }
        one
    }
}

/// Peel one optional string member.
fn peel_str_x(ms: &Vec<(String, JsonValue)>, i: usize, k: &String) -> (r: Option<
    (Option<String>, usize),
>)
    requires
        i <= ms@.len(),
    ensures
        match r {
            Some((v, j)) => peel_str(crate::json::jm_seq_view(ms@), i as int, k@) == Some(
                (
                    match v {
                        Some(s) => Some(s@),
                        None => None,
                    },
                    j as int,
                ),
            ) && i <= j <= ms@.len(),
            None => peel_str(crate::json::jm_seq_view(ms@), i as int, k@) is None,
        },
{
    proof {
        crate::json::lemma_jm_seq_view_len(ms@);
        if (i as int) < ms@.len() {
            crate::json::lemma_jm_seq_view_index(ms@, i as int);
        }
    }
    if i < ms.len() && ms[i].0.eq(k) {
        match &ms[i].1 {
            JsonValue::Str(s) => Some((Some(s.clone()), i + 1)),
            _ => None,
        }
    } else {
        Some((None, i))
    }
}

/// Peel one optional numeric member.
fn peel_u32_x(ms: &Vec<(String, JsonValue)>, i: usize, k: &String) -> (r: Option<
    (Option<u32>, usize),
>)
    requires
        i <= ms@.len(),
    ensures
        match r {
            Some((v, j)) => peel_u32(crate::json::jm_seq_view(ms@), i as int, k@) == Some(
                (v, j as int),
            ) && i <= j <= ms@.len(),
            None => peel_u32(crate::json::jm_seq_view(ms@), i as int, k@) is None,
        },
{
    proof {
        crate::json::lemma_jm_seq_view_len(ms@);
        if (i as int) < ms@.len() {
            crate::json::lemma_jm_seq_view_index(ms@, i as int);
        }
    }
    if i < ms.len() && ms[i].0.eq(k) {
        match &ms[i].1 {
            JsonValue::Int(n) => if 0 <= *n && *n <= 0xFFFF_FFFFi64 {
                Some((Some(*n as u32), i + 1))
            } else {
                None
            },
            _ => None,
        }
    } else {
        Some((None, i))
    }
}

/// Peel one optional small numeric member.
fn peel_u8_x(ms: &Vec<(String, JsonValue)>, i: usize, k: &String) -> (r: Option<
    (Option<u8>, usize),
>)
    requires
        i <= ms@.len(),
    ensures
        match r {
            Some((v, j)) => peel_u8(crate::json::jm_seq_view(ms@), i as int, k@) == Some(
                (v, j as int),
            ) && i <= j <= ms@.len(),
            None => peel_u8(crate::json::jm_seq_view(ms@), i as int, k@) is None,
        },
{
    proof {
        crate::json::lemma_jm_seq_view_len(ms@);
        if (i as int) < ms@.len() {
            crate::json::lemma_jm_seq_view_index(ms@, i as int);
        }
    }
    if i < ms.len() && ms[i].0.eq(k) {
        match &ms[i].1 {
            JsonValue::Int(n) => if 0 <= *n && *n <= 255i64 {
                Some((Some(*n as u8), i + 1))
            } else {
                None
            },
            _ => None,
        }
    } else {
        Some((None, i))
    }
}

/// Peel one optional alignment member.
fn peel_align_x(ms: &Vec<(String, JsonValue)>, i: usize, k: &String) -> (r: Option<
    (Option<AlignmentValue>, usize),
>)
    requires
        i <= ms@.len(),
    ensures
        match r {
            Some((v, j)) => peel_align(crate::json::jm_seq_view(ms@), i as int, k@) == Some(
                (
                    match v {
                        Some(av) => Some(av@),
                        None => None,
                    },
                    j as int,
                ),
            ) && i <= j <= ms@.len(),
            None => peel_align(crate::json::jm_seq_view(ms@), i as int, k@) is None,
        },
{
    proof {
        crate::json::lemma_jm_seq_view_len(ms@);
        if (i as int) < ms@.len() {
            crate::json::lemma_jm_seq_view_index(ms@, i as int);
        }
    }
    if i < ms.len() && ms[i].0.eq(k) {
        match decode_align(&ms[i].1) {
            Some(av) => Some((Some(av), i + 1)),
            None => None,
        }
    } else {
        Some((None, i))
    }
}

/// Read one component back from its canonical member order.
#[verifier::rlimit(100)]
fn decode_comp(j: &JsonValue) -> (r: Option<IRComponent>)
    ensures
        match r {
            Some(c) => jv_to_comp(j@) == Some(c@),
            None => jv_to_comp(j@) is None,
        },
    decreases *j, 30int,
{
    let ms = match j {
        JsonValue::Obj(ms) => ms,
        _ => {
            return None;
        },
    };
    let ghost msv = crate::json::jm_seq_view(ms@);
    proof {
        crate::json::lemma_jm_seq_view_len(ms@);
    }
    if ms.len() < 2 {
        return None;
    }
    proof {
        crate::json::lemma_jm_seq_view_index(ms@, 0);
        crate::json::lemma_jm_seq_view_index(ms@, 1);
    }
    if !(ms[0].0.eq(&String::from_str("id")) && ms[1].0.eq(&String::from_str("type"))) {
        return None;
    }
    let id_n = match &ms[0].1 {
        JsonValue::Int(n) => *n,
        _ => {
            return None;
        },
    };
    if !(0 <= id_n && id_n <= 0xFFFF_FFFFi64) {
        return None;
    }
    let tn = match &ms[1].1 {
        JsonValue::Str(s) => s,
        _ => {
            return None;
        },
    };
    let ct = match ct_from_name(tn) {
        Some(ct) => ct,
        None => {
            return None;
        },
    };
    let mut c = IRComponent::new(ct, id_n as u32);
    let mut i: usize = 2;
    proof {
        assert(jv_to_comp(j@) == dec_width(msv, 2, c@));
    }
    let ghost i_width = i as int;
    let ghost cv_width = c@;
    match peel_str_x(ms, i, &String::from_str("width")) {
        Some((v, j2)) => {
            c.width = v;
            i = j2;
        },
        None => {
            return None;
        },
    }
    proof {
        assert(dec_width(msv, i_width, cv_width) == dec_height(msv, i as int, c@));
    }
    let ghost i_height = i as int;
    let ghost cv_height = c@;
    match peel_str_x(ms, i, &String::from_str("height")) {
        Some((v, j2)) => {
            c.height = v;
            i = j2;
        },
        None => {
            return None;
        },
    }
    proof {
        assert(dec_height(msv, i_height, cv_height) == dec_padding(msv, i as int, c@));
    }
    let ghost i_padding = i as int;
    let ghost cv_padding = c@;
    match peel_u32_x(ms, i, &String::from_str("padding")) {
        Some((v, j2)) => {
            c.padding = v;
            i = j2;
        },
        None => {
            return None;
        },
    }
    proof {
        assert(dec_padding(msv, i_padding, cv_padding) == dec_margin(msv, i as int, c@));
    }
    let ghost i_margin = i as int;
    let ghost cv_margin = c@;
    match peel_u32_x(ms, i, &String::from_str("margin")) {
        Some((v, j2)) => {
            c.margin = v;
            i = j2;
        },
        None => {
            return None;
        },
    }
    proof {
        assert(dec_margin(msv, i_margin, cv_margin) == dec_gap(msv, i as int, c@));
    }
    let ghost i_gap = i as int;
    let ghost cv_gap = c@;
    match peel_u32_x(ms, i, &String::from_str("gap")) {
        Some((v, j2)) => {
            c.gap = v;
            i = j2;
        },
        None => {
            return None;
        },
    }
    proof {
        assert(dec_gap(msv, i_gap, cv_gap) == dec_justify_content(msv, i as int, c@));
    }
    let ghost i_justify_content = i as int;
    let ghost cv_justify_content = c@;
    match peel_align_x(ms, i, &String::from_str("justifyContent")) {
        Some((v, j2)) => {
            c.justify_content = v;
            i = j2;
        },
        None => {
            return None;
        },
    }
    proof {
        assert(dec_justify_content(msv, i_justify_content, cv_justify_content) == dec_align_items(msv, i as int, c@));
    }
    let ghost i_align_items = i as int;
    let ghost cv_align_items = c@;
    match peel_align_x(ms, i, &String::from_str("alignItems")) {
        Some((v, j2)) => {
            c.align_items = v;
            i = j2;
        },
        None => {
            return None;
        },
    }
    proof {
        assert(dec_align_items(msv, i_align_items, cv_align_items) == dec_flex_grow(msv, i as int, c@));
    }
    let ghost i_flex_grow = i as int;
    let ghost cv_flex_grow = c@;
    match peel_u8_x(ms, i, &String::from_str("flexGrow")) {
        Some((v, j2)) => {
            c.flex_grow = v;
            i = j2;
        },
        None => {
            return None;
        },
    }
    proof {
        assert(dec_flex_grow(msv, i_flex_grow, cv_flex_grow) == dec_flex_shrink(msv, i as int, c@));
    }
    let ghost i_flex_shrink = i as int;
    let ghost cv_flex_shrink = c@;
    match peel_u8_x(ms, i, &String::from_str("flexShrink")) {
        Some((v, j2)) => {
            c.flex_shrink = v;
            i = j2;
        },
        None => {
            return None;
        },
    }
    proof {
        assert(dec_flex_shrink(msv, i_flex_shrink, cv_flex_shrink) == dec_background(msv, i as int, c@));
    }
    let ghost i_background = i as int;
    let ghost cv_background = c@;
    match peel_str_x(ms, i, &String::from_str("background")) {
        Some((v, j2)) => {
            c.background = v;
            i = j2;
        },
        None => {
            return None;
        },
    }
    proof {
        assert(dec_background(msv, i_background, cv_background) == dec_color(msv, i as int, c@));
    }
    let ghost i_color = i as int;
    let ghost cv_color = c@;
    match peel_str_x(ms, i, &String::from_str("color")) {
        Some((v, j2)) => {
            c.color = v;
            i = j2;
        },
        None => {
            return None;
        },
    }
    proof {
        assert(dec_color(msv, i_color, cv_color) == dec_opacity(msv, i as int, c@));
    }
    let ghost i_opacity = i as int;
    let ghost cv_opacity = c@;
    match peel_u32_x(ms, i, &String::from_str("opacity")) {
        Some((v, j2)) => {
            c.opacity = v;
            i = j2;
        },
        None => {
            return None;
        },
    }
    proof {
        assert(dec_opacity(msv, i_opacity, cv_opacity) == dec_font_size(msv, i as int, c@));
    }
    let ghost i_font_size = i as int;
    let ghost cv_font_size = c@;
    match peel_u32_x(ms, i, &String::from_str("fontSize")) {
        Some((v, j2)) => {
            c.font_size = v;
            i = j2;
        },
        None => {
            return None;
        },
    }
    proof {
        assert(dec_font_size(msv, i_font_size, cv_font_size) == dec_content(msv, i as int, c@));
    }
    let ghost i_content = i as int;
    let ghost cv_content = c@;
    match peel_str_x(ms, i, &String::from_str("content")) {
        Some((v, j2)) => {
            c.content = v;
            i = j2;
        },
        None => {
            return None;
        },
    }
    proof {
        assert(dec_content(msv, i_content, cv_content) == dec_text(msv, i as int, c@));
    }
    let ghost i_text = i as int;
    let ghost cv_text = c@;
    match peel_str_x(ms, i, &String::from_str("text")) {
        Some((v, j2)) => {
            c.text = v;
            i = j2;
        },
        None => {
            return None;
        },
    }
    proof {
        assert(dec_text(msv, i_text, cv_text) == dec_placeholder(msv, i as int, c@));
    }
    let ghost i_placeholder = i as int;
    let ghost cv_placeholder = c@;
    match peel_str_x(ms, i, &String::from_str("placeholder")) {
        Some((v, j2)) => {
            c.placeholder = v;
            i = j2;
        },
        None => {
            return None;
        },
    }
    proof {
        assert(dec_placeholder(msv, i_placeholder, cv_placeholder) == dec_window_title(msv, i as int, c@));
    }
    let ghost i_window_title = i as int;
    let ghost cv_window_title = c@;
    match peel_str_x(ms, i, &String::from_str("windowTitle")) {
        Some((v, j2)) => {
            c.window_title = v;
            i = j2;
        },
        None => {
            return None;
        },
    }
    proof {
        assert(dec_window_title(msv, i_window_title, cv_window_title) == dec_children(msv, i as int, c@));
    }
    // Children, then the member list must end.
    if i < ms.len() {
        proof {
            crate::json::lemma_jm_seq_view_index(ms@, i as int);
        }
        if !ms[i].0.eq(&String::from_str("children")) {
            return None;
        }
        let items = match &ms[i].1 {
            JsonValue::Arr(items) => items,
            _ => {
                return None;
            },
        };
        if i + 1 != ms.len() {
            return None;
        }
        match decode_children(items) {
            Some(kids) => {
                c.children = kids;
                Some(c)
            },
            None => None,
        }
    } else {
        Some(c)
    }
}

/// Read a child list back: every entry must be a component.
fn decode_children(items: &Vec<JsonValue>) -> (r: Option<Vec<IRComponent>>)
    ensures
        match r {
            Some(kids) => jvs_to_comps(crate::json::jv_seq_view(items@)) == Some(
                crate::ir::comp_seq_view(kids@),
            ),
            None => jvs_to_comps(crate::json::jv_seq_view(items@)) is None,
        },
    decreases items@, 33int, 0int,
{
    proof {
        assert(crate::json::jv_seq_view(items@).skip(0) =~= crate::json::jv_seq_view(items@));
    }
    decode_children_from(items, 0)
}

/// Read the child list from `idx` on.
fn decode_children_from(items: &Vec<JsonValue>, idx: usize) -> (r: Option<Vec<IRComponent>>)
    requires
        idx <= items@.len(),
    ensures
        match r {
            Some(kids) => jvs_to_comps(crate::json::jv_seq_view(items@).skip(idx as int))
                == Some(crate::ir::comp_seq_view(kids@)),
            None => jvs_to_comps(crate::json::jv_seq_view(items@).skip(idx as int)) is None,
        },
    decreases items@, 32int, items@.len() - idx,
{
    let ghost vs = crate::json::jv_seq_view(items@).skip(idx as int);
    proof {
        crate::json::lemma_jv_seq_view_len(items@);
    }
    if idx >= items.len() {
        proof {
            assert(vs =~= Seq::<JsonVal>::empty());
        }
        let kids: Vec<IRComponent> = Vec::new();
        proof {
            assert(crate::ir::comp_seq_view(kids@) =~= Seq::<ComponentView>::empty());
        }
        return Some(kids);
    }
    proof {
        crate::json::lemma_jv_seq_view_index(items@, idx as int);
        assert(vs[0] == crate::json::jv_view(items@[idx as int]));
    }
    let c = match decode_comp(&items[idx]) {
        Some(c) => c,
        None => {
            return None;
        },
    };
    match decode_children_from(items, idx + 1) {
        Some(mut rest) => {
            let ghost rest_pre = rest@;
            rest.insert(0, c);
            proof {
                assert(vs.drop_first() =~= crate::json::jv_seq_view(items@).skip(idx as int + 1));
                assert(rest@.drop_first() =~= rest_pre);
                assert(rest@[0] == c);
                assert(crate::ir::comp_seq_view(rest@) == seq![crate::ir::comp_view(rest@[0])]
                    + crate::ir::comp_seq_view(rest@.drop_first()));
                assert(crate::ir::comp_seq_view(rest@) =~= seq![c@] + crate::ir::comp_seq_view(
                    rest_pre,
                ));
                assert(jvs_to_comps(vs) == Some(seq![c@] + crate::ir::comp_seq_view(rest_pre)));
            }
            Some(rest)
        },
        None => {
            proof {
                assert(vs.drop_first() =~= crate::json::jv_seq_view(items@).skip(idx as int + 1));
                assert(jvs_to_comps(vs) is None);
            }
            None
        },
    }
}

/// Write one event binding.
fn encode_binding(b: &EventBinding) -> (r: JsonValue)
    ensures
        r@ == binding_to_jv(b@),
{
    let mut ms: Vec<(String, JsonValue)> = Vec::new();
    let m0 = (String::from_str("component_id"), JsonValue::Int(b.component_id as i64));
    let m1 = (String::from_str("event_type"), JsonValue::Str(b.event_type.clone()));
    let m2 = (String::from_str("handler"), JsonValue::Str(b.handler.clone()));
    proof {
        assert(crate::json::jm_seq_view(ms@) =~= Seq::<(Seq<char>, JsonVal)>::empty());
        crate::json::lemma_jm_seq_view_push(ms@, m0);
    }
    ms.push(m0);
    proof {
        crate::json::lemma_jm_seq_view_push(ms@, m1);
    }
    ms.push(m1);
    proof {
        crate::json::lemma_jm_seq_view_push(ms@, m2);
    }
    ms.push(m2);
    proof {
        assert(crate::json::jm_seq_view(ms@) =~= seq![
            ("component_id"@, JsonVal::Int(b@.component_id as i64)),
            ("event_type"@, JsonVal::Str(b@.event_type)),
            ("handler"@, JsonVal::Str(b@.handler)),
        ]);
    }
    JsonValue::Obj(ms)
}

/// Read one event binding back.
fn decode_binding(j: &JsonValue) -> (r: Option<EventBinding>)
    ensures
        match r {
            Some(b) => jv_to_binding(j@) == Some(b@),
            None => jv_to_binding(j@) is None,
        },
{
    let ms = match j {
        JsonValue::Obj(ms) => ms,
        _ => {
            return None;
        },
    };
    proof {
        crate::json::lemma_jm_seq_view_len(ms@);
    }
    if ms.len() != 3 {
        return None;
    }
    proof {
        crate::json::lemma_jm_seq_view_index(ms@, 0);
        crate::json::lemma_jm_seq_view_index(ms@, 1);
        crate::json::lemma_jm_seq_view_index(ms@, 2);
    }
    if !(ms[0].0.eq(&String::from_str("component_id")) && ms[1].0.eq(
        &String::from_str("event_type"),
    ) && ms[2].0.eq(&String::from_str("handler"))) {
        return None;
    }
    let n = match &ms[0].1 {
        JsonValue::Int(n) => *n,
        _ => {
            return None;
        },
    };
    if !(0 <= n && n <= 0xFFFF_FFFFi64) {
        return None;
    }
    let et = match &ms[1].1 {
        JsonValue::Str(s) => s.clone(),
        _ => {
            return None;
        },
    };
    let h = match &ms[2].1 {
        JsonValue::Str(s) => s.clone(),
        _ => {
            return None;
        },
    };
    Some(EventBinding { component_id: n as u32, event_type: et, handler: h })
}

/// Write one scalar initial value.
fn encode_scalar(v: &ScalarValue) -> (r: JsonValue)
    ensures
        r@ == scalar_to_jv(v@),
{
    match v {
        ScalarValue::Null => JsonValue::Null,
        ScalarValue::Bool(b) => JsonValue::Bool(*b),
        ScalarValue::Int(n) => JsonValue::Int(*n),
        ScalarValue::Str(s) => JsonValue::Str(s.clone()),
    }
}

/// Read one scalar initial value back.
fn decode_scalar(j: &JsonValue) -> (r: Option<ScalarValue>)
    ensures
        match r {
            Some(v) => jv_to_scalar(j@) == Some(v@),
            None => jv_to_scalar(j@) is None,
        },
{
    match j {
        JsonValue::Null => Some(ScalarValue::Null),
        JsonValue::Bool(b) => Some(ScalarValue::Bool(*b)),
        JsonValue::Int(n) => Some(ScalarValue::Int(*n)),
        JsonValue::Str(s) => Some(ScalarValue::Str(s.clone())),
        _ => None,
    }
}

/// Write one reactive variable.
fn encode_var(v: &ReactiveVariable) -> (r: JsonValue)
    ensures
        r@ == var_to_jv(v@),
{
    let mut ms: Vec<(String, JsonValue)> = Vec::new();
    let m0 = (String::from_str("id"), JsonValue::Str(v.id.clone()));
    let m1 = (String::from_str("var_type"), JsonValue::Str(v.var_type.clone()));
    let m2 = (String::from_str("initial_value"), encode_scalar(&v.initial_value));
    proof {
        assert(crate::json::jm_seq_view(ms@) =~= Seq::<(Seq<char>, JsonVal)>::empty());
        crate::json::lemma_jm_seq_view_push(ms@, m0);
    }
    ms.push(m0);
    proof {
        crate::json::lemma_jm_seq_view_push(ms@, m1);
    }
    ms.push(m1);
    proof {
        crate::json::lemma_jm_seq_view_push(ms@, m2);
    }
    ms.push(m2);
    proof {
        assert(crate::json::jm_seq_view(ms@) =~= seq![
            ("id"@, JsonVal::Str(v@.id)),
            ("var_type"@, JsonVal::Str(v@.var_type)),
            ("initial_value"@, scalar_to_jv(v@.initial_value)),
        ]);
    }
    JsonValue::Obj(ms)
}

/// Read one reactive variable back.
fn decode_var(j: &JsonValue) -> (r: Option<ReactiveVariable>)
    ensures
        match r {
            Some(v) => jv_to_var(j@) == Some(v@),
            None => jv_to_var(j@) is None,
        },
{
    let ms = match j {
        JsonValue::Obj(ms) => ms,
        _ => {
            return None;
        },
    };
    proof {
        crate::json::lemma_jm_seq_view_len(ms@);
    }
    if ms.len() != 3 {
        return None;
    }
    proof {
        crate::json::lemma_jm_seq_view_index(ms@, 0);
        crate::json::lemma_jm_seq_view_index(ms@, 1);
        crate::json::lemma_jm_seq_view_index(ms@, 2);
    }
    if !(ms[0].0.eq(&String::from_str("id")) && ms[1].0.eq(&String::from_str("var_type"))
        && ms[2].0.eq(&String::from_str("initial_value"))) {
        return None;
    }
    let id = match &ms[0].1 {
        JsonValue::Str(s) => s.clone(),
        _ => {
            return None;
        },
    };
    let vt = match &ms[1].1 {
        JsonValue::Str(s) => s.clone(),
        _ => {
            return None;
        },
    };
    let iv = match decode_scalar(&ms[2].1) {
        Some(v) => v,
        None => {
            return None;
        },
    };
    Some(ReactiveVariable { id, var_type: vt, initial_value: iv })
}

/// Write the event binding list from `idx` on.
fn encode_bindings(bs: &Vec<EventBinding>, idx: usize) -> (r: Vec<JsonValue>)
    requires
        idx <= bs@.len(),
    ensures
        crate::json::jv_seq_view(r@) == bindings_to_jv(
            Seq::new(bs@.len(), |k: int| bs@[k]@).skip(idx as int),
        ),
    decreases bs@.len() - idx,
{
    let ghost full = Seq::new(bs@.len(), |k: int| bs@[k]@);
    let ghost vs = full.skip(idx as int);
    if idx >= bs.len() {
        let r: Vec<JsonValue> = Vec::new();
        proof {
            assert(vs =~= Seq::<EventBindingView>::empty());
            assert(crate::json::jv_seq_view(r@) =~= Seq::<JsonVal>::empty());
        }
        return r;
    }
    let v = encode_binding(&bs[idx]);
    let mut rest = encode_bindings(bs, idx + 1);
    let ghost rest_pre = rest@;
    rest.insert(0, v);
    proof {
        assert(vs[0] == full[idx as int]);
        assert(vs.drop_first() =~= full.skip(idx as int + 1));
        assert(rest@.drop_first() =~= rest_pre);
        assert(rest@[0] == v);
        assert(crate::json::jv_seq_view(rest@) == seq![crate::json::jv_view(rest@[0])]
            + crate::json::jv_seq_view(rest@.drop_first()));
        assert(crate::json::jv_seq_view(rest@) =~= bindings_to_jv(vs));
    }
    rest
}

/// Read the event binding list back, from `idx` on.
fn decode_bindings(js: &Vec<JsonValue>, idx: usize) -> (r: Option<Vec<EventBinding>>)
    requires
        idx <= js@.len(),
    ensures
        match r {
            Some(bs) => jvs_to_bindings(crate::json::jv_seq_view(js@).skip(idx as int)) == Some(
                Seq::new(bs@.len(), |k: int| bs@[k]@),
            ),
            None => jvs_to_bindings(crate::json::jv_seq_view(js@).skip(idx as int)) is None,
        },
    decreases js@.len() - idx,
{
    let ghost vs = crate::json::jv_seq_view(js@).skip(idx as int);
    proof {
        crate::json::lemma_jv_seq_view_len(js@);
    }
    if idx >= js.len() {
        let bs: Vec<EventBinding> = Vec::new();
        proof {
            assert(vs =~= Seq::<JsonVal>::empty());
            assert(Seq::new(bs@.len(), |k: int| bs@[k]@) =~= Seq::<EventBindingView>::empty());
        }
        return Some(bs);
    }
    proof {
        crate::json::lemma_jv_seq_view_index(js@, idx as int);
        assert(vs[0] == crate::json::jv_view(js@[idx as int]));
    }
    let b = match decode_binding(&js[idx]) {
        Some(b) => b,
        None => {
            return None;
        },
    };
    match decode_bindings(js, idx + 1) {
        Some(mut rest) => {
            let ghost rest_pre = rest@;
            rest.insert(0, b);
            proof {
                assert(vs.drop_first() =~= crate::json::jv_seq_view(js@).skip(idx as int + 1));
                assert(rest@.drop_first() =~= rest_pre);
                assert(rest@[0] == b);
                assert(Seq::new(rest@.len(), |k: int| rest@[k]@) =~= seq![b@] + Seq::new(
                    rest_pre.len(),
                    |k: int| rest_pre[k]@,
                ));
                assert(jvs_to_bindings(vs) == Some(seq![b@] + Seq::new(
                    rest_pre.len(),
                    |k: int| rest_pre[k]@,
                )));
            }
            Some(rest)
        },
        None => {
            proof {
                assert(vs.drop_first() =~= crate::json::jv_seq_view(js@).skip(idx as int + 1));
                assert(jvs_to_bindings(vs) is None);
            }
            None
        },
    }
}

/// Write the function map members from `idx` on.
fn encode_pairs(ps: &Vec<(String, String)>, idx: usize) -> (r: Vec<(String, JsonValue)>)
    requires
        idx <= ps@.len(),
    ensures
        crate::json::jm_seq_view(r@) == pairs_to_jv(
            Seq::new(ps@.len(), |k: int| (ps@[k].0@, ps@[k].1@)).skip(idx as int),
        ),
    decreases ps@.len() - idx,
{
    let ghost full = Seq::new(ps@.len(), |k: int| (ps@[k].0@, ps@[k].1@));
    let ghost vs = full.skip(idx as int);
    if idx >= ps.len() {
        let r: Vec<(String, JsonValue)> = Vec::new();
        proof {
            assert(vs =~= Seq::<(Seq<char>, Seq<char>)>::empty());
            assert(crate::json::jm_seq_view(r@) =~= Seq::<(Seq<char>, JsonVal)>::empty());
        }
        return r;
    }
    let m = (ps[idx].0.clone(), JsonValue::Str(ps[idx].1.clone()));
    let mut rest = encode_pairs(ps, idx + 1);
    let ghost rest_pre = rest@;
    rest.insert(0, m);
    proof {
        assert(vs[0] == full[idx as int]);
        assert(vs.drop_first() =~= full.skip(idx as int + 1));
        assert(rest@.drop_first() =~= rest_pre);
        assert(rest@[0].0@ == ps@[idx as int].0@ && rest@[0].1@ == JsonVal::Str(
            ps@[idx as int].1@,
        ));
        assert(crate::json::jm_seq_view(rest@) == seq![(rest@[0].0@, crate::json::jv_view(
            rest@[0].1,
        ))] + crate::json::jm_seq_view(rest@.drop_first()));
        assert(crate::json::jm_seq_view(rest@) =~= pairs_to_jv(vs));
    }
    rest
}

/// Read the function map back, from `idx` on.
fn decode_pairs(ms: &Vec<(String, JsonValue)>, idx: usize) -> (r: Option<Vec<(String, String)>>)
    requires
        idx <= ms@.len(),
    ensures
        match r {
            Some(ps) => jv_to_pairs(crate::json::jm_seq_view(ms@).skip(idx as int)) == Some(
                Seq::new(ps@.len(), |k: int| (ps@[k].0@, ps@[k].1@)),
            ),
            None => jv_to_pairs(crate::json::jm_seq_view(ms@).skip(idx as int)) is None,
        },
    decreases ms@.len() - idx,
{
    let ghost vs = crate::json::jm_seq_view(ms@).skip(idx as int);
    proof {
        crate::json::lemma_jm_seq_view_len(ms@);
    }
    if idx >= ms.len() {
        let ps: Vec<(String, String)> = Vec::new();
        proof {
            assert(vs =~= Seq::<(Seq<char>, JsonVal)>::empty());
            assert(Seq::new(ps@.len(), |k: int| (ps@[k].0@, ps@[k].1@)) =~= Seq::<
                (Seq<char>, Seq<char>),
            >::empty());
        }
        return Some(ps);
    }
    proof {
        crate::json::lemma_jm_seq_view_index(ms@, idx as int);
        assert(vs[0] == (ms@[idx as int].0@, crate::json::jv_view(ms@[idx as int].1)));
    }
    let body = match &ms[idx].1 {
        JsonValue::Str(s) => s.clone(),
        _ => {
            return None;
        },
    };
    let name = ms[idx].0.clone();
    match decode_pairs(ms, idx + 1) {
        Some(mut rest) => {
            let ghost rest_pre = rest@;
            rest.insert(0, (name, body));
            proof {
                assert(vs.drop_first() =~= crate::json::jm_seq_view(ms@).skip(idx as int + 1));
                assert(rest@.drop_first() =~= rest_pre);
                assert(rest@[0].0@ == ms@[idx as int].0@ && rest@[0].1@ == body@);
                assert(Seq::new(rest@.len(), |k: int| (rest@[k].0@, rest@[k].1@)) =~= seq![
                    (ms@[idx as int].0@, body@),
                ] + Seq::new(rest_pre.len(), |k: int| (rest_pre[k].0@, rest_pre[k].1@)));
                assert(jv_to_pairs(vs) == Some(seq![(ms@[idx as int].0@, body@)] + Seq::new(
                    rest_pre.len(),
                    |k: int| (rest_pre[k].0@, rest_pre[k].1@),
                )));
            }
            Some(rest)
        },
        None => {
            proof {
                assert(vs.drop_first() =~= crate::json::jm_seq_view(ms@).skip(idx as int + 1));
                assert(jv_to_pairs(vs) is None);
            }
            None
        },
    }
}

/// Write the variable list from `idx` on.
fn encode_vars(vs_: &Vec<ReactiveVariable>, idx: usize) -> (r: Vec<JsonValue>)
    requires
        idx <= vs_@.len(),
    ensures
        crate::json::jv_seq_view(r@) == vars_to_jv(
            Seq::new(vs_@.len(), |k: int| vs_@[k]@).skip(idx as int),
        ),
    decreases vs_@.len() - idx,
{
    let ghost full = Seq::new(vs_@.len(), |k: int| vs_@[k]@);
    let ghost vs = full.skip(idx as int);
    if idx >= vs_.len() {
        let r: Vec<JsonValue> = Vec::new();
        proof {
            assert(vs =~= Seq::<ReactiveVariableView>::empty());
            assert(crate::json::jv_seq_view(r@) =~= Seq::<JsonVal>::empty());
        }
        return r;
    }
    let v = encode_var(&vs_[idx]);
    let mut rest = encode_vars(vs_, idx + 1);
    let ghost rest_pre = rest@;
    rest.insert(0, v);
    proof {
        assert(vs[0] == full[idx as int]);
        assert(vs.drop_first() =~= full.skip(idx as int + 1));
        assert(rest@.drop_first() =~= rest_pre);
        assert(rest@[0] == v);
        assert(crate::json::jv_seq_view(rest@) == seq![crate::json::jv_view(rest@[0])]
            + crate::json::jv_seq_view(rest@.drop_first()));
        assert(crate::json::jv_seq_view(rest@) =~= vars_to_jv(vs));
    }
    rest
}

/// Read the variable list back, from `idx` on.
fn decode_vars(js: &Vec<JsonValue>, idx: usize) -> (r: Option<Vec<ReactiveVariable>>)
    requires
        idx <= js@.len(),
    ensures
        match r {
            Some(out) => jvs_to_vars(crate::json::jv_seq_view(js@).skip(idx as int)) == Some(
                Seq::new(out@.len(), |k: int| out@[k]@),
            ),
            None => jvs_to_vars(crate::json::jv_seq_view(js@).skip(idx as int)) is None,
        },
    decreases js@.len() - idx,
{
    let ghost vs = crate::json::jv_seq_view(js@).skip(idx as int);
    proof {
        crate::json::lemma_jv_seq_view_len(js@);
    }
    if idx >= js.len() {
        let out: Vec<ReactiveVariable> = Vec::new();
        proof {
            assert(vs =~= Seq::<JsonVal>::empty());
            assert(Seq::new(out@.len(), |k: int| out@[k]@) =~= Seq::<
                ReactiveVariableView,
            >::empty());
        }
        return Some(out);
    }
    proof {
        crate::json::lemma_jv_seq_view_index(js@, idx as int);
        assert(vs[0] == crate::json::jv_view(js@[idx as int]));
    }
    let v = match decode_var(&js[idx]) {
        Some(v) => v,
        None => {
            return None;
        },
    };
    match decode_vars(js, idx + 1) {
        Some(mut rest) => {
            let ghost rest_pre = rest@;
            rest.insert(0, v);
            proof {
                assert(vs.drop_first() =~= crate::json::jv_seq_view(js@).skip(idx as int + 1));
                assert(rest@.drop_first() =~= rest_pre);
                assert(rest@[0] == v);
                assert(Seq::new(rest@.len(), |k: int| rest@[k]@) =~= seq![v@] + Seq::new(
                    rest_pre.len(),
                    |k: int| rest_pre[k]@,
                ));
                assert(jvs_to_vars(vs) == Some(seq![v@] + Seq::new(
                    rest_pre.len(),
                    |k: int| rest_pre[k]@,
                )));
            }
            Some(rest)
        },
        None => {
            proof {
                assert(vs.drop_first() =~= crate::json::jv_seq_view(js@).skip(idx as int + 1));
                assert(jvs_to_vars(vs) is None);
            }
            None
        },
    }
}

/// Write the definition list from `idx` on.
fn encode_defs(ds: &Vec<ComponentDefinition>, idx: usize) -> (r: Vec<JsonValue>)
    requires
        idx <= ds@.len(),
    ensures
        crate::json::jv_seq_view(r@) == defs_to_jv(
            Seq::new(ds@.len(), |k: int| ds@[k]@).skip(idx as int),
        ),
    decreases ds@, ds@.len() - idx,
{
    let ghost full = Seq::new(ds@.len(), |k: int| ds@[k]@);
    let ghost vs = full.skip(idx as int);
    if idx >= ds.len() {
        let r: Vec<JsonValue> = Vec::new();
        proof {
            assert(vs =~= Seq::<ComponentDefinitionView>::empty());
            assert(crate::json::jv_seq_view(r@) =~= Seq::<JsonVal>::empty());
        }
        return r;
    }
    let mut ms: Vec<(String, JsonValue)> = Vec::new();
    let m0 = (String::from_str("name"), JsonValue::Str(ds[idx].name.clone()));
    let m1 = (String::from_str("template"), encode_comp(&ds[idx].template));
    proof {
        assert(crate::json::jm_seq_view(ms@) =~= Seq::<(Seq<char>, JsonVal)>::empty());
        crate::json::lemma_jm_seq_view_push(ms@, m0);
    }
    ms.push(m0);
    proof {
        crate::json::lemma_jm_seq_view_push(ms@, m1);
    }
    ms.push(m1);
    let v = JsonValue::Obj(ms);
    proof {
        assert(crate::json::jm_seq_view(ms@) =~= seq![
            ("name"@, JsonVal::Str(ds@[idx as int]@.name)),
            ("template"@, comp_to_jv(ds@[idx as int]@.template)),
        ]);
        assert(v@ == def_to_jv(ds@[idx as int]@));
    }
    let mut rest = encode_defs(ds, idx + 1);
    let ghost rest_pre = rest@;
    rest.insert(0, v);
    proof {
        assert(vs[0] == full[idx as int]);
        assert(vs.drop_first() =~= full.skip(idx as int + 1));
        assert(rest@.drop_first() =~= rest_pre);
        assert(rest@[0] == v);
        assert(crate::json::jv_seq_view(rest@) == seq![crate::json::jv_view(rest@[0])]
            + crate::json::jv_seq_view(rest@.drop_first()));
        assert(crate::json::jv_seq_view(rest@) =~= defs_to_jv(vs));
    }
    rest
}

/// Read the definition list back, from `idx` on.
fn decode_defs(js: &Vec<JsonValue>, idx: usize) -> (r: Option<Vec<ComponentDefinition>>)
    requires
        idx <= js@.len(),
    ensures
        match r {
            Some(out) => jvs_to_defs(crate::json::jv_seq_view(js@).skip(idx as int)) == Some(
                Seq::new(out@.len(), |k: int| out@[k]@),
            ),
            None => jvs_to_defs(crate::json::jv_seq_view(js@).skip(idx as int)) is None,
        },
    decreases js@, js@.len() - idx,
{
    let ghost vs = crate::json::jv_seq_view(js@).skip(idx as int);
    proof {
        crate::json::lemma_jv_seq_view_len(js@);
    }
    if idx >= js.len() {
        let out: Vec<ComponentDefinition> = Vec::new();
        proof {
            assert(vs =~= Seq::<JsonVal>::empty());
            assert(Seq::new(out@.len(), |k: int| out@[k]@) =~= Seq::<
                ComponentDefinitionView,
            >::empty());
        }
        return Some(out);
    }
    proof {
        crate::json::lemma_jv_seq_view_index(js@, idx as int);
        assert(vs[0] == crate::json::jv_view(js@[idx as int]));
    }
    let d = match decode_def(&js[idx]) {
        Some(d) => d,
        None => {
            return None;
        },
    };
    match decode_defs(js, idx + 1) {
        Some(mut rest) => {
            let ghost rest_pre = rest@;
            rest.insert(0, d);
            proof {
                assert(vs.drop_first() =~= crate::json::jv_seq_view(js@).skip(idx as int + 1));
                assert(rest@.drop_first() =~= rest_pre);
                assert(rest@[0] == d);
                assert(Seq::new(rest@.len(), |k: int| rest@[k]@) =~= seq![d@] + Seq::new(
                    rest_pre.len(),
                    |k: int| rest_pre[k]@,
                ));
                assert(jvs_to_defs(vs) == Some(seq![d@] + Seq::new(
                    rest_pre.len(),
                    |k: int| rest_pre[k]@,
                )));
            }
            Some(rest)
        },
        None => {
            proof {
                assert(vs.drop_first() =~= crate::json::jv_seq_view(js@).skip(idx as int + 1));
                assert(jvs_to_defs(vs) is None);
            }
            None
        },
    }
}

/// Read one definition back.
fn decode_def(j: &JsonValue) -> (r: Option<ComponentDefinition>)
    ensures
        match r {
            Some(d) => jv_to_def(j@) == Some(d@),
            None => jv_to_def(j@) is None,
        },
    decreases *j, 31int,
{
    let ms = match j {
        JsonValue::Obj(ms) => ms,
        _ => {
            return None;
        },
    };
    proof {
        crate::json::lemma_jm_seq_view_len(ms@);
    }
    if ms.len() != 2 {
        return None;
    }
    proof {
        crate::json::lemma_jm_seq_view_index(ms@, 0);
        crate::json::lemma_jm_seq_view_index(ms@, 1);
    }
    if !(ms[0].0.eq(&String::from_str("name")) && ms[1].0.eq(&String::from_str("template"))) {
        return None;
    }
    let name = match &ms[0].1 {
        JsonValue::Str(s) => s.clone(),
        _ => {
            return None;
        },
    };
    match decode_comp(&ms[1].1) {
        Some(t) => Some(ComponentDefinition { name, template: t }),
        None => None,
    }
}

/// Write the logic section.
fn encode_logic(l: &Logic) -> (r: JsonValue)
    ensures
        r@ == logic_to_jv(l@),
{
    let fpairs = encode_pairs(&l.functions, 0);
    let bitems = encode_bindings(&l.event_bindings, 0);
    let mut ms: Vec<(String, JsonValue)> = Vec::new();
    let m0 = (String::from_str("functions"), JsonValue::Obj(fpairs));
    let m1 = (String::from_str("event_bindings"), JsonValue::Arr(bitems));
    proof {
        assert(Seq::new(l.functions@.len(), |k: int| (l.functions@[k].0@, l.functions@[k].1@))
            .skip(0) =~= l@.functions);
        assert(Seq::new(l.event_bindings@.len(), |k: int| l.event_bindings@[k]@).skip(0)
            =~= l@.event_bindings);
        assert(crate::json::jm_seq_view(ms@) =~= Seq::<(Seq<char>, JsonVal)>::empty());
        crate::json::lemma_jm_seq_view_push(ms@, m0);
    }
    ms.push(m0);
    proof {
        crate::json::lemma_jm_seq_view_push(ms@, m1);
    }
    ms.push(m1);
    proof {
        assert(crate::json::jm_seq_view(ms@) =~= seq![
            ("functions"@, JsonVal::Obj(pairs_to_jv(l@.functions))),
            ("event_bindings"@, JsonVal::Arr(bindings_to_jv(l@.event_bindings))),
        ]);
    }
    JsonValue::Obj(ms)
}

/// Read the logic section back.
fn decode_logic(j: &JsonValue) -> (r: Option<Logic>)
    ensures
        match r {
            Some(l) => jv_to_logic(j@) == Some(l@),
            None => jv_to_logic(j@) is None,
        },
{
    let ms = match j {
        JsonValue::Obj(ms) => ms,
        _ => {
            return None;
        },
    };
    proof {
        crate::json::lemma_jm_seq_view_len(ms@);
    }
    if ms.len() != 2 {
        return None;
    }
    proof {
        crate::json::lemma_jm_seq_view_index(ms@, 0);
        crate::json::lemma_jm_seq_view_index(ms@, 1);
    }
    if !(ms[0].0.eq(&String::from_str("functions")) && ms[1].0.eq(
        &String::from_str("event_bindings"),
    )) {
        return None;
    }
    let fms = match &ms[0].1 {
        JsonValue::Obj(fms) => fms,
        _ => {
            return None;
        },
    };
    let bjs = match &ms[1].1 {
        JsonValue::Arr(bjs) => bjs,
        _ => {
            return None;
        },
    };
    proof {
        assert(crate::json::jm_seq_view(fms@).skip(0) =~= crate::json::jm_seq_view(fms@));
        assert(crate::json::jv_seq_view(bjs@).skip(0) =~= crate::json::jv_seq_view(bjs@));
    }
    let ps = match decode_pairs(fms, 0) {
        Some(ps) => ps,
        None => {
            return None;
        },
    };
    let bs = match decode_bindings(bjs, 0) {
        Some(bs) => bs,
        None => {
            return None;
        },
    };
    let l = Logic { functions: ps, event_bindings: bs };
    proof {
        assert(l@.functions =~= Seq::new(l.functions@.len(), |k: int| (l.functions@[k].0@,
            l.functions@[k].1@)));
        assert(l@.event_bindings =~= Seq::new(l.event_bindings@.len(), |k: int|
            l.event_bindings@[k]@));
    }
    Some(l)
}

/// Write the reactive manifest.
fn encode_manifest(m: &ReactiveManifest) -> (r: JsonValue)
    ensures
        r@ == manifest_to_jv(m@),
{
    let vitems = encode_vars(&m.variables, 0);
    let mut ms: Vec<(String, JsonValue)> = Vec::new();
    let m0 = (String::from_str("variables"), JsonValue::Arr(vitems));
    proof {
        assert(Seq::new(m.variables@.len(), |k: int| m.variables@[k]@).skip(0)
            =~= m@.variables);
        assert(crate::json::jm_seq_view(ms@) =~= Seq::<(Seq<char>, JsonVal)>::empty());
        crate::json::lemma_jm_seq_view_push(ms@, m0);
    }
    ms.push(m0);
    proof {
        assert(crate::json::jm_seq_view(ms@) =~= seq![
            ("variables"@, JsonVal::Arr(vars_to_jv(m@.variables))),
        ]);
    }
    JsonValue::Obj(ms)
}

/// Read the reactive manifest back.
fn decode_manifest(j: &JsonValue) -> (r: Option<ReactiveManifest>)
    ensures
        match r {
            Some(m) => jv_to_manifest(j@) == Some(m@),
            None => jv_to_manifest(j@) is None,
        },
{
    let ms = match j {
        JsonValue::Obj(ms) => ms,
        _ => {
            return None;
        },
    };
    proof {
        crate::json::lemma_jm_seq_view_len(ms@);
    }
    if ms.len() != 1 {
        return None;
    }
    proof {
        crate::json::lemma_jm_seq_view_index(ms@, 0);
    }
    if !ms[0].0.eq(&String::from_str("variables")) {
        return None;
    }
    let vjs = match &ms[0].1 {
        JsonValue::Arr(vjs) => vjs,
        _ => {
            return None;
        },
    };
    proof {
        assert(crate::json::jv_seq_view(vjs@).skip(0) =~= crate::json::jv_seq_view(vjs@));
    }
    let vs = match decode_vars(vjs, 0) {
        Some(vs) => vs,
        None => {
            return None;
        },
    };
    let m = ReactiveManifest { variables: vs };
    proof {
        assert(m@.variables =~= Seq::new(m.variables@.len(), |k: int| m.variables@[k]@));
    }
    Some(m)
}

/// Write a whole document as a JSON value.
fn encode_doc(d: &IRDocument) -> (r: JsonValue)
    ensures
        r@ == doc_to_jv(d@),
{
    let mut ms: Vec<(String, JsonValue)> = Vec::new();
    let m_fv = (String::from_str("format_version"), JsonValue::Str(d.format_version.clone()));
    proof {
        assert(crate::json::jm_seq_view(ms@) =~= Seq::<(Seq<char>, JsonVal)>::empty());
        crate::json::lemma_jm_seq_view_push(ms@, m_fv);
    }
    ms.push(m_fv);
    let ghost after_fv = crate::json::jm_seq_view(ms@);
    if d.component_definitions.len() > 0 {
        let ditems = encode_defs(&d.component_definitions, 0);
        let m_defs = (String::from_str("component_definitions"), JsonValue::Arr(ditems));
        proof {
            assert(Seq::new(d.component_definitions@.len(), |k: int|
                d.component_definitions@[k]@).skip(0) =~= d@.component_definitions);
            crate::json::lemma_jm_seq_view_push(ms@, m_defs);
        }
        ms.push(m_defs);
    }
    let m_root = (String::from_str("root"), encode_comp(&d.root));
    proof {
        crate::json::lemma_jm_seq_view_push(ms@, m_root);
    }
    ms.push(m_root);
    let m_logic = (String::from_str("logic"), encode_logic(&d.logic));
    proof {
        crate::json::lemma_jm_seq_view_push(ms@, m_logic);
    }
    ms.push(m_logic);
    let m_mf = (String::from_str("reactive_manifest"), encode_manifest(&d.reactive_manifest));
    proof {
        crate::json::lemma_jm_seq_view_push(ms@, m_mf);
    }
    ms.push(m_mf);
    proof {
        assert(d@.component_definitions.len() == d.component_definitions@.len());
        assert(crate::json::jm_seq_view(ms@) =~= doc_members(d@));
    }
    JsonValue::Obj(ms)
}

/// Read a whole document back from a JSON value.
#[verifier::rlimit(60)]
fn decode_doc(j: &JsonValue) -> (r: Option<IRDocument>)
    ensures
        match r {
            Some(d) => jv_to_doc(j@) == Some(d@),
            None => jv_to_doc(j@) is None,
        },
{
    let ms = match j {
        JsonValue::Obj(ms) => ms,
        _ => {
            return None;
        },
    };
    proof {
        crate::json::lemma_jm_seq_view_len(ms@);
    }
    if ms.len() < 1 {
        return None;
    }
    proof {
        crate::json::lemma_jm_seq_view_index(ms@, 0);
    }
    if !ms[0].0.eq(&String::from_str("format_version")) {
        return None;
    }
    let fv = match &ms[0].1 {
        JsonValue::Str(s) => s.clone(),
        _ => {
            return None;
        },
    };
    let mut i: usize = 1;
    let mut defs: Vec<ComponentDefinition> = Vec::new();
    let ghost dv0: Seq<ComponentDefinitionView> = Seq::new(defs@.len(), |k: int| defs@[k]@);
    proof {
        assert(dv0 =~= Seq::<ComponentDefinitionView>::empty());
    }
    let mut has_defs = false;
    if 1 < ms.len() {
        proof {
            crate::json::lemma_jm_seq_view_index(ms@, 1);
        }
        if ms[1].0.eq(&String::from_str("component_definitions")) {
            has_defs = true;
            match &ms[1].1 {
                JsonValue::Arr(djs) => {
                    proof {
                        assert(crate::json::jv_seq_view(djs@).skip(0)
                            =~= crate::json::jv_seq_view(djs@));
                    }
                    match decode_defs(djs, 0) {
                        Some(ds) => {
                            defs = ds;
                            i = 2;
                        },
                        None => {
                            return None;
                        },
                    }
                },
                _ => {
                    return None;
                },
            }
        }
    }
    if !(i < ms.len()) {
        return None;
    }
    proof {
        crate::json::lemma_jm_seq_view_index(ms@, i as int);
    }
    if !ms[i].0.eq(&String::from_str("root")) {
        return None;
    }
    let root = match decode_comp(&ms[i].1) {
        Some(c) => c,
        None => {
            return None;
        },
    };
    let mut logic = Logic::empty();
    proof {
        assert(logic@.functions =~= Seq::<(Seq<char>, Seq<char>)>::empty());
        assert(logic@.event_bindings =~= Seq::<EventBindingView>::empty());
        assert(logic@ == empty_logic_view());
    }
    if i + 1 < ms.len() {
        proof {
            crate::json::lemma_jm_seq_view_index(ms@, i as int + 1);
        }
        if ms[i + 1].0.eq(&String::from_str("logic")) {
            match decode_logic(&ms[i + 1].1) {
                Some(l) => {
                    logic = l;
                    i = i + 2;
                },
                None => {
                    return None;
                },
            }
        } else {
            i = i + 1;
        }
    } else {
        i = i + 1;
    }
    let mut manifest = ReactiveManifest::empty();
    proof {
        assert(manifest@.variables =~= Seq::<ReactiveVariableView>::empty());
        assert(manifest@ == empty_manifest_view());
    }
    if i < ms.len() {
        proof {
            crate::json::lemma_jm_seq_view_index(ms@, i as int);
        }
        if ms[i].0.eq(&String::from_str("reactive_manifest")) {
            match decode_manifest(&ms[i].1) {
                Some(m) => {
                    manifest = m;
                    i = i + 1;
                },
                None => {
                    return None;
                },
            }
        }
    }
    if i != ms.len() {
        return None;
    }
    let d = IRDocument {
        format_version: fv,
        component_definitions: defs,
        root,
        logic,
        reactive_manifest: manifest,
    };
    proof {
        assert(d@.component_definitions =~= Seq::new(d.component_definitions@.len(), |k: int|
            d.component_definitions@[k]@));
    }
    Some(d)
}

/// A serialization or deserialization failure.
#[derive(Debug, Clone, Copy, PartialEq, Eq, Structural)]
pub enum JsonError {
    /// The text is not one well-formed JSON value in the accepted
    /// grammar.
    Syntax,
    /// The JSON value does not have the document schema's shape.
    Schema,
}

impl IRDocument {
    /// Serialize the document to its canonical JSON text.
    pub fn to_json(&self) -> (r: Result<String, JsonError>)
        ensures
            r matches Ok(s) && s@ == crate::json::se_json(doc_to_jv(self@)),
    {
        let v = encode_doc(self);
        Ok(crate::json::write_json(&v))
    }

    /// Deserialize a document from JSON text: the text must hold one
    /// value in the accepted grammar, and that value must have the
    /// document schema's shape.
    pub fn from_json(json: &str) -> (r: Result<Self, JsonError>)
        ensures
            match r {
                Ok(d) => {
                    &&& crate::json::sp_json_text(json@) is Some
                    &&& jv_to_doc(crate::json::sp_json_text(json@)->0) == Some(d@)
                },
                Err(e) => match crate::json::sp_json_text(json@) {
                    Option::None => e == JsonError::Syntax,
                    Option::Some(jv) => jv_to_doc(jv) is None && e == JsonError::Schema,
                },
            },
    {
        let v = match crate::json::read_json_text(json) {
            Some(v) => v,
            None => {
                return Err(JsonError::Syntax);
            },
        };
        match decode_doc(&v) {
            Some(d) => Ok(d),
            None => Err(JsonError::Schema),
        }
    }
}

/// Reveals every member key as its character sequence.
pub proof fn lemma_comp_keys()
    ensures
        "id"@ == seq!['i', 'd'],
        "type"@ == seq!['t', 'y', 'p', 'e'],
        "width"@ == seq!['w', 'i', 'd', 't', 'h'],
        "height"@ == seq!['h', 'e', 'i', 'g', 'h', 't'],
        "padding"@ == seq!['p', 'a', 'd', 'd', 'i', 'n', 'g'],
        "margin"@ == seq!['m', 'a', 'r', 'g', 'i', 'n'],
        "gap"@ == seq!['g', 'a', 'p'],
        "justifyContent"@ == seq!['j', 'u', 's', 't', 'i', 'f', 'y', 'C', 'o', 'n', 't', 'e', 'n', 't'],
        "alignItems"@ == seq!['a', 'l', 'i', 'g', 'n', 'I', 't', 'e', 'm', 's'],
        "flexGrow"@ == seq!['f', 'l', 'e', 'x', 'G', 'r', 'o', 'w'],
        "flexShrink"@ == seq!['f', 'l', 'e', 'x', 'S', 'h', 'r', 'i', 'n', 'k'],
        "background"@ == seq!['b', 'a', 'c', 'k', 'g', 'r', 'o', 'u', 'n', 'd'],
        "color"@ == seq!['c', 'o', 'l', 'o', 'r'],
        "opacity"@ == seq!['o', 'p', 'a', 'c', 'i', 't', 'y'],
        "fontSize"@ == seq!['f', 'o', 'n', 't', 'S', 'i', 'z', 'e'],
        "content"@ == seq!['c', 'o', 'n', 't', 'e', 'n', 't'],
        "text"@ == seq!['t', 'e', 'x', 't'],
        "placeholder"@ == seq!['p', 'l', 'a', 'c', 'e', 'h', 'o', 'l', 'd', 'e', 'r'],
        "windowTitle"@ == seq!['w', 'i', 'n', 'd', 'o', 'w', 'T', 'i', 't', 'l', 'e'],
        "children"@ == seq!['c', 'h', 'i', 'l', 'd', 'r', 'e', 'n'],
{
    reveal_strlit("id");
    reveal_strlit("type");
    reveal_strlit("width");
    reveal_strlit("height");
    reveal_strlit("padding");
    reveal_strlit("margin");
    reveal_strlit("gap");
    reveal_strlit("justifyContent");
    reveal_strlit("alignItems");
    reveal_strlit("flexGrow");
    reveal_strlit("flexShrink");
    reveal_strlit("background");
    reveal_strlit("color");
    reveal_strlit("opacity");
    reveal_strlit("fontSize");
    reveal_strlit("content");
    reveal_strlit("text");
    reveal_strlit("placeholder");
    reveal_strlit("windowTitle");
    reveal_strlit("children");
    assert("id"@ =~= seq!['i', 'd']);
    assert("type"@ =~= seq!['t', 'y', 'p', 'e']);
    assert("width"@ =~= seq!['w', 'i', 'd', 't', 'h']);
    assert("height"@ =~= seq!['h', 'e', 'i', 'g', 'h', 't']);
    assert("padding"@ =~= seq!['p', 'a', 'd', 'd', 'i', 'n', 'g']);
    assert("margin"@ =~= seq!['m', 'a', 'r', 'g', 'i', 'n']);
    assert("gap"@ =~= seq!['g', 'a', 'p']);
    assert("justifyContent"@ =~= seq!['j', 'u', 's', 't', 'i', 'f', 'y', 'C', 'o', 'n', 't', 'e', 'n', 't']);
    assert("alignItems"@ =~= seq!['a', 'l', 'i', 'g', 'n', 'I', 't', 'e', 'm', 's']);
    assert("flexGrow"@ =~= seq!['f', 'l', 'e', 'x', 'G', 'r', 'o', 'w']);
    assert("flexShrink"@ =~= seq!['f', 'l', 'e', 'x', 'S', 'h', 'r', 'i', 'n', 'k']);
    assert("background"@ =~= seq!['b', 'a', 'c', 'k', 'g', 'r', 'o', 'u', 'n', 'd']);
    assert("color"@ =~= seq!['c', 'o', 'l', 'o', 'r']);
    assert("opacity"@ =~= seq!['o', 'p', 'a', 'c', 'i', 't', 'y']);
    assert("fontSize"@ =~= seq!['f', 'o', 'n', 't', 'S', 'i', 'z', 'e']);
    assert("content"@ =~= seq!['c', 'o', 'n', 't', 'e', 'n', 't']);
    assert("text"@ =~= seq!['t', 'e', 'x', 't']);
    assert("placeholder"@ =~= seq!['p', 'l', 'a', 'c', 'e', 'h', 'o', 'l', 'd', 'e', 'r']);
    assert("windowTitle"@ =~= seq!['w', 'i', 'n', 'd', 'o', 'w', 'T', 'i', 't', 'l', 'e']);
    assert("children"@ =~= seq!['c', 'h', 'i', 'l', 'd', 'r', 'e', 'n']);
}

/// A slice of a known member tail.
proof fn lemma_tail_index<T>(t: Seq<T>, i: int, p: Seq<T>, k: int)
    requires
        0 <= i,
        i + p.len() == t.len(),
        t.subrange(i, t.len() as int) == p,
        0 <= k < p.len(),
    ensures
        t[i + k] == p[k],
{
    assert(t.subrange(i, t.len() as int)[k] == t[i + k]);
}

/// Dropping the first member of the tail.
proof fn lemma_tail_drop<T>(t: Seq<T>, i: int, p: Seq<T>)
    requires
        0 <= i,
        i + p.len() == t.len(),
        t.subrange(i, t.len() as int) == p,
        p.len() >= 1,
    ensures
        t.subrange(i + 1, t.len() as int) == p.drop_first(),
{
    assert forall|k: int| 0 <= k < p.len() - 1 implies t.subrange(i + 1, t.len() as int)[k]
        == p.drop_first()[k] by {
        assert(t.subrange(i + 1, t.len() as int)[k] == t[(i + 1) + k]);
        assert(t.subrange(i, t.len() as int)[1 + k] == t[i + (1 + k)]);
    }
    assert(t.subrange(i + 1, t.len() as int) =~= p.drop_first());
}

/// The first key of the children suffix.
proof fn lemma_sfx_first_children(c: ComponentView)
    ensures
        sfx_children(c).len() > 0 ==> sfx_children(c)[0].0 == "children"@,
{
}

/// The first key of the `windowTitle` suffix.
proof fn lemma_sfx_first_window_title(c: ComponentView)
    ensures
        sfx_window_title(c).len() > 0 ==> (sfx_window_title(c)[0].0 == "windowTitle"@ || sfx_window_title(c)[0].0 == "children"@),
{
    lemma_sfx_first_children(c);
    if c.window_title is Some {
    } else {
        assert(sfx_window_title(c) =~= sfx_children(c));
    }
}

/// The first key of the `placeholder` suffix.
proof fn lemma_sfx_first_placeholder(c: ComponentView)
    ensures
        sfx_placeholder(c).len() > 0 ==> (sfx_placeholder(c)[0].0 == "placeholder"@ || sfx_placeholder(c)[0].0 == "windowTitle"@ || sfx_placeholder(c)[0].0 == "children"@),
{
    lemma_sfx_first_window_title(c);
    if c.placeholder is Some {
    } else {
        assert(sfx_placeholder(c) =~= sfx_window_title(c));
    }
}

/// The first key of the `text` suffix.
proof fn lemma_sfx_first_text(c: ComponentView)
    ensures
        sfx_text(c).len() > 0 ==> (sfx_text(c)[0].0 == "text"@ || sfx_text(c)[0].0 == "placeholder"@ || sfx_text(c)[0].0 == "windowTitle"@ || sfx_text(c)[0].0 == "children"@),
{
    lemma_sfx_first_placeholder(c);
    if c.text is Some {
    } else {
        assert(sfx_text(c) =~= sfx_placeholder(c));
    }
}

/// The first key of the `content` suffix.
proof fn lemma_sfx_first_content(c: ComponentView)
    ensures
        sfx_content(c).len() > 0 ==> (sfx_content(c)[0].0 == "content"@ || sfx_content(c)[0].0 == "text"@ || sfx_content(c)[0].0 == "placeholder"@ || sfx_content(c)[0].0 == "windowTitle"@ || sfx_content(c)[0].0 == "children"@),
{
    lemma_sfx_first_text(c);
    if c.content is Some {
    } else {
        assert(sfx_content(c) =~= sfx_text(c));
    }
}

/// The first key of the `fontSize` suffix.
proof fn lemma_sfx_first_font_size(c: ComponentView)
    ensures
        sfx_font_size(c).len() > 0 ==> (sfx_font_size(c)[0].0 == "fontSize"@ || sfx_font_size(c)[0].0 == "content"@ || sfx_font_size(c)[0].0 == "text"@ || sfx_font_size(c)[0].0 == "placeholder"@ || sfx_font_size(c)[0].0 == "windowTitle"@ || sfx_font_size(c)[0].0 == "children"@),
{
    lemma_sfx_first_content(c);
    if c.font_size is Some {
    } else {
        assert(sfx_font_size(c) =~= sfx_content(c));
    }
}

/// The first key of the `opacity` suffix.
proof fn lemma_sfx_first_opacity(c: ComponentView)
    ensures
        sfx_opacity(c).len() > 0 ==> (sfx_opacity(c)[0].0 == "opacity"@ || sfx_opacity(c)[0].0 == "fontSize"@ || sfx_opacity(c)[0].0 == "content"@ || sfx_opacity(c)[0].0 == "text"@ || sfx_opacity(c)[0].0 == "placeholder"@ || sfx_opacity(c)[0].0 == "windowTitle"@ || sfx_opacity(c)[0].0 == "children"@),
{
    lemma_sfx_first_font_size(c);
    if c.opacity is Some {
    } else {
        assert(sfx_opacity(c) =~= sfx_font_size(c));
    }
}

/// The first key of the `color` suffix.
proof fn lemma_sfx_first_color(c: ComponentView)
    ensures
        sfx_color(c).len() > 0 ==> (sfx_color(c)[0].0 == "color"@ || sfx_color(c)[0].0 == "opacity"@ || sfx_color(c)[0].0 == "fontSize"@ || sfx_color(c)[0].0 == "content"@ || sfx_color(c)[0].0 == "text"@ || sfx_color(c)[0].0 == "placeholder"@ || sfx_color(c)[0].0 == "windowTitle"@ || sfx_color(c)[0].0 == "children"@),
{
    lemma_sfx_first_opacity(c);
    if c.color is Some {
    } else {
        assert(sfx_color(c) =~= sfx_opacity(c));
    }
}

/// The first key of the `background` suffix.
proof fn lemma_sfx_first_background(c: ComponentView)
    ensures
        sfx_background(c).len() > 0 ==> (sfx_background(c)[0].0 == "background"@ || sfx_background(c)[0].0 == "color"@ || sfx_background(c)[0].0 == "opacity"@ || sfx_background(c)[0].0 == "fontSize"@ || sfx_background(c)[0].0 == "content"@ || sfx_background(c)[0].0 == "text"@ || sfx_background(c)[0].0 == "placeholder"@ || sfx_background(c)[0].0 == "windowTitle"@ || sfx_background(c)[0].0 == "children"@),
{
    lemma_sfx_first_color(c);
    if c.background is Some {
    } else {
        assert(sfx_background(c) =~= sfx_color(c));
    }
}

/// The first key of the `flexShrink` suffix.
proof fn lemma_sfx_first_flex_shrink(c: ComponentView)
    ensures
        sfx_flex_shrink(c).len() > 0 ==> (sfx_flex_shrink(c)[0].0 == "flexShrink"@ || sfx_flex_shrink(c)[0].0 == "background"@ || sfx_flex_shrink(c)[0].0 == "color"@ || sfx_flex_shrink(c)[0].0 == "opacity"@ || sfx_flex_shrink(c)[0].0 == "fontSize"@ || sfx_flex_shrink(c)[0].0 == "content"@ || sfx_flex_shrink(c)[0].0 == "text"@ || sfx_flex_shrink(c)[0].0 == "placeholder"@ || sfx_flex_shrink(c)[0].0 == "windowTitle"@ || sfx_flex_shrink(c)[0].0 == "children"@),
{
    lemma_sfx_first_background(c);
    if c.flex_shrink is Some {
    } else {
        assert(sfx_flex_shrink(c) =~= sfx_background(c));
    }
}

/// The first key of the `flexGrow` suffix.
proof fn lemma_sfx_first_flex_grow(c: ComponentView)
    ensures
        sfx_flex_grow(c).len() > 0 ==> (sfx_flex_grow(c)[0].0 == "flexGrow"@ || sfx_flex_grow(c)[0].0 == "flexShrink"@ || sfx_flex_grow(c)[0].0 == "background"@ || sfx_flex_grow(c)[0].0 == "color"@ || sfx_flex_grow(c)[0].0 == "opacity"@ || sfx_flex_grow(c)[0].0 == "fontSize"@ || sfx_flex_grow(c)[0].0 == "content"@ || sfx_flex_grow(c)[0].0 == "text"@ || sfx_flex_grow(c)[0].0 == "placeholder"@ || sfx_flex_grow(c)[0].0 == "windowTitle"@ || sfx_flex_grow(c)[0].0 == "children"@),
{
    lemma_sfx_first_flex_shrink(c);
    if c.flex_grow is Some {
    } else {
        assert(sfx_flex_grow(c) =~= sfx_flex_shrink(c));
    }
}

/// The first key of the `alignItems` suffix.
proof fn lemma_sfx_first_align_items(c: ComponentView)
    ensures
        sfx_align_items(c).len() > 0 ==> (sfx_align_items(c)[0].0 == "alignItems"@ || sfx_align_items(c)[0].0 == "flexGrow"@ || sfx_align_items(c)[0].0 == "flexShrink"@ || sfx_align_items(c)[0].0 == "background"@ || sfx_align_items(c)[0].0 == "color"@ || sfx_align_items(c)[0].0 == "opacity"@ || sfx_align_items(c)[0].0 == "fontSize"@ || sfx_align_items(c)[0].0 == "content"@ || sfx_align_items(c)[0].0 == "text"@ || sfx_align_items(c)[0].0 == "placeholder"@ || sfx_align_items(c)[0].0 == "windowTitle"@ || sfx_align_items(c)[0].0 == "children"@),
{
    lemma_sfx_first_flex_grow(c);
    if c.align_items is Some {
    } else {
        assert(sfx_align_items(c) =~= sfx_flex_grow(c));
    }
}

/// The first key of the `justifyContent` suffix.
proof fn lemma_sfx_first_justify_content(c: ComponentView)
    ensures
        sfx_justify_content(c).len() > 0 ==> (sfx_justify_content(c)[0].0 == "justifyContent"@ || sfx_justify_content(c)[0].0 == "alignItems"@ || sfx_justify_content(c)[0].0 == "flexGrow"@ || sfx_justify_content(c)[0].0 == "flexShrink"@ || sfx_justify_content(c)[0].0 == "background"@ || sfx_justify_content(c)[0].0 == "color"@ || sfx_justify_content(c)[0].0 == "opacity"@ || sfx_justify_content(c)[0].0 == "fontSize"@ || sfx_justify_content(c)[0].0 == "content"@ || sfx_justify_content(c)[0].0 == "text"@ || sfx_justify_content(c)[0].0 == "placeholder"@ || sfx_justify_content(c)[0].0 == "windowTitle"@ || sfx_justify_content(c)[0].0 == "children"@),
{
    lemma_sfx_first_align_items(c);
    if c.justify_content is Some {
    } else {
        assert(sfx_justify_content(c) =~= sfx_align_items(c));
    }
}

/// The first key of the `gap` suffix.
proof fn lemma_sfx_first_gap(c: ComponentView)
    ensures
        sfx_gap(c).len() > 0 ==> (sfx_gap(c)[0].0 == "gap"@ || sfx_gap(c)[0].0 == "justifyContent"@ || sfx_gap(c)[0].0 == "alignItems"@ || sfx_gap(c)[0].0 == "flexGrow"@ || sfx_gap(c)[0].0 == "flexShrink"@ || sfx_gap(c)[0].0 == "background"@ || sfx_gap(c)[0].0 == "color"@ || sfx_gap(c)[0].0 == "opacity"@ || sfx_gap(c)[0].0 == "fontSize"@ || sfx_gap(c)[0].0 == "content"@ || sfx_gap(c)[0].0 == "text"@ || sfx_gap(c)[0].0 == "placeholder"@ || sfx_gap(c)[0].0 == "windowTitle"@ || sfx_gap(c)[0].0 == "children"@),
{
    lemma_sfx_first_justify_content(c);
    if c.gap is Some {
    } else {
        assert(sfx_gap(c) =~= sfx_justify_content(c));
    }
}

/// The first key of the `margin` suffix.
proof fn lemma_sfx_first_margin(c: ComponentView)
    ensures
        sfx_margin(c).len() > 0 ==> (sfx_margin(c)[0].0 == "margin"@ || sfx_margin(c)[0].0 == "gap"@ || sfx_margin(c)[0].0 == "justifyContent"@ || sfx_margin(c)[0].0 == "alignItems"@ || sfx_margin(c)[0].0 == "flexGrow"@ || sfx_margin(c)[0].0 == "flexShrink"@ || sfx_margin(c)[0].0 == "background"@ || sfx_margin(c)[0].0 == "color"@ || sfx_margin(c)[0].0 == "opacity"@ || sfx_margin(c)[0].0 == "fontSize"@ || sfx_margin(c)[0].0 == "content"@ || sfx_margin(c)[0].0 == "text"@ || sfx_margin(c)[0].0 == "placeholder"@ || sfx_margin(c)[0].0 == "windowTitle"@ || sfx_margin(c)[0].0 == "children"@),
{
    lemma_sfx_first_gap(c);
    if c.margin is Some {
    } else {
        assert(sfx_margin(c) =~= sfx_gap(c));
    }
}

/// The first key of the `padding` suffix.
proof fn lemma_sfx_first_padding(c: ComponentView)
    ensures
        sfx_padding(c).len() > 0 ==> (sfx_padding(c)[0].0 == "padding"@ || sfx_padding(c)[0].0 == "margin"@ || sfx_padding(c)[0].0 == "gap"@ || sfx_padding(c)[0].0 == "justifyContent"@ || sfx_padding(c)[0].0 == "alignItems"@ || sfx_padding(c)[0].0 == "flexGrow"@ || sfx_padding(c)[0].0 == "flexShrink"@ || sfx_padding(c)[0].0 == "background"@ || sfx_padding(c)[0].0 == "color"@ || sfx_padding(c)[0].0 == "opacity"@ || sfx_padding(c)[0].0 == "fontSize"@ || sfx_padding(c)[0].0 == "content"@ || sfx_padding(c)[0].0 == "text"@ || sfx_padding(c)[0].0 == "placeholder"@ || sfx_padding(c)[0].0 == "windowTitle"@ || sfx_padding(c)[0].0 == "children"@),
{
    lemma_sfx_first_margin(c);
    if c.padding is Some {
    } else {
        assert(sfx_padding(c) =~= sfx_margin(c));
    }
}

/// The first key of the `height` suffix.
proof fn lemma_sfx_first_height(c: ComponentView)
    ensures
        sfx_height(c).len() > 0 ==> (sfx_height(c)[0].0 == "height"@ || sfx_height(c)[0].0 == "padding"@ || sfx_height(c)[0].0 == "margin"@ || sfx_height(c)[0].0 == "gap"@ || sfx_height(c)[0].0 == "justifyContent"@ || sfx_height(c)[0].0 == "alignItems"@ || sfx_height(c)[0].0 == "flexGrow"@ || sfx_height(c)[0].0 == "flexShrink"@ || sfx_height(c)[0].0 == "background"@ || sfx_height(c)[0].0 == "color"@ || sfx_height(c)[0].0 == "opacity"@ || sfx_height(c)[0].0 == "fontSize"@ || sfx_height(c)[0].0 == "content"@ || sfx_height(c)[0].0 == "text"@ || sfx_height(c)[0].0 == "placeholder"@ || sfx_height(c)[0].0 == "windowTitle"@ || sfx_height(c)[0].0 == "children"@),
{
    lemma_sfx_first_padding(c);
    if c.height is Some {
    } else {
        assert(sfx_height(c) =~= sfx_padding(c));
    }
}

/// The first key of the `width` suffix.
proof fn lemma_sfx_first_width(c: ComponentView)
    ensures
        sfx_width(c).len() > 0 ==> (sfx_width(c)[0].0 == "width"@ || sfx_width(c)[0].0 == "height"@ || sfx_width(c)[0].0 == "padding"@ || sfx_width(c)[0].0 == "margin"@ || sfx_width(c)[0].0 == "gap"@ || sfx_width(c)[0].0 == "justifyContent"@ || sfx_width(c)[0].0 == "alignItems"@ || sfx_width(c)[0].0 == "flexGrow"@ || sfx_width(c)[0].0 == "flexShrink"@ || sfx_width(c)[0].0 == "background"@ || sfx_width(c)[0].0 == "color"@ || sfx_width(c)[0].0 == "opacity"@ || sfx_width(c)[0].0 == "fontSize"@ || sfx_width(c)[0].0 == "content"@ || sfx_width(c)[0].0 == "text"@ || sfx_width(c)[0].0 == "placeholder"@ || sfx_width(c)[0].0 == "windowTitle"@ || sfx_width(c)[0].0 == "children"@),
{
    lemma_sfx_first_height(c);
    if c.width is Some {
    } else {
        assert(sfx_width(c) =~= sfx_height(c));
    }
}

/// Decoding the tail from the `width` field on restores those fields.
#[verifier::rlimit(100)]
proof fn lemma_dec_rt_width(c: ComponentView, ms: Seq<(Seq<char>, JsonVal)>, i: int, acc: ComponentView)
    requires
        0 <= i,
        i + sfx_width(c).len() == ms.len(),
        ms.subrange(i, ms.len() as int) == sfx_width(c),
        acc.children == Seq::<ComponentView>::empty(),
    ensures
        dec_width(ms, i, acc) == Some(ComponentView { width: c.width, height: c.height, padding: c.padding, margin: c.margin, gap: c.gap, justify_content: c.justify_content, align_items: c.align_items, flex_grow: c.flex_grow, flex_shrink: c.flex_shrink, background: c.background, color: c.color, opacity: c.opacity, font_size: c.font_size, content: c.content, text: c.text, placeholder: c.placeholder, window_title: c.window_title, children: c.children, ..acc }),
    decreases c, 22int,
{
    let sfx = sfx_width(c);
    match c.width {
        Some(v) => {
            let m = ("width"@, JsonVal::Str(v));
            assert(sfx == seq![m] + sfx_height(c));
            lemma_tail_index(ms, i, sfx, 0);
            assert(ms[i] == m);
            assert(peel_str(ms, i, "width"@) == Some((Some(v), i + 1)));
            lemma_tail_drop(ms, i, sfx);
            assert(sfx.drop_first() =~= sfx_height(c));
            lemma_dec_rt_height(c, ms, i + 1, ComponentView { width: Some(v), ..acc });
        },
        None => {
            assert(sfx =~= sfx_height(c));
            if i < ms.len() {
                lemma_tail_index(ms, i, sfx, 0);
                assert(ms[i] == sfx_height(c)[0]);
                assert(ms[i].0 != "width"@) by {
                    lemma_comp_keys();
                    lemma_sfx_first_height(c);
                }
            }
            assert(peel_str(ms, i, "width"@) == Some((None::<Seq<char>>, i)));
            lemma_dec_rt_height(c, ms, i, ComponentView { width: None, ..acc });
        },
    }
}

/// Decoding the tail from the `height` field on restores those fields.
#[verifier::rlimit(100)]
proof fn lemma_dec_rt_height(c: ComponentView, ms: Seq<(Seq<char>, JsonVal)>, i: int, acc: ComponentView)
    requires
        0 <= i,
        i + sfx_height(c).len() == ms.len(),
        ms.subrange(i, ms.len() as int) == sfx_height(c),
        acc.children == Seq::<ComponentView>::empty(),
    ensures
        dec_height(ms, i, acc) == Some(ComponentView { width: acc.width, height: c.height, padding: c.padding, margin: c.margin, gap: c.gap, justify_content: c.justify_content, align_items: c.align_items, flex_grow: c.flex_grow, flex_shrink: c.flex_shrink, background: c.background, color: c.color, opacity: c.opacity, font_size: c.font_size, content: c.content, text: c.text, placeholder: c.placeholder, window_title: c.window_title, children: c.children, ..acc }),
    decreases c, 21int,
{
    let sfx = sfx_height(c);
    match c.height {
        Some(v) => {
            let m = ("height"@, JsonVal::Str(v));
            assert(sfx == seq![m] + sfx_padding(c));
            lemma_tail_index(ms, i, sfx, 0);
            assert(ms[i] == m);
            assert(peel_str(ms, i, "height"@) == Some((Some(v), i + 1)));
            lemma_tail_drop(ms, i, sfx);
            assert(sfx.drop_first() =~= sfx_padding(c));
            lemma_dec_rt_padding(c, ms, i + 1, ComponentView { height: Some(v), ..acc });
        },
        None => {
            assert(sfx =~= sfx_padding(c));
            if i < ms.len() {
                lemma_tail_index(ms, i, sfx, 0);
                assert(ms[i] == sfx_padding(c)[0]);
                assert(ms[i].0 != "height"@) by {
                    lemma_comp_keys();
                    lemma_sfx_first_padding(c);
                }
            }
            assert(peel_str(ms, i, "height"@) == Some((None::<Seq<char>>, i)));
            lemma_dec_rt_padding(c, ms, i, ComponentView { height: None, ..acc });
        },
    }
}

/// Decoding the tail from the `padding` field on restores those fields.
#[verifier::rlimit(100)]
proof fn lemma_dec_rt_padding(c: ComponentView, ms: Seq<(Seq<char>, JsonVal)>, i: int, acc: ComponentView)
    requires
        0 <= i,
        i + sfx_padding(c).len() == ms.len(),
        ms.subrange(i, ms.len() as int) == sfx_padding(c),
        acc.children == Seq::<ComponentView>::empty(),
    ensures
        dec_padding(ms, i, acc) == Some(ComponentView { width: acc.width, height: acc.height, padding: c.padding, margin: c.margin, gap: c.gap, justify_content: c.justify_content, align_items: c.align_items, flex_grow: c.flex_grow, flex_shrink: c.flex_shrink, background: c.background, color: c.color, opacity: c.opacity, font_size: c.font_size, content: c.content, text: c.text, placeholder: c.placeholder, window_title: c.window_title, children: c.children, ..acc }),
    decreases c, 20int,
{
    let sfx = sfx_padding(c);
    match c.padding {
        Some(v) => {
            let m = ("padding"@, JsonVal::Int(v as i64));
            assert(sfx == seq![m] + sfx_margin(c));
            lemma_tail_index(ms, i, sfx, 0);
            assert(ms[i] == m);
            assert(peel_u32(ms, i, "padding"@) == Some((Some(v), i + 1)));
            lemma_tail_drop(ms, i, sfx);
            assert(sfx.drop_first() =~= sfx_margin(c));
            lemma_dec_rt_margin(c, ms, i + 1, ComponentView { padding: Some(v), ..acc });
        },
        None => {
            assert(sfx =~= sfx_margin(c));
            if i < ms.len() {
                lemma_tail_index(ms, i, sfx, 0);
                assert(ms[i] == sfx_margin(c)[0]);
                assert(ms[i].0 != "padding"@) by {
                    lemma_comp_keys();
                    lemma_sfx_first_margin(c);
                }
            }
            assert(peel_u32(ms, i, "padding"@) == Some((None::<u32>, i)));
            lemma_dec_rt_margin(c, ms, i, ComponentView { padding: None, ..acc });
        },
    }
}

/// Decoding the tail from the `margin` field on restores those fields.
#[verifier::rlimit(100)]
proof fn lemma_dec_rt_margin(c: ComponentView, ms: Seq<(Seq<char>, JsonVal)>, i: int, acc: ComponentView)
    requires
        0 <= i,
        i + sfx_margin(c).len() == ms.len(),
        ms.subrange(i, ms.len() as int) == sfx_margin(c),
        acc.children == Seq::<ComponentView>::empty(),
    ensures
        dec_margin(ms, i, acc) == Some(ComponentView { width: acc.width, height: acc.height, padding: acc.padding, margin: c.margin, gap: c.gap, justify_content: c.justify_content, align_items: c.align_items, flex_grow: c.flex_grow, flex_shrink: c.flex_shrink, background: c.background, color: c.color, opacity: c.opacity, font_size: c.font_size, content: c.content, text: c.text, placeholder: c.placeholder, window_title: c.window_title, children: c.children, ..acc }),
    decreases c, 19int,
{
    let sfx = sfx_margin(c);
    match c.margin {
        Some(v) => {
            let m = ("margin"@, JsonVal::Int(v as i64));
            assert(sfx == seq![m] + sfx_gap(c));
            lemma_tail_index(ms, i, sfx, 0);
            assert(ms[i] == m);
            assert(peel_u32(ms, i, "margin"@) == Some((Some(v), i + 1)));
            lemma_tail_drop(ms, i, sfx);
            assert(sfx.drop_first() =~= sfx_gap(c));
            lemma_dec_rt_gap(c, ms, i + 1, ComponentView { margin: Some(v), ..acc });
        },
        None => {
            assert(sfx =~= sfx_gap(c));
            if i < ms.len() {
                lemma_tail_index(ms, i, sfx, 0);
                assert(ms[i] == sfx_gap(c)[0]);
                assert(ms[i].0 != "margin"@) by {
                    lemma_comp_keys();
                    lemma_sfx_first_gap(c);
                }
            }
            assert(peel_u32(ms, i, "margin"@) == Some((None::<u32>, i)));
            lemma_dec_rt_gap(c, ms, i, ComponentView { margin: None, ..acc });
        },
    }
}

/// Decoding the tail from the `gap` field on restores those fields.
#[verifier::rlimit(100)]
proof fn lemma_dec_rt_gap(c: ComponentView, ms: Seq<(Seq<char>, JsonVal)>, i: int, acc: ComponentView)
    requires
        0 <= i,
        i + sfx_gap(c).len() == ms.len(),
        ms.subrange(i, ms.len() as int) == sfx_gap(c),
        acc.children == Seq::<ComponentView>::empty(),
    ensures
        dec_gap(ms, i, acc) == Some(ComponentView { width: acc.width, height: acc.height, padding: acc.padding, margin: acc.margin, gap: c.gap, justify_content: c.justify_content, align_items: c.align_items, flex_grow: c.flex_grow, flex_shrink: c.flex_shrink, background: c.background, color: c.color, opacity: c.opacity, font_size: c.font_size, content: c.content, text: c.text, placeholder: c.placeholder, window_title: c.window_title, children: c.children, ..acc }),
    decreases c, 18int,
{
    let sfx = sfx_gap(c);
    match c.gap {
        Some(v) => {
            let m = ("gap"@, JsonVal::Int(v as i64));
            assert(sfx == seq![m] + sfx_justify_content(c));
            lemma_tail_index(ms, i, sfx, 0);
            assert(ms[i] == m);
            assert(peel_u32(ms, i, "gap"@) == Some((Some(v), i + 1)));
            lemma_tail_drop(ms, i, sfx);
            assert(sfx.drop_first() =~= sfx_justify_content(c));
            lemma_dec_rt_justify_content(c, ms, i + 1, ComponentView { gap: Some(v), ..acc });
        },
        None => {
            assert(sfx =~= sfx_justify_content(c));
            if i < ms.len() {
                lemma_tail_index(ms, i, sfx, 0);
                assert(ms[i] == sfx_justify_content(c)[0]);
                assert(ms[i].0 != "gap"@) by {
                    lemma_comp_keys();
                    lemma_sfx_first_justify_content(c);
                }
            }
            assert(peel_u32(ms, i, "gap"@) == Some((None::<u32>, i)));
            lemma_dec_rt_justify_content(c, ms, i, ComponentView { gap: None, ..acc });
        },
    }
}

/// Decoding the tail from the `justifyContent` field on restores those fields.
#[verifier::rlimit(100)]
proof fn lemma_dec_rt_justify_content(c: ComponentView, ms: Seq<(Seq<char>, JsonVal)>, i: int, acc: ComponentView)
    requires
        0 <= i,
        i + sfx_justify_content(c).len() == ms.len(),
        ms.subrange(i, ms.len() as int) == sfx_justify_content(c),
        acc.children == Seq::<ComponentView>::empty(),
    ensures
        dec_justify_content(ms, i, acc) == Some(ComponentView { width: acc.width, height: acc.height, padding: acc.padding, margin: acc.margin, gap: acc.gap, justify_content: c.justify_content, align_items: c.align_items, flex_grow: c.flex_grow, flex_shrink: c.flex_shrink, background: c.background, color: c.color, opacity: c.opacity, font_size: c.font_size, content: c.content, text: c.text, placeholder: c.placeholder, window_title: c.window_title, children: c.children, ..acc }),
    decreases c, 17int,
{
    let sfx = sfx_justify_content(c);
    match c.justify_content {
        Some(v) => {
            let m = ("justifyContent"@, align_to_jv(v));
            assert(sfx == seq![m] + sfx_align_items(c));
            lemma_tail_index(ms, i, sfx, 0);
            assert(ms[i] == m);
            lemma_align_round(v);
            assert(peel_align(ms, i, "justifyContent"@) == Some((Some(v), i + 1)));
            lemma_tail_drop(ms, i, sfx);
            assert(sfx.drop_first() =~= sfx_align_items(c));
            lemma_dec_rt_align_items(c, ms, i + 1, ComponentView { justify_content: Some(v), ..acc });
        },
        None => {
            assert(sfx =~= sfx_align_items(c));
            if i < ms.len() {
                lemma_tail_index(ms, i, sfx, 0);
                assert(ms[i] == sfx_align_items(c)[0]);
                assert(ms[i].0 != "justifyContent"@) by {
                    lemma_comp_keys();
                    lemma_sfx_first_align_items(c);
                }
            }
            assert(peel_align(ms, i, "justifyContent"@) == Some((None::<AlignmentValueView>, i)));
            lemma_dec_rt_align_items(c, ms, i, ComponentView { justify_content: None, ..acc });
        },
    }
}

/// Decoding the tail from the `alignItems` field on restores those fields.
#[verifier::rlimit(100)]
proof fn lemma_dec_rt_align_items(c: ComponentView, ms: Seq<(Seq<char>, JsonVal)>, i: int, acc: ComponentView)
    requires
        0 <= i,
        i + sfx_align_items(c).len() == ms.len(),
        ms.subrange(i, ms.len() as int) == sfx_align_items(c),
        acc.children == Seq::<ComponentView>::empty(),
    ensures
        dec_align_items(ms, i, acc) == Some(ComponentView { width: acc.width, height: acc.height, padding: acc.padding, margin: acc.margin, gap: acc.gap, justify_content: acc.justify_content, align_items: c.align_items, flex_grow: c.flex_grow, flex_shrink: c.flex_shrink, background: c.background, color: c.color, opacity: c.opacity, font_size: c.font_size, content: c.content, text: c.text, placeholder: c.placeholder, window_title: c.window_title, children: c.children, ..acc }),
    decreases c, 16int,
{
    let sfx = sfx_align_items(c);
    match c.align_items {
        Some(v) => {
            let m = ("alignItems"@, align_to_jv(v));
            assert(sfx == seq![m] + sfx_flex_grow(c));
            lemma_tail_index(ms, i, sfx, 0);
            assert(ms[i] == m);
            lemma_align_round(v);
            assert(peel_align(ms, i, "alignItems"@) == Some((Some(v), i + 1)));
            lemma_tail_drop(ms, i, sfx);
            assert(sfx.drop_first() =~= sfx_flex_grow(c));
            lemma_dec_rt_flex_grow(c, ms, i + 1, ComponentView { align_items: Some(v), ..acc });
        },
        None => {
            assert(sfx =~= sfx_flex_grow(c));
            if i < ms.len() {
                lemma_tail_index(ms, i, sfx, 0);
                assert(ms[i] == sfx_flex_grow(c)[0]);
                assert(ms[i].0 != "alignItems"@) by {
                    lemma_comp_keys();
                    lemma_sfx_first_flex_grow(c);
                }
            }
            assert(peel_align(ms, i, "alignItems"@) == Some((None::<AlignmentValueView>, i)));
            lemma_dec_rt_flex_grow(c, ms, i, ComponentView { align_items: None, ..acc });
        },
    }
}

/// Decoding the tail from the `flexGrow` field on restores those fields.
#[verifier::rlimit(100)]
proof fn lemma_dec_rt_flex_grow(c: ComponentView, ms: Seq<(Seq<char>, JsonVal)>, i: int, acc: ComponentView)
    requires
        0 <= i,
        i + sfx_flex_grow(c).len() == ms.len(),
        ms.subrange(i, ms.len() as int) == sfx_flex_grow(c),
        acc.children == Seq::<ComponentView>::empty(),
    ensures
        dec_flex_grow(ms, i, acc) == Some(ComponentView { width: acc.width, height: acc.height, padding: acc.padding, margin: acc.margin, gap: acc.gap, justify_content: acc.justify_content, align_items: acc.align_items, flex_grow: c.flex_grow, flex_shrink: c.flex_shrink, background: c.background, color: c.color, opacity: c.opacity, font_size: c.font_size, content: c.content, text: c.text, placeholder: c.placeholder, window_title: c.window_title, children: c.children, ..acc }),
    decreases c, 15int,
{
    let sfx = sfx_flex_grow(c);
    match c.flex_grow {
        Some(v) => {
            let m = ("flexGrow"@, JsonVal::Int(v as i64));
            assert(sfx == seq![m] + sfx_flex_shrink(c));
            lemma_tail_index(ms, i, sfx, 0);
            assert(ms[i] == m);
            assert(peel_u8(ms, i, "flexGrow"@) == Some((Some(v), i + 1)));
            lemma_tail_drop(ms, i, sfx);
            assert(sfx.drop_first() =~= sfx_flex_shrink(c));
            lemma_dec_rt_flex_shrink(c, ms, i + 1, ComponentView { flex_grow: Some(v), ..acc });
        },
        None => {
            assert(sfx =~= sfx_flex_shrink(c));
            if i < ms.len() {
                lemma_tail_index(ms, i, sfx, 0);
                assert(ms[i] == sfx_flex_shrink(c)[0]);
                assert(ms[i].0 != "flexGrow"@) by {
                    lemma_comp_keys();
                    lemma_sfx_first_flex_shrink(c);
                }
            }
            assert(peel_u8(ms, i, "flexGrow"@) == Some((None::<u8>, i)));
            lemma_dec_rt_flex_shrink(c, ms, i, ComponentView { flex_grow: None, ..acc });
        },
    }
}

/// Decoding the tail from the `flexShrink` field on restores those fields.
#[verifier::rlimit(100)]
proof fn lemma_dec_rt_flex_shrink(c: ComponentView, ms: Seq<(Seq<char>, JsonVal)>, i: int, acc: ComponentView)
    requires
        0 <= i,
        i + sfx_flex_shrink(c).len() == ms.len(),
        ms.subrange(i, ms.len() as int) == sfx_flex_shrink(c),
        acc.children == Seq::<ComponentView>::empty(),
    ensures
        dec_flex_shrink(ms, i, acc) == Some(ComponentView { width: acc.width, height: acc.height, padding: acc.padding, margin: acc.margin, gap: acc.gap, justify_content: acc.justify_content, align_items: acc.align_items, flex_grow: acc.flex_grow, flex_shrink: c.flex_shrink, background: c.background, color: c.color, opacity: c.opacity, font_size: c.font_size, content: c.content, text: c.text, placeholder: c.placeholder, window_title: c.window_title, children: c.children, ..acc }),
    decreases c, 14int,
{
    let sfx = sfx_flex_shrink(c);
    match c.flex_shrink {
        Some(v) => {
            let m = ("flexShrink"@, JsonVal::Int(v as i64));
            assert(sfx == seq![m] + sfx_background(c));
            lemma_tail_index(ms, i, sfx, 0);
            assert(ms[i] == m);
            assert(peel_u8(ms, i, "flexShrink"@) == Some((Some(v), i + 1)));
            lemma_tail_drop(ms, i, sfx);
            assert(sfx.drop_first() =~= sfx_background(c));
            lemma_dec_rt_background(c, ms, i + 1, ComponentView { flex_shrink: Some(v), ..acc });
        },
        None => {
            assert(sfx =~= sfx_background(c));
            if i < ms.len() {
                lemma_tail_index(ms, i, sfx, 0);
                assert(ms[i] == sfx_background(c)[0]);
                assert(ms[i].0 != "flexShrink"@) by {
                    lemma_comp_keys();
                    lemma_sfx_first_background(c);
                }
            }
            assert(peel_u8(ms, i, "flexShrink"@) == Some((None::<u8>, i)));
            lemma_dec_rt_background(c, ms, i, ComponentView { flex_shrink: None, ..acc });
        },
    }
}

/// Decoding the tail from the `background` field on restores those fields.
#[verifier::rlimit(100)]
proof fn lemma_dec_rt_background(c: ComponentView, ms: Seq<(Seq<char>, JsonVal)>, i: int, acc: ComponentView)
    requires
        0 <= i,
        i + sfx_background(c).len() == ms.len(),
        ms.subrange(i, ms.len() as int) == sfx_background(c),
        acc.children == Seq::<ComponentView>::empty(),
    ensures
        dec_background(ms, i, acc) == Some(ComponentView { width: acc.width, height: acc.height, padding: acc.padding, margin: acc.margin, gap: acc.gap, justify_content: acc.justify_content, align_items: acc.align_items, flex_grow: acc.flex_grow, flex_shrink: acc.flex_shrink, background: c.background, color: c.color, opacity: c.opacity, font_size: c.font_size, content: c.content, text: c.text, placeholder: c.placeholder, window_title: c.window_title, children: c.children, ..acc }),
    decreases c, 13int,
{
    let sfx = sfx_background(c);
    match c.background {
        Some(v) => {
            let m = ("background"@, JsonVal::Str(v));
            assert(sfx == seq![m] + sfx_color(c));
            lemma_tail_index(ms, i, sfx, 0);
            assert(ms[i] == m);
            assert(peel_str(ms, i, "background"@) == Some((Some(v), i + 1)));
            lemma_tail_drop(ms, i, sfx);
            assert(sfx.drop_first() =~= sfx_color(c));
            lemma_dec_rt_color(c, ms, i + 1, ComponentView { background: Some(v), ..acc });
        },
        None => {
            assert(sfx =~= sfx_color(c));
            if i < ms.len() {
                lemma_tail_index(ms, i, sfx, 0);
                assert(ms[i] == sfx_color(c)[0]);
                assert(ms[i].0 != "background"@) by {
                    lemma_comp_keys();
                    lemma_sfx_first_color(c);
                }
            }
            assert(peel_str(ms, i, "background"@) == Some((None::<Seq<char>>, i)));
            lemma_dec_rt_color(c, ms, i, ComponentView { background: None, ..acc });
        },
    }
}

/// Decoding the tail from the `color` field on restores those fields.
#[verifier::rlimit(100)]
proof fn lemma_dec_rt_color(c: ComponentView, ms: Seq<(Seq<char>, JsonVal)>, i: int, acc: ComponentView)
    requires
        0 <= i,
        i + sfx_color(c).len() == ms.len(),
        ms.subrange(i, ms.len() as int) == sfx_color(c),
        acc.children == Seq::<ComponentView>::empty(),
    ensures
        dec_color(ms, i, acc) == Some(ComponentView { width: acc.width, height: acc.height, padding: acc.padding, margin: acc.margin, gap: acc.gap, justify_content: acc.justify_content, align_items: acc.align_items, flex_grow: acc.flex_grow, flex_shrink: acc.flex_shrink, background: acc.background, color: c.color, opacity: c.opacity, font_size: c.font_size, content: c.content, text: c.text, placeholder: c.placeholder, window_title: c.window_title, children: c.children, ..acc }),
    decreases c, 12int,
{
    let sfx = sfx_color(c);
    match c.color {
        Some(v) => {
            let m = ("color"@, JsonVal::Str(v));
            assert(sfx == seq![m] + sfx_opacity(c));
            lemma_tail_index(ms, i, sfx, 0);
            assert(ms[i] == m);
            assert(peel_str(ms, i, "color"@) == Some((Some(v), i + 1)));
            lemma_tail_drop(ms, i, sfx);
            assert(sfx.drop_first() =~= sfx_opacity(c));
            lemma_dec_rt_opacity(c, ms, i + 1, ComponentView { color: Some(v), ..acc });
        },
        None => {
            assert(sfx =~= sfx_opacity(c));
            if i < ms.len() {
                lemma_tail_index(ms, i, sfx, 0);
                assert(ms[i] == sfx_opacity(c)[0]);
                assert(ms[i].0 != "color"@) by {
                    lemma_comp_keys();
                    lemma_sfx_first_opacity(c);
                }
            }
            assert(peel_str(ms, i, "color"@) == Some((None::<Seq<char>>, i)));
            lemma_dec_rt_opacity(c, ms, i, ComponentView { color: None, ..acc });
        },
    }
}

/// Decoding the tail from the `opacity` field on restores those fields.
#[verifier::rlimit(100)]
proof fn lemma_dec_rt_opacity(c: ComponentView, ms: Seq<(Seq<char>, JsonVal)>, i: int, acc: ComponentView)
    requires
        0 <= i,
        i + sfx_opacity(c).len() == ms.len(),
        ms.subrange(i, ms.len() as int) == sfx_opacity(c),
        acc.children == Seq::<ComponentView>::empty(),
    ensures
        dec_opacity(ms, i, acc) == Some(ComponentView { width: acc.width, height: acc.height, padding: acc.padding, margin: acc.margin, gap: acc.gap, justify_content: acc.justify_content, align_items: acc.align_items, flex_grow: acc.flex_grow, flex_shrink: acc.flex_shrink, background: acc.background, color: acc.color, opacity: c.opacity, font_size: c.font_size, content: c.content, text: c.text, placeholder: c.placeholder, window_title: c.window_title, children: c.children, ..acc }),
    decreases c, 11int,
{
    let sfx = sfx_opacity(c);
    match c.opacity {
        Some(v) => {
            let m = ("opacity"@, JsonVal::Int(v as i64));
            assert(sfx == seq![m] + sfx_font_size(c));
            lemma_tail_index(ms, i, sfx, 0);
            assert(ms[i] == m);
            assert(peel_u32(ms, i, "opacity"@) == Some((Some(v), i + 1)));
            lemma_tail_drop(ms, i, sfx);
            assert(sfx.drop_first() =~= sfx_font_size(c));
            lemma_dec_rt_font_size(c, ms, i + 1, ComponentView { opacity: Some(v), ..acc });
        },
        None => {
            assert(sfx =~= sfx_font_size(c));
            if i < ms.len() {
                lemma_tail_index(ms, i, sfx, 0);
                assert(ms[i] == sfx_font_size(c)[0]);
                assert(ms[i].0 != "opacity"@) by {
                    lemma_comp_keys();
                    lemma_sfx_first_font_size(c);
                }
            }
            assert(peel_u32(ms, i, "opacity"@) == Some((None::<u32>, i)));
            lemma_dec_rt_font_size(c, ms, i, ComponentView { opacity: None, ..acc });
        },
    }
}

/// Decoding the tail from the `fontSize` field on restores those fields.
#[verifier::rlimit(100)]
proof fn lemma_dec_rt_font_size(c: ComponentView, ms: Seq<(Seq<char>, JsonVal)>, i: int, acc: ComponentView)
    requires
        0 <= i,
        i + sfx_font_size(c).len() == ms.len(),
        ms.subrange(i, ms.len() as int) == sfx_font_size(c),
        acc.children == Seq::<ComponentView>::empty(),
    ensures
        dec_font_size(ms, i, acc) == Some(ComponentView { width: acc.width, height: acc.height, padding: acc.padding, margin: acc.margin, gap: acc.gap, justify_content: acc.justify_content, align_items: acc.align_items, flex_grow: acc.flex_grow, flex_shrink: acc.flex_shrink, background: acc.background, color: acc.color, opacity: acc.opacity, font_size: c.font_size, content: c.content, text: c.text, placeholder: c.placeholder, window_title: c.window_title, children: c.children, ..acc }),
    decreases c, 10int,
{
    let sfx = sfx_font_size(c);
    match c.font_size {
        Some(v) => {
            let m = ("fontSize"@, JsonVal::Int(v as i64));
            assert(sfx == seq![m] + sfx_content(c));
            lemma_tail_index(ms, i, sfx, 0);
            assert(ms[i] == m);
            assert(peel_u32(ms, i, "fontSize"@) == Some((Some(v), i + 1)));
            lemma_tail_drop(ms, i, sfx);
            assert(sfx.drop_first() =~= sfx_content(c));
            lemma_dec_rt_content(c, ms, i + 1, ComponentView { font_size: Some(v), ..acc });
        },
        None => {
            assert(sfx =~= sfx_content(c));
            if i < ms.len() {
                lemma_tail_index(ms, i, sfx, 0);
                assert(ms[i] == sfx_content(c)[0]);
                assert(ms[i].0 != "fontSize"@) by {
                    lemma_comp_keys();
                    lemma_sfx_first_content(c);
                }
            }
            assert(peel_u32(ms, i, "fontSize"@) == Some((None::<u32>, i)));
            lemma_dec_rt_content(c, ms, i, ComponentView { font_size: None, ..acc });
        },
    }
}

/// Decoding the tail from the `content` field on restores those fields.
#[verifier::rlimit(100)]
proof fn lemma_dec_rt_content(c: ComponentView, ms: Seq<(Seq<char>, JsonVal)>, i: int, acc: ComponentView)
    requires
        0 <= i,
        i + sfx_content(c).len() == ms.len(),
        ms.subrange(i, ms.len() as int) == sfx_content(c),
        acc.children == Seq::<ComponentView>::empty(),
    ensures
        dec_content(ms, i, acc) == Some(ComponentView { width: acc.width, height: acc.height, padding: acc.padding, margin: acc.margin, gap: acc.gap, justify_content: acc.justify_content, align_items: acc.align_items, flex_grow: acc.flex_grow, flex_shrink: acc.flex_shrink, background: acc.background, color: acc.color, opacity: acc.opacity, font_size: acc.font_size, content: c.content, text: c.text, placeholder: c.placeholder, window_title: c.window_title, children: c.children, ..acc }),
    decreases c, 9int,
{
    let sfx = sfx_content(c);
    match c.content {
        Some(v) => {
            let m = ("content"@, JsonVal::Str(v));
            assert(sfx == seq![m] + sfx_text(c));
            lemma_tail_index(ms, i, sfx, 0);
            assert(ms[i] == m);
            assert(peel_str(ms, i, "content"@) == Some((Some(v), i + 1)));
            lemma_tail_drop(ms, i, sfx);
            assert(sfx.drop_first() =~= sfx_text(c));
            lemma_dec_rt_text(c, ms, i + 1, ComponentView { content: Some(v), ..acc });
        },
        None => {
            assert(sfx =~= sfx_text(c));
            if i < ms.len() {
                lemma_tail_index(ms, i, sfx, 0);
                assert(ms[i] == sfx_text(c)[0]);
                assert(ms[i].0 != "content"@) by {
                    lemma_comp_keys();
                    lemma_sfx_first_text(c);
                }
            }
            assert(peel_str(ms, i, "content"@) == Some((None::<Seq<char>>, i)));
            lemma_dec_rt_text(c, ms, i, ComponentView { content: None, ..acc });
        },
    }
}

/// Decoding the tail from the `text` field on restores those fields.
#[verifier::rlimit(100)]
proof fn lemma_dec_rt_text(c: ComponentView, ms: Seq<(Seq<char>, JsonVal)>, i: int, acc: ComponentView)
    requires
        0 <= i,
        i + sfx_text(c).len() == ms.len(),
        ms.subrange(i, ms.len() as int) == sfx_text(c),
        acc.children == Seq::<ComponentView>::empty(),
    ensures
        dec_text(ms, i, acc) == Some(ComponentView { width: acc.width, height: acc.height, padding: acc.padding, margin: acc.margin, gap: acc.gap, justify_content: acc.justify_content, align_items: acc.align_items, flex_grow: acc.flex_grow, flex_shrink: acc.flex_shrink, background: acc.background, color: acc.color, opacity: acc.opacity, font_size: acc.font_size, content: acc.content, text: c.text, placeholder: c.placeholder, window_title: c.window_title, children: c.children, ..acc }),
    decreases c, 8int,
{
    let sfx = sfx_text(c);
    match c.text {
        Some(v) => {
            let m = ("text"@, JsonVal::Str(v));
            assert(sfx == seq![m] + sfx_placeholder(c));
            lemma_tail_index(ms, i, sfx, 0);
            assert(ms[i] == m);
            assert(peel_str(ms, i, "text"@) == Some((Some(v), i + 1)));
            lemma_tail_drop(ms, i, sfx);
            assert(sfx.drop_first() =~= sfx_placeholder(c));
            lemma_dec_rt_placeholder(c, ms, i + 1, ComponentView { text: Some(v), ..acc });
        },
        None => {
            assert(sfx =~= sfx_placeholder(c));
            if i < ms.len() {
                lemma_tail_index(ms, i, sfx, 0);
                assert(ms[i] == sfx_placeholder(c)[0]);
                assert(ms[i].0 != "text"@) by {
                    lemma_comp_keys();
                    lemma_sfx_first_placeholder(c);
                }
            }
            assert(peel_str(ms, i, "text"@) == Some((None::<Seq<char>>, i)));
            lemma_dec_rt_placeholder(c, ms, i, ComponentView { text: None, ..acc });
        },
    }
}

/// Decoding the tail from the `placeholder` field on restores those fields.
#[verifier::rlimit(100)]
proof fn lemma_dec_rt_placeholder(c: ComponentView, ms: Seq<(Seq<char>, JsonVal)>, i: int, acc: ComponentView)
    requires
        0 <= i,
        i + sfx_placeholder(c).len() == ms.len(),
        ms.subrange(i, ms.len() as int) == sfx_placeholder(c),
        acc.children == Seq::<ComponentView>::empty(),
    ensures
        dec_placeholder(ms, i, acc) == Some(ComponentView { width: acc.width, height: acc.height, padding: acc.padding, margin: acc.margin, gap: acc.gap, justify_content: acc.justify_content, align_items: acc.align_items, flex_grow: acc.flex_grow, flex_shrink: acc.flex_shrink, background: acc.background, color: acc.color, opacity: acc.opacity, font_size: acc.font_size, content: acc.content, text: acc.text, placeholder: c.placeholder, window_title: c.window_title, children: c.children, ..acc }),
    decreases c, 7int,
{
    let sfx = sfx_placeholder(c);
    match c.placeholder {
        Some(v) => {
            let m = ("placeholder"@, JsonVal::Str(v));
            assert(sfx == seq![m] + sfx_window_title(c));
            lemma_tail_index(ms, i, sfx, 0);
            assert(ms[i] == m);
            assert(peel_str(ms, i, "placeholder"@) == Some((Some(v), i + 1)));
            lemma_tail_drop(ms, i, sfx);
            assert(sfx.drop_first() =~= sfx_window_title(c));
            lemma_dec_rt_window_title(c, ms, i + 1, ComponentView { placeholder: Some(v), ..acc });
        },
        None => {
            assert(sfx =~= sfx_window_title(c));
            if i < ms.len() {
                lemma_tail_index(ms, i, sfx, 0);
                assert(ms[i] == sfx_window_title(c)[0]);
                assert(ms[i].0 != "placeholder"@) by {
                    lemma_comp_keys();
                    lemma_sfx_first_window_title(c);
                }
            }
            assert(peel_str(ms, i, "placeholder"@) == Some((None::<Seq<char>>, i)));
            lemma_dec_rt_window_title(c, ms, i, ComponentView { placeholder: None, ..acc });
        },
    }
}

/// Decoding the tail from the `windowTitle` field on restores those fields.
#[verifier::rlimit(100)]
proof fn lemma_dec_rt_window_title(c: ComponentView, ms: Seq<(Seq<char>, JsonVal)>, i: int, acc: ComponentView)
    requires
        0 <= i,
        i + sfx_window_title(c).len() == ms.len(),
        ms.subrange(i, ms.len() as int) == sfx_window_title(c),
        acc.children == Seq::<ComponentView>::empty(),
    ensures
        dec_window_title(ms, i, acc) == Some(ComponentView { width: acc.width, height: acc.height, padding: acc.padding, margin: acc.margin, gap: acc.gap, justify_content: acc.justify_content, align_items: acc.align_items, flex_grow: acc.flex_grow, flex_shrink: acc.flex_shrink, background: acc.background, color: acc.color, opacity: acc.opacity, font_size: acc.font_size, content: acc.content, text: acc.text, placeholder: acc.placeholder, window_title: c.window_title, children: c.children, ..acc }),
    decreases c, 6int,
{
    let sfx = sfx_window_title(c);
    match c.window_title {
        Some(v) => {
            let m = ("windowTitle"@, JsonVal::Str(v));
            assert(sfx == seq![m] + sfx_children(c));
            lemma_tail_index(ms, i, sfx, 0);
            assert(ms[i] == m);
            assert(peel_str(ms, i, "windowTitle"@) == Some((Some(v), i + 1)));
            lemma_tail_drop(ms, i, sfx);
            assert(sfx.drop_first() =~= sfx_children(c));
            lemma_dec_rt_children(c, ms, i + 1, ComponentView { window_title: Some(v), ..acc });
        },
        None => {
            assert(sfx =~= sfx_children(c));
            if i < ms.len() {
                lemma_tail_index(ms, i, sfx, 0);
                assert(ms[i] == sfx_children(c)[0]);
                assert(ms[i].0 != "windowTitle"@) by {
                    lemma_comp_keys();
                    lemma_sfx_first_children(c);
                }
            }
            assert(peel_str(ms, i, "windowTitle"@) == Some((None::<Seq<char>>, i)));
            lemma_dec_rt_children(c, ms, i, ComponentView { window_title: None, ..acc });
        },
    }
}

/// Decoding the children tail restores the children and ends the
/// member list.
proof fn lemma_dec_rt_children(c: ComponentView, ms: Seq<(Seq<char>, JsonVal)>, i: int, acc: ComponentView)
    requires
        0 <= i,
        i + sfx_children(c).len() == ms.len(),
        ms.subrange(i, ms.len() as int) == sfx_children(c),
        acc.children == Seq::<ComponentView>::empty(),
    ensures
        dec_children(ms, i, acc) == Some(ComponentView { children: c.children, ..acc }),
    decreases c, 5int,
{
    let sfx = sfx_children(c);
    if c.children.len() == 0 {
        assert(i == ms.len());
        assert(c.children =~= Seq::<ComponentView>::empty());
        assert(ComponentView { children: c.children, ..acc } =~= acc);
    } else {
        let m = ("children"@, JsonVal::Arr(comps_to_jv(c.children)));
        assert(sfx == seq![m]);
        lemma_tail_index(ms, i, sfx, 0);
        assert(ms[i] == m);
        assert(i + 1 == ms.len());
        lemma_comps_rt(c.children);
        assert(jvs_to_comps(comps_to_jv(c.children)) == Some(c.children));
    }
}

/// Reading back a written component restores it exactly.
#[verifier::rlimit(100)]
pub proof fn lemma_comp_rt(c: ComponentView)
    ensures
        jv_to_comp(comp_to_jv(c)) == Some(c),
    decreases c, 40int,
{
    let ms = comp_members(c);
    lemma_comp_members_sfx(c);
    let head = seq![
        ("id"@, JsonVal::Int(c.id as i64)),
        ("type"@, JsonVal::Str(ct_name(c.component_type))),
    ];
    assert(ms == head + sfx_width(c));
    assert(ms.len() == 2 + sfx_width(c).len());
    assert(ms[0] == head[0]);
    assert(ms[1] == head[1]);
    lemma_type_name_round(c.component_type);
    let base = crate::ir::bare_component_view(c.component_type, c.id);
    assert(ms.subrange(2, ms.len() as int) =~= sfx_width(c)) by {
        assert forall|k: int| 0 <= k < sfx_width(c).len() implies ms.subrange(
            2,
            ms.len() as int,
        )[k] == sfx_width(c)[k] by {
            assert(ms.subrange(2, ms.len() as int)[k] == ms[2 + k]);
            assert(ms[2 + k] == (head + sfx_width(c))[2 + k]);
        }
    }
    lemma_dec_rt_width(c, ms, 2, base);
    assert(jv_to_comp(comp_to_jv(c)) == dec_width(ms, 2, base));
    let result = dec_width(ms, 2, base)->0;
    assert(result =~= c);
}

/// Reading back a written child list restores it exactly.
pub proof fn lemma_comps_rt(cs: Seq<ComponentView>)
    ensures
        jvs_to_comps(comps_to_jv(cs)) == Some(cs),
    decreases cs, 41int,
{
    if cs.len() == 0 {
        assert(comps_to_jv(cs) =~= Seq::<JsonVal>::empty());
    } else {
        let js = comps_to_jv(cs);
        assert(js == seq![comp_to_jv(cs[0])] + comps_to_jv(cs.drop_first()));
        assert(js[0] == comp_to_jv(cs[0]));
        assert(js.drop_first() =~= comps_to_jv(cs.drop_first()));
        lemma_comp_rt(cs[0]);
        lemma_comps_rt(cs.drop_first());
        assert(seq![cs[0]] + cs.drop_first() =~= cs);
    }
}

/// Reading back a written event binding restores it.
proof fn lemma_binding_rt(b: EventBindingView)
    ensures
        jv_to_binding(binding_to_jv(b)) == Some(b),
{
    assert(jv_to_binding(binding_to_jv(b))->0 =~= b);
}

/// Reading back a written function map restores it.
proof fn lemma_pairs_rt(ps: Seq<(Seq<char>, Seq<char>)>)
    ensures
        jv_to_pairs(pairs_to_jv(ps)) == Some(ps),
    decreases ps,
{
    if ps.len() == 0 {
        assert(pairs_to_jv(ps) =~= Seq::<(Seq<char>, JsonVal)>::empty());
    } else {
        let ms = pairs_to_jv(ps);
        assert(ms[0] == (ps[0].0, JsonVal::Str(ps[0].1)));
        assert(ms.drop_first() =~= pairs_to_jv(ps.drop_first()));
        lemma_pairs_rt(ps.drop_first());
        assert(seq![(ps[0].0, ps[0].1)] + ps.drop_first() =~= ps);
    }
}

/// Reading back a written binding list restores it.
proof fn lemma_bindings_rt(bs: Seq<EventBindingView>)
    ensures
        jvs_to_bindings(bindings_to_jv(bs)) == Some(bs),
    decreases bs,
{
    if bs.len() == 0 {
        assert(bindings_to_jv(bs) =~= Seq::<JsonVal>::empty());
    } else {
        let js = bindings_to_jv(bs);
        assert(js[0] == binding_to_jv(bs[0]));
        assert(js.drop_first() =~= bindings_to_jv(bs.drop_first()));
        lemma_binding_rt(bs[0]);
        lemma_bindings_rt(bs.drop_first());
        assert(seq![bs[0]] + bs.drop_first() =~= bs);
    }
}

/// Reading back a written logic section restores it.
proof fn lemma_logic_rt(l: LogicView)
    ensures
        jv_to_logic(logic_to_jv(l)) == Some(l),
{
    lemma_pairs_rt(l.functions);
    lemma_bindings_rt(l.event_bindings);
    assert(jv_to_logic(logic_to_jv(l))->0 =~= l);
}

/// Reading back a written reactive variable restores it.
proof fn lemma_var_rt(v: ReactiveVariableView)
    ensures
        jv_to_var(var_to_jv(v)) == Some(v),
{
    lemma_scalar_round(v.initial_value);
    assert(jv_to_var(var_to_jv(v))->0 =~= v);
}

/// Reading back a written variable list restores it.
proof fn lemma_vars_rt(vs: Seq<ReactiveVariableView>)
    ensures
        jvs_to_vars(vars_to_jv(vs)) == Some(vs),
    decreases vs,
{
    if vs.len() == 0 {
        assert(vars_to_jv(vs) =~= Seq::<JsonVal>::empty());
    } else {
        let js = vars_to_jv(vs);
        assert(js[0] == var_to_jv(vs[0]));
        assert(js.drop_first() =~= vars_to_jv(vs.drop_first()));
        lemma_var_rt(vs[0]);
        lemma_vars_rt(vs.drop_first());
        assert(seq![vs[0]] + vs.drop_first() =~= vs);
    }
}

/// Reading back a written reactive manifest restores it.
proof fn lemma_manifest_rt(m: ReactiveManifestView)
    ensures
        jv_to_manifest(manifest_to_jv(m)) == Some(m),
{
    lemma_vars_rt(m.variables);
    assert(jv_to_manifest(manifest_to_jv(m))->0 =~= m);
}

/// Reading back a written component definition restores it.
proof fn lemma_def_rt(d: ComponentDefinitionView)
    ensures
        jv_to_def(def_to_jv(d)) == Some(d),
    decreases d, 50int,
{
    lemma_comp_rt(d.template);
    assert(jv_to_def(def_to_jv(d))->0 =~= d);
}

/// Reading back a written definition list restores it.
proof fn lemma_defs_rt(ds: Seq<ComponentDefinitionView>)
    ensures
        jvs_to_defs(defs_to_jv(ds)) == Some(ds),
    decreases ds, 51int,
{
    if ds.len() == 0 {
        assert(defs_to_jv(ds) =~= Seq::<JsonVal>::empty());
    } else {
        let js = defs_to_jv(ds);
        assert(js[0] == def_to_jv(ds[0]));
        assert(js.drop_first() =~= defs_to_jv(ds.drop_first()));
        lemma_def_rt(ds[0]);
        lemma_defs_rt(ds.drop_first());
        assert(seq![ds[0]] + ds.drop_first() =~= ds);
    }
}

/// Reading back a written document restores every field that was set,
/// and omitted optional parts stay omitted.
#[verifier::rlimit(100)]
pub proof fn lemma_doc_rt(d: DocumentView)
    ensures
        jv_to_doc(doc_to_jv(d)) == Some(d),
{
    let ms = doc_members(d);
    lemma_comp_rt(d.root);
    lemma_logic_rt(d.logic);
    lemma_manifest_rt(d.reactive_manifest);
    if d.component_definitions.len() == 0 {
        assert(ms =~= seq![
            ("format_version"@, JsonVal::Str(d.format_version)),
            ("root"@, comp_to_jv(d.root)),
            ("logic"@, logic_to_jv(d.logic)),
            ("reactive_manifest"@, manifest_to_jv(d.reactive_manifest)),
        ]);
        assert(ms[1].0 != "component_definitions"@) by {
            reveal_strlit("root");
            reveal_strlit("component_definitions");
            assert("root"@.len() == 4);
            assert("component_definitions"@.len() == 21);
        }
        assert(d.component_definitions =~= Seq::<ComponentDefinitionView>::empty());
        assert(jv_to_doc(doc_to_jv(d))->0 =~= d);
    } else {
        lemma_defs_rt(d.component_definitions);
        assert(ms =~= seq![
            ("format_version"@, JsonVal::Str(d.format_version)),
            ("component_definitions"@, JsonVal::Arr(defs_to_jv(d.component_definitions))),
            ("root"@, comp_to_jv(d.root)),
            ("logic"@, logic_to_jv(d.logic)),
            ("reactive_manifest"@, manifest_to_jv(d.reactive_manifest)),
        ]);
        assert(jv_to_doc(doc_to_jv(d))->0 =~= d);
    }
}

/// The round-trip law of the document codec: writing any document as
/// JSON text and reading that text back restores the document exactly,
/// field for field, with omitted optional fields still omitted.
pub proof fn lemma_document_round_trip(d: DocumentView)
    ensures
        crate::json::sp_json_text(crate::json::se_json(doc_to_jv(d))) == Some(doc_to_jv(d)),
        jv_to_doc(doc_to_jv(d)) == Some(d),
{
    crate::json::lemma_json_inversion(doc_to_jv(d));
    lemma_doc_rt(d);
}

/// The whole pipeline, end to end: for every valid nested-block token
/// stream whose parse and generation succeed, wrapping the generated
/// root into a document, writing it as JSON text and reading that text
/// back yields the same document; the recovered tree holds exactly one
/// node per block of the input, and each node's type is its block's
/// type name after name resolution, matched one to one in pre-order.
pub proof fn lemma_pipeline_round_trip(t: Seq<crate::parser::TokenView>, d: DocumentView)
    requires
        crate::parser::sp_component(t) is Some,
        crate::codegen::sp_generate(crate::parser::sp_component(t)->0) is Some,
        d.root == (crate::codegen::sp_generate(crate::parser::sp_component(t)->0)->0).0,
    ensures
        crate::json::sp_json_text(crate::json::se_json(doc_to_jv(d))) == Some(doc_to_jv(d)),
        jv_to_doc(doc_to_jv(d)) == Some(d),
        crate::codegen::preorder_types(d.root).len() == crate::codegen::preorder_names(
            crate::parser::sp_component(t)->0,
        ).len(),
        forall|k: int|
            0 <= k < crate::codegen::preorder_names(crate::parser::sp_component(t)->0).len()
                ==> crate::codegen::resolve_constructor(
                crate::codegen::preorder_names(crate::parser::sp_component(t)->0)[k],
            ) == Some(#[trigger] crate::codegen::preorder_types(d.root)[k]),
{
    lemma_document_round_trip(d);
    crate::codegen::lemma_generation_counts(crate::parser::sp_component(t)->0);
}

} // verus!
