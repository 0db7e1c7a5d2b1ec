//! Code generation: from a parsed block to a component tree.
//!
//! The generator walks the abstract syntax tree once, maps each
//! block-type name to a constructor through a data-driven table (with a
//! casing-normalization fallback for names that have no explicit
//! entry), assigns each node the next value of a single counter in a
//! pre-order walk, turns the special initial-content properties into
//! the constructor's initial argument, applies every other property as
//! a typed setter, and attaches the children in source order. All
//! validation happens here: an unresolved name or a malformed property
//! is an error, and no partial document is produced.

use vstd::prelude::*;
use crate::ir::{Alignment, AlignmentValue, ComponentType, ComponentView, IRComponent, IRDocument};
use crate::parser::{BlockView, ChildView, ComponentBlock, Property, PropertyView, Token, TokenView, tok_seq_view};
use crate::strutil::push_char;

verus! {

/// An ASCII uppercase letter.
pub open spec fn is_upper(c: char) -> bool {
    'A' <= c && c <= 'Z'
}

/// The ASCII lowercase counterpart of an uppercase letter.
pub open spec fn lower_char(c: char) -> char {
    (((c as u8) + 32) as char)
}

/// Casing normalization, from position `i` on, with the output built
/// so far: every uppercase letter becomes lowercase, preceded by an
/// underscore unless it starts the output.
pub open spec fn snake_from(s: Seq<char>, i: int, acc: Seq<char>) -> Seq<char>
    decreases s.len() - i,
{
    if i < 0 || i >= s.len() {
        acc
    } else if is_upper(s[i]) {
        let sep = if acc.len() > 0 {
            acc.push('_')
        } else {
            acc
        };
        snake_from(s, i + 1, sep.push(lower_char(s[i])))
    } else {
        snake_from(s, i + 1, acc.push(s[i]))
    }
}

/// `PascalCase` turned into `snake_case`.
pub open spec fn spec_to_snake(s: Seq<char>) -> Seq<char> {
    snake_from(s, 0, Seq::empty())
}

/// Convert a name's casing convention: word boundaries marked by
/// uppercase letters become underscore-separated lowercase segments.
pub fn to_snake_case(s: &str) -> (r: String)
    ensures
        r@ == spec_to_snake(s@),
{
    let chars = crate::strutil::str_to_chars(s);
    let n = chars.len();
    let mut out = String::new();
    let mut i: usize = 0;
    while i < n
        invariant
            i <= n,
            n == chars@.len(),
            chars@ == s@,
            spec_to_snake(s@) == snake_from(s@, i as int, out@),
        decreases n - i,
    {
        let c = chars[i];
        if 'A' <= c && c <= 'Z' {
            if out.as_str().unicode_len() > 0 {
                push_char(&mut out, '_');
            }
            let lc = ((c as u8) + 32) as char;
            proof {
                assert(lc == lower_char(s@[i as int]));
            }
            push_char(&mut out, lc);
        } else {
            push_char(&mut out, c);
        }
        i = i + 1;
    }
    out
}

/// The constructor a canonical builder name stands for, or `None` when
/// no constructor carries that name.
pub open spec fn constructor_of(bname: Seq<char>) -> Option<ComponentType> {
    if bname == "container"@ {
        Some(ComponentType::Container)
    } else if bname == "row"@ {
        Some(ComponentType::Row)
    } else if bname == "column"@ {
        Some(ComponentType::Column)
    } else if bname == "center"@ {
        Some(ComponentType::Center)
    } else if bname == "text"@ {
        Some(ComponentType::Text)
    } else if bname == "button"@ {
        Some(ComponentType::Button)
    } else if bname == "input"@ {
        Some(ComponentType::Input)
    } else if bname == "checkbox"@ {
        Some(ComponentType::Checkbox)
    } else if bname == "tab_group"@ {
        Some(ComponentType::TabGroup)
    } else if bname == "tab_bar"@ {
        Some(ComponentType::TabBar)
    } else if bname == "tab"@ {
        Some(ComponentType::Tab)
    } else if bname == "tab_content"@ {
        Some(ComponentType::TabContent)
    } else if bname == "tab_panel"@ {
        Some(ComponentType::TabPanel)
    } else if bname == "table"@ {
        Some(ComponentType::Table)
    } else if bname == "table_row"@ {
        Some(ComponentType::TableRow)
    } else if bname == "table_cell"@ {
        Some(ComponentType::TableCell)
    } else if bname == "dropdown"@ {
        Some(ComponentType::Dropdown)
    } else if bname == "scrollable"@ {
        Some(ComponentType::Scrollable)
    } else {
        None
    }
}

/// The canonical builder name of a block-type name: the fixed
/// fast-path aliases first (`App` is a synonym for the generic
/// container), then the casing-normalization fallback.
pub open spec fn resolve_builder_name(name: Seq<char>) -> Seq<char> {
    if name == "App"@ || name == "Container"@ {
        "container"@
    } else if name == "Column"@ {
        "column"@
    } else if name == "Row"@ {
        "row"@
    } else if name == "Text"@ {
        "text"@
    } else if name == "Button"@ {
        "button"@
    } else {
        spec_to_snake(name)
    }
}

/// The constructor a block-type name finally resolves to.
pub open spec fn resolve_constructor(name: Seq<char>) -> Option<ComponentType> {
    constructor_of(resolve_builder_name(name))
}

/// Reveals every canonical builder name as its character sequence,
/// so that the names can be told apart.
pub proof fn lemma_builder_name_chars()
    ensures
        "container"@ == seq!['c', 'o', 'n', 't', 'a', 'i', 'n', 'e', 'r'],
        "row"@ == seq!['r', 'o', 'w'],
        "column"@ == seq!['c', 'o', 'l', 'u', 'm', 'n'],
        "center"@ == seq!['c', 'e', 'n', 't', 'e', 'r'],
        "text"@ == seq!['t', 'e', 'x', 't'],
        "button"@ == seq!['b', 'u', 't', 't', 'o', 'n'],
        "input"@ == seq!['i', 'n', 'p', 'u', 't'],
        "checkbox"@ == seq!['c', 'h', 'e', 'c', 'k', 'b', 'o', 'x'],
        "tab_group"@ == seq!['t', 'a', 'b', '_', 'g', 'r', 'o', 'u', 'p'],
        "tab_bar"@ == seq!['t', 'a', 'b', '_', 'b', 'a', 'r'],
        "tab"@ == seq!['t', 'a', 'b'],
        "tab_content"@ == seq!['t', 'a', 'b', '_', 'c', 'o', 'n', 't', 'e', 'n', 't'],
        "tab_panel"@ == seq!['t', 'a', 'b', '_', 'p', 'a', 'n', 'e', 'l'],
        "table"@ == seq!['t', 'a', 'b', 'l', 'e'],
        "table_row"@ == seq!['t', 'a', 'b', 'l', 'e', '_', 'r', 'o', 'w'],
        "table_cell"@ == seq!['t', 'a', 'b', 'l', 'e', '_', 'c', 'e', 'l', 'l'],
        "dropdown"@ == seq!['d', 'r', 'o', 'p', 'd', 'o', 'w', 'n'],
        "scrollable"@ == seq!['s', 'c', 'r', 'o', 'l', 'l', 'a', 'b', 'l', 'e'],
{
    reveal_strlit("container");
    reveal_strlit("row");
    reveal_strlit("column");
    reveal_strlit("center");
    reveal_strlit("text");
    reveal_strlit("button");
    reveal_strlit("input");
    reveal_strlit("checkbox");
    reveal_strlit("tab_group");
    reveal_strlit("tab_bar");
    reveal_strlit("tab");
    reveal_strlit("tab_content");
    reveal_strlit("tab_panel");
    reveal_strlit("table");
    reveal_strlit("table_row");
    reveal_strlit("table_cell");
    reveal_strlit("dropdown");
    reveal_strlit("scrollable");
    assert("container"@ =~= seq!['c', 'o', 'n', 't', 'a', 'i', 'n', 'e', 'r']);
    assert("row"@ =~= seq!['r', 'o', 'w']);
    assert("column"@ =~= seq!['c', 'o', 'l', 'u', 'm', 'n']);
    assert("center"@ =~= seq!['c', 'e', 'n', 't', 'e', 'r']);
    assert("text"@ =~= seq!['t', 'e', 'x', 't']);
    assert("button"@ =~= seq!['b', 'u', 't', 't', 'o', 'n']);
    assert("input"@ =~= seq!['i', 'n', 'p', 'u', 't']);
    assert("checkbox"@ =~= seq!['c', 'h', 'e', 'c', 'k', 'b', 'o', 'x']);
    assert("tab_group"@ =~= seq!['t', 'a', 'b', '_', 'g', 'r', 'o', 'u', 'p']);
    assert("tab_bar"@ =~= seq!['t', 'a', 'b', '_', 'b', 'a', 'r']);
    assert("tab"@ =~= seq!['t', 'a', 'b']);
    assert("tab_content"@ =~= seq!['t', 'a', 'b', '_', 'c', 'o', 'n', 't', 'e', 'n', 't']);
    assert("tab_panel"@ =~= seq!['t', 'a', 'b', '_', 'p', 'a', 'n', 'e', 'l']);
    assert("table"@ =~= seq!['t', 'a', 'b', 'l', 'e']);
    assert("table_row"@ =~= seq!['t', 'a', 'b', 'l', 'e', '_', 'r', 'o', 'w']);
    assert("table_cell"@ =~= seq!['t', 'a', 'b', 'l', 'e', '_', 'c', 'e', 'l', 'l']);
    assert("dropdown"@ =~= seq!['d', 'r', 'o', 'p', 'd', 'o', 'w', 'n']);
    assert("scrollable"@ =~= seq!['s', 'c', 'r', 'o', 'l', 'l', 'a', 'b', 'l', 'e']);
}

/// What `constructor_of` returns on each canonical name.
pub proof fn lemma_constructor_of_names()
    ensures
        constructor_of("container"@) == Some(ComponentType::Container),
        constructor_of("row"@) == Some(ComponentType::Row),
        constructor_of("column"@) == Some(ComponentType::Column),
        constructor_of("center"@) == Some(ComponentType::Center),
        constructor_of("text"@) == Some(ComponentType::Text),
        constructor_of("button"@) == Some(ComponentType::Button),
        constructor_of("input"@) == Some(ComponentType::Input),
        constructor_of("checkbox"@) == Some(ComponentType::Checkbox),
        constructor_of("tab_group"@) == Some(ComponentType::TabGroup),
        constructor_of("tab_bar"@) == Some(ComponentType::TabBar),
        constructor_of("tab"@) == Some(ComponentType::Tab),
        constructor_of("tab_content"@) == Some(ComponentType::TabContent),
        constructor_of("tab_panel"@) == Some(ComponentType::TabPanel),
        constructor_of("table"@) == Some(ComponentType::Table),
        constructor_of("table_row"@) == Some(ComponentType::TableRow),
        constructor_of("table_cell"@) == Some(ComponentType::TableCell),
        constructor_of("dropdown"@) == Some(ComponentType::Dropdown),
        constructor_of("scrollable"@) == Some(ComponentType::Scrollable),
{
    assert(constructor_of("container"@) == Some(ComponentType::Container)) by {
        reveal_strlit("container");
        assert("container"@ =~= seq!['c', 'o', 'n', 't', 'a', 'i', 'n', 'e', 'r']);
    }
    assert(constructor_of("row"@) == Some(ComponentType::Row)) by {
        reveal_strlit("container");
        reveal_strlit("row");
        assert("container"@ =~= seq!['c', 'o', 'n', 't', 'a', 'i', 'n', 'e', 'r']);
        assert("row"@ =~= seq!['r', 'o', 'w']);
    }
    assert(constructor_of("column"@) == Some(ComponentType::Column)) by {
        reveal_strlit("container");
        reveal_strlit("row");
        reveal_strlit("column");
        assert("container"@ =~= seq!['c', 'o', 'n', 't', 'a', 'i', 'n', 'e', 'r']);
        assert("row"@ =~= seq!['r', 'o', 'w']);
        assert("column"@ =~= seq!['c', 'o', 'l', 'u', 'm', 'n']);
    }
    assert(constructor_of("center"@) == Some(ComponentType::Center)) by {
        reveal_strlit("container");
        reveal_strlit("row");
        reveal_strlit("column");
        reveal_strlit("center");
        assert("container"@ =~= seq!['c', 'o', 'n', 't', 'a', 'i', 'n', 'e', 'r']);
        assert("row"@ =~= seq!['r', 'o', 'w']);
        assert("column"@ =~= seq!['c', 'o', 'l', 'u', 'm', 'n']);
        assert("center"@ =~= seq!['c', 'e', 'n', 't', 'e', 'r']);
    }
    assert(constructor_of("text"@) == Some(ComponentType::Text)) by {
        reveal_strlit("container");
        reveal_strlit("row");
        reveal_strlit("column");
        reveal_strlit("center");
        reveal_strlit("text");
        assert("container"@ =~= seq!['c', 'o', 'n', 't', 'a', 'i', 'n', 'e', 'r']);
        assert("row"@ =~= seq!['r', 'o', 'w']);
        assert("column"@ =~= seq!['c', 'o', 'l', 'u', 'm', 'n']);
        assert("center"@ =~= seq!['c', 'e', 'n', 't', 'e', 'r']);
        assert("text"@ =~= seq!['t', 'e', 'x', 't']);
    }
    assert(constructor_of("button"@) == Some(ComponentType::Button)) by {
        reveal_strlit("container");
        reveal_strlit("row");
        reveal_strlit("column");
        reveal_strlit("center");
        reveal_strlit("text");
        reveal_strlit("button");
        assert("container"@ =~= seq!['c', 'o', 'n', 't', 'a', 'i', 'n', 'e', 'r']);
        assert("row"@ =~= seq!['r', 'o', 'w']);
        assert("column"@ =~= seq!['c', 'o', 'l', 'u', 'm', 'n']);
        assert("center"@ =~= seq!['c', 'e', 'n', 't', 'e', 'r']);
        assert("text"@ =~= seq!['t', 'e', 'x', 't']);
        assert("button"@ =~= seq!['b', 'u', 't', 't', 'o', 'n']);
    }
    assert(constructor_of("input"@) == Some(ComponentType::Input)) by {
        reveal_strlit("container");
        reveal_strlit("row");
        reveal_strlit("column");
        reveal_strlit("center");
        reveal_strlit("text");
        reveal_strlit("button");
        reveal_strlit("input");
        assert("container"@ =~= seq!['c', 'o', 'n', 't', 'a', 'i', 'n', 'e', 'r']);
        assert("row"@ =~= seq!['r', 'o', 'w']);
        assert("column"@ =~= seq!['c', 'o', 'l', 'u', 'm', 'n']);
        assert("center"@ =~= seq!['c', 'e', 'n', 't', 'e', 'r']);
        assert("text"@ =~= seq!['t', 'e', 'x', 't']);
        assert("button"@ =~= seq!['b', 'u', 't', 't', 'o', 'n']);
        assert("input"@ =~= seq!['i', 'n', 'p', 'u', 't']);
    }
    assert(constructor_of("checkbox"@) == Some(ComponentType::Checkbox)) by {
        reveal_strlit("container");
        reveal_strlit("row");
        reveal_strlit("column");
        reveal_strlit("center");
        reveal_strlit("text");
        reveal_strlit("button");
        reveal_strlit("input");
        reveal_strlit("checkbox");
        assert("container"@ =~= seq!['c', 'o', 'n', 't', 'a', 'i', 'n', 'e', 'r']);
        assert("row"@ =~= seq!['r', 'o', 'w']);
        assert("column"@ =~= seq!['c', 'o', 'l', 'u', 'm', 'n']);
        assert("center"@ =~= seq!['c', 'e', 'n', 't', 'e', 'r']);
        assert("text"@ =~= seq!['t', 'e', 'x', 't']);
        assert("button"@ =~= seq!['b', 'u', 't', 't', 'o', 'n']);
        assert("input"@ =~= seq!['i', 'n', 'p', 'u', 't']);
        assert("checkbox"@ =~= seq!['c', 'h', 'e', 'c', 'k', 'b', 'o', 'x']);
    }
    assert(constructor_of("tab_group"@) == Some(ComponentType::TabGroup)) by {
        reveal_strlit("container");
        reveal_strlit("row");
        reveal_strlit("column");
        reveal_strlit("center");
        reveal_strlit("text");
        reveal_strlit("button");
        reveal_strlit("input");
        reveal_strlit("checkbox");
        reveal_strlit("tab_group");
        assert("container"@ =~= seq!['c', 'o', 'n', 't', 'a', 'i', 'n', 'e', 'r']);
        assert("row"@ =~= seq!['r', 'o', 'w']);
        assert("column"@ =~= seq!['c', 'o', 'l', 'u', 'm', 'n']);
        assert("center"@ =~= seq!['c', 'e', 'n', 't', 'e', 'r']);
        assert("text"@ =~= seq!['t', 'e', 'x', 't']);
        assert("button"@ =~= seq!['b', 'u', 't', 't', 'o', 'n']);
        assert("input"@ =~= seq!['i', 'n', 'p', 'u', 't']);
        assert("checkbox"@ =~= seq!['c', 'h', 'e', 'c', 'k', 'b', 'o', 'x']);
        assert("tab_group"@ =~= seq!['t', 'a', 'b', '_', 'g', 'r', 'o', 'u', 'p']);
    }
    assert(constructor_of("tab_bar"@) == Some(ComponentType::TabBar)) by {
        reveal_strlit("container");
        reveal_strlit("row");
        reveal_strlit("column");
        reveal_strlit("center");
        reveal_strlit("text");
        reveal_strlit("button");
        reveal_strlit("input");
        reveal_strlit("checkbox");
        reveal_strlit("tab_group");
        reveal_strlit("tab_bar");
        assert("container"@ =~= seq!['c', 'o', 'n', 't', 'a', 'i', 'n', 'e', 'r']);
        assert("row"@ =~= seq!['r', 'o', 'w']);
        assert("column"@ =~= seq!['c', 'o', 'l', 'u', 'm', 'n']);
        assert("center"@ =~= seq!['c', 'e', 'n', 't', 'e', 'r']);
        assert("text"@ =~= seq!['t', 'e', 'x', 't']);
        assert("button"@ =~= seq!['b', 'u', 't', 't', 'o', 'n']);
        assert("input"@ =~= seq!['i', 'n', 'p', 'u', 't']);
        assert("checkbox"@ =~= seq!['c', 'h', 'e', 'c', 'k', 'b', 'o', 'x']);
        assert("tab_group"@ =~= seq!['t', 'a', 'b', '_', 'g', 'r', 'o', 'u', 'p']);
        assert("tab_bar"@ =~= seq!['t', 'a', 'b', '_', 'b', 'a', 'r']);
    }
    assert(constructor_of("tab"@) == Some(ComponentType::Tab)) by {
        reveal_strlit("container");
        reveal_strlit("row");
        reveal_strlit("column");
        reveal_strlit("center");
        reveal_strlit("text");
        reveal_strlit("button");
        reveal_strlit("input");
        reveal_strlit("checkbox");
        reveal_strlit("tab_group");
        reveal_strlit("tab_bar");
        reveal_strlit("tab");
        assert("container"@ =~= seq!['c', 'o', 'n', 't', 'a', 'i', 'n', 'e', 'r']);
        assert("row"@ =~= seq!['r', 'o', 'w']);
        assert("column"@ =~= seq!['c', 'o', 'l', 'u', 'm', 'n']);
        assert("center"@ =~= seq!['c', 'e', 'n', 't', 'e', 'r']);
        assert("text"@ =~= seq!['t', 'e', 'x', 't']);
        assert("button"@ =~= seq!['b', 'u', 't', 't', 'o', 'n']);
        assert("input"@ =~= seq!['i', 'n', 'p', 'u', 't']);
        assert("checkbox"@ =~= seq!['c', 'h', 'e', 'c', 'k', 'b', 'o', 'x']);
        assert("tab_group"@ =~= seq!['t', 'a', 'b', '_', 'g', 'r', 'o', 'u', 'p']);
        assert("tab_bar"@ =~= seq!['t', 'a', 'b', '_', 'b', 'a', 'r']);
        assert("tab"@ =~= seq!['t', 'a', 'b']);
    }
    assert(constructor_of("tab_content"@) == Some(ComponentType::TabContent)) by {
        reveal_strlit("container");
        reveal_strlit("row");
        reveal_strlit("column");
        reveal_strlit("center");
        reveal_strlit("text");
        reveal_strlit("button");
        reveal_strlit("input");
        reveal_strlit("checkbox");
        reveal_strlit("tab_group");
        reveal_strlit("tab_bar");
        reveal_strlit("tab");
        reveal_strlit("tab_content");
        assert("container"@ =~= seq!['c', 'o', 'n', 't', 'a', 'i', 'n', 'e', 'r']);
        assert("row"@ =~= seq!['r', 'o', 'w']);
        assert("column"@ =~= seq!['c', 'o', 'l', 'u', 'm', 'n']);
        assert("center"@ =~= seq!['c', 'e', 'n', 't', 'e', 'r']);
        assert("text"@ =~= seq!['t', 'e', 'x', 't']);
        assert("button"@ =~= seq!['b', 'u', 't', 't', 'o', 'n']);
        assert("input"@ =~= seq!['i', 'n', 'p', 'u', 't']);
        assert("checkbox"@ =~= seq!['c', 'h', 'e', 'c', 'k', 'b', 'o', 'x']);
        assert("tab_group"@ =~= seq!['t', 'a', 'b', '_', 'g', 'r', 'o', 'u', 'p']);
        assert("tab_bar"@ =~= seq!['t', 'a', 'b', '_', 'b', 'a', 'r']);
        assert("tab"@ =~= seq!['t', 'a', 'b']);
        assert("tab_content"@ =~= seq!['t', 'a', 'b', '_', 'c', 'o', 'n', 't', 'e', 'n', 't']);
    }
    assert(constructor_of("tab_panel"@) == Some(ComponentType::TabPanel)) by {
        reveal_strlit("container");
        reveal_strlit("row");
        reveal_strlit("column");
        reveal_strlit("center");
        reveal_strlit("text");
        reveal_strlit("button");
        reveal_strlit("input");
        reveal_strlit("checkbox");
        reveal_strlit("tab_group");
        reveal_strlit("tab_bar");
        reveal_strlit("tab");
        reveal_strlit("tab_content");
        reveal_strlit("tab_panel");
        assert("container"@ =~= seq!['c', 'o', 'n', 't', 'a', 'i', 'n', 'e', 'r']);
        assert("row"@ =~= seq!['r', 'o', 'w']);
        assert("column"@ =~= seq!['c', 'o', 'l', 'u', 'm', 'n']);
        assert("center"@ =~= seq!['c', 'e', 'n', 't', 'e', 'r']);
        assert("text"@ =~= seq!['t', 'e', 'x', 't']);
        assert("button"@ =~= seq!['b', 'u', 't', 't', 'o', 'n']);
        assert("input"@ =~= seq!['i', 'n', 'p', 'u', 't']);
        assert("checkbox"@ =~= seq!['c', 'h', 'e', 'c', 'k', 'b', 'o', 'x']);
        assert("tab_group"@ =~= seq!['t', 'a', 'b', '_', 'g', 'r', 'o', 'u', 'p']);
        assert("tab_bar"@ =~= seq!['t', 'a', 'b', '_', 'b', 'a', 'r']);
        assert("tab"@ =~= seq!['t', 'a', 'b']);
        assert("tab_content"@ =~= seq!['t', 'a', 'b', '_', 'c', 'o', 'n', 't', 'e', 'n', 't']);
        assert("tab_panel"@ =~= seq!['t', 'a', 'b', '_', 'p', 'a', 'n', 'e', 'l']);
    }
    assert(constructor_of("table"@) == Some(ComponentType::Table)) by {
        reveal_strlit("container");
        reveal_strlit("row");
        reveal_strlit("column");
        reveal_strlit("center");
        reveal_strlit("text");
        reveal_strlit("button");
        reveal_strlit("input");
        reveal_strlit("checkbox");
        reveal_strlit("tab_group");
        reveal_strlit("tab_bar");
        reveal_strlit("tab");
        reveal_strlit("tab_content");
        reveal_strlit("tab_panel");
        reveal_strlit("table");
        assert("container"@ =~= seq!['c', 'o', 'n', 't', 'a', 'i', 'n', 'e', 'r']);
        assert("row"@ =~= seq!['r', 'o', 'w']);
        assert("column"@ =~= seq!['c', 'o', 'l', 'u', 'm', 'n']);
        assert("center"@ =~= seq!['c', 'e', 'n', 't', 'e', 'r']);
        assert("text"@ =~= seq!['t', 'e', 'x', 't']);
        assert("button"@ =~= seq!['b', 'u', 't', 't', 'o', 'n']);
        assert("input"@ =~= seq!['i', 'n', 'p', 'u', 't']);
        assert("checkbox"@ =~= seq!['c', 'h', 'e', 'c', 'k', 'b', 'o', 'x']);
        assert("tab_group"@ =~= seq!['t', 'a', 'b', '_', 'g', 'r', 'o', 'u', 'p']);
        assert("tab_bar"@ =~= seq!['t', 'a', 'b', '_', 'b', 'a', 'r']);
        assert("tab"@ =~= seq!['t', 'a', 'b']);
        assert("tab_content"@ =~= seq!['t', 'a', 'b', '_', 'c', 'o', 'n', 't', 'e', 'n', 't']);
        assert("tab_panel"@ =~= seq!['t', 'a', 'b', '_', 'p', 'a', 'n', 'e', 'l']);
        assert("table"@ =~= seq!['t', 'a', 'b', 'l', 'e']);
    }
    assert(constructor_of("table_row"@) == Some(ComponentType::TableRow)) by {
        reveal_strlit("container");
        reveal_strlit("row");
        reveal_strlit("column");
        reveal_strlit("center");
        reveal_strlit("text");
        reveal_strlit("button");
        reveal_strlit("input");
        reveal_strlit("checkbox");
        reveal_strlit("tab_group");
        reveal_strlit("tab_bar");
        reveal_strlit("tab");
        reveal_strlit("tab_content");
        reveal_strlit("tab_panel");
        reveal_strlit("table");
        reveal_strlit("table_row");
        assert("container"@ =~= seq!['c', 'o', 'n', 't', 'a', 'i', 'n', 'e', 'r']);
        assert("row"@ =~= seq!['r', 'o', 'w']);
        assert("column"@ =~= seq!['c', 'o', 'l', 'u', 'm', 'n']);
        assert("center"@ =~= seq!['c', 'e', 'n', 't', 'e', 'r']);
        assert("text"@ =~= seq!['t', 'e', 'x', 't']);
        assert("button"@ =~= seq!['b', 'u', 't', 't', 'o', 'n']);
        assert("input"@ =~= seq!['i', 'n', 'p', 'u', 't']);
        assert("checkbox"@ =~= seq!['c', 'h', 'e', 'c', 'k', 'b', 'o', 'x']);
        assert("tab_group"@ =~= seq!['t', 'a', 'b', '_', 'g', 'r', 'o', 'u', 'p']);
        assert("tab_bar"@ =~= seq!['t', 'a', 'b', '_', 'b', 'a', 'r']);
        assert("tab"@ =~= seq!['t', 'a', 'b']);
        assert("tab_content"@ =~= seq!['t', 'a', 'b', '_', 'c', 'o', 'n', 't', 'e', 'n', 't']);
        assert("tab_panel"@ =~= seq!['t', 'a', 'b', '_', 'p', 'a', 'n', 'e', 'l']);
        assert("table"@ =~= seq!['t', 'a', 'b', 'l', 'e']);
        assert("table_row"@ =~= seq!['t', 'a', 'b', 'l', 'e', '_', 'r', 'o', 'w']);
    }
    assert(constructor_of("table_cell"@) == Some(ComponentType::TableCell)) by {
        reveal_strlit("container");
        reveal_strlit("row");
        reveal_strlit("column");
        reveal_strlit("center");
        reveal_strlit("text");
        reveal_strlit("button");
        reveal_strlit("input");
        reveal_strlit("checkbox");
        reveal_strlit("tab_group");
        reveal_strlit("tab_bar");
        reveal_strlit("tab");
        reveal_strlit("tab_content");
        reveal_strlit("tab_panel");
        reveal_strlit("table");
        reveal_strlit("table_row");
        reveal_strlit("table_cell");
        assert("container"@ =~= seq!['c', 'o', 'n', 't', 'a', 'i', 'n', 'e', 'r']);
        assert("row"@ =~= seq!['r', 'o', 'w']);
        assert("column"@ =~= seq!['c', 'o', 'l', 'u', 'm', 'n']);
        assert("center"@ =~= seq!['c', 'e', 'n', 't', 'e', 'r']);
        assert("text"@ =~= seq!['t', 'e', 'x', 't']);
        assert("button"@ =~= seq!['b', 'u', 't', 't', 'o', 'n']);
        assert("input"@ =~= seq!['i', 'n', 'p', 'u', 't']);
        assert("checkbox"@ =~= seq!['c', 'h', 'e', 'c', 'k', 'b', 'o', 'x']);
        assert("tab_group"@ =~= seq!['t', 'a', 'b', '_', 'g', 'r', 'o', 'u', 'p']);
        assert("tab_bar"@ =~= seq!['t', 'a', 'b', '_', 'b', 'a', 'r']);
        assert("tab"@ =~= seq!['t', 'a', 'b']);
        assert("tab_content"@ =~= seq!['t', 'a', 'b', '_', 'c', 'o', 'n', 't', 'e', 'n', 't']);
        assert("tab_panel"@ =~= seq!['t', 'a', 'b', '_', 'p', 'a', 'n', 'e', 'l']);
        assert("table"@ =~= seq!['t', 'a', 'b', 'l', 'e']);
        assert("table_row"@ =~= seq!['t', 'a', 'b', 'l', 'e', '_', 'r', 'o', 'w']);
        assert("table_cell"@ =~= seq!['t', 'a', 'b', 'l', 'e', '_', 'c', 'e', 'l', 'l']);
    }
    assert(constructor_of("dropdown"@) == Some(ComponentType::Dropdown)) by {
        reveal_strlit("container");
        reveal_strlit("row");
        reveal_strlit("column");
        reveal_strlit("center");
        reveal_strlit("text");
        reveal_strlit("button");
        reveal_strlit("input");
        reveal_strlit("checkbox");
        reveal_strlit("tab_group");
        reveal_strlit("tab_bar");
        reveal_strlit("tab");
        reveal_strlit("tab_content");
        reveal_strlit("tab_panel");
        reveal_strlit("table");
        reveal_strlit("table_row");
        reveal_strlit("table_cell");
        reveal_strlit("dropdown");
        assert("container"@ =~= seq!['c', 'o', 'n', 't', 'a', 'i', 'n', 'e', 'r']);
        assert("row"@ =~= seq!['r', 'o', 'w']);
        assert("column"@ =~= seq!['c', 'o', 'l', 'u', 'm', 'n']);
        assert("center"@ =~= seq!['c', 'e', 'n', 't', 'e', 'r']);
        assert("text"@ =~= seq!['t', 'e', 'x', 't']);
        assert("button"@ =~= seq!['b', 'u', 't', 't', 'o', 'n']);
        assert("input"@ =~= seq!['i', 'n', 'p', 'u', 't']);
        assert("checkbox"@ =~= seq!['c', 'h', 'e', 'c', 'k', 'b', 'o', 'x']);
        assert("tab_group"@ =~= seq!['t', 'a', 'b', '_', 'g', 'r', 'o', 'u', 'p']);
        assert("tab_bar"@ =~= seq!['t', 'a', 'b', '_', 'b', 'a', 'r']);
        assert("tab"@ =~= seq!['t', 'a', 'b']);
        assert("tab_content"@ =~= seq!['t', 'a', 'b', '_', 'c', 'o', 'n', 't', 'e', 'n', 't']);
        assert("tab_panel"@ =~= seq!['t', 'a', 'b', '_', 'p', 'a', 'n', 'e', 'l']);
        assert("table"@ =~= seq!['t', 'a', 'b', 'l', 'e']);
        assert("table_row"@ =~= seq!['t', 'a', 'b', 'l', 'e', '_', 'r', 'o', 'w']);
        assert("table_cell"@ =~= seq!['t', 'a', 'b', 'l', 'e', '_', 'c', 'e', 'l', 'l']);
        assert("dropdown"@ =~= seq!['d', 'r', 'o', 'p', 'd', 'o', 'w', 'n']);
    }
    assert(constructor_of("scrollable"@) == Some(ComponentType::Scrollable)) by {
        reveal_strlit("container");
        reveal_strlit("row");
        reveal_strlit("column");
        reveal_strlit("center");
        reveal_strlit("text");
        reveal_strlit("button");
        reveal_strlit("input");
        reveal_strlit("checkbox");
        reveal_strlit("tab_group");
        reveal_strlit("tab_bar");
        reveal_strlit("tab");
        reveal_strlit("tab_content");
        reveal_strlit("tab_panel");
        reveal_strlit("table");
        reveal_strlit("table_row");
        reveal_strlit("table_cell");
        reveal_strlit("dropdown");
        reveal_strlit("scrollable");
        assert("container"@ =~= seq!['c', 'o', 'n', 't', 'a', 'i', 'n', 'e', 'r']);
        assert("row"@ =~= seq!['r', 'o', 'w']);
        assert("column"@ =~= seq!['c', 'o', 'l', 'u', 'm', 'n']);
        assert("center"@ =~= seq!['c', 'e', 'n', 't', 'e', 'r']);
        assert("text"@ =~= seq!['t', 'e', 'x', 't']);
        assert("button"@ =~= seq!['b', 'u', 't', 't', 'o', 'n']);
        assert("input"@ =~= seq!['i', 'n', 'p', 'u', 't']);
        assert("checkbox"@ =~= seq!['c', 'h', 'e', 'c', 'k', 'b', 'o', 'x']);
        assert("tab_group"@ =~= seq!['t', 'a', 'b', '_', 'g', 'r', 'o', 'u', 'p']);
        assert("tab_bar"@ =~= seq!['t', 'a', 'b', '_', 'b', 'a', 'r']);
        assert("tab"@ =~= seq!['t', 'a', 'b']);
        assert("tab_content"@ =~= seq!['t', 'a', 'b', '_', 'c', 'o', 'n', 't', 'e', 'n', 't']);
        assert("tab_panel"@ =~= seq!['t', 'a', 'b', '_', 'p', 'a', 'n', 'e', 'l']);
        assert("table"@ =~= seq!['t', 'a', 'b', 'l', 'e']);
        assert("table_row"@ =~= seq!['t', 'a', 'b', 'l', 'e', '_', 'r', 'o', 'w']);
        assert("table_cell"@ =~= seq!['t', 'a', 'b', 'l', 'e', '_', 'c', 'e', 'l', 'l']);
        assert("dropdown"@ =~= seq!['d', 'r', 'o', 'p', 'd', 'o', 'w', 'n']);
        assert("scrollable"@ =~= seq!['s', 'c', 'r', 'o', 'l', 'l', 'a', 'b', 'l', 'e']);
    }
}
/// The data-driven constructor table: each canonical builder name
/// beside its component type, so that adding a component type is a
/// data change.
#[verifier::rlimit(50)]
fn constructor_table() -> (t: Vec<(String, ComponentType)>)
    ensures
        t@.len() == 18,
        forall|i: int| 0 <= i < t@.len() ==> constructor_of(#[trigger] t@[i].0@) == Some(t@[i].1),
        t@[0].0@ == "container"@,
        t@[1].0@ == "row"@,
        t@[2].0@ == "column"@,
        t@[3].0@ == "center"@,
        t@[4].0@ == "text"@,
        t@[5].0@ == "button"@,
        t@[6].0@ == "input"@,
        t@[7].0@ == "checkbox"@,
        t@[8].0@ == "tab_group"@,
        t@[9].0@ == "tab_bar"@,
        t@[10].0@ == "tab"@,
        t@[11].0@ == "tab_content"@,
        t@[12].0@ == "tab_panel"@,
        t@[13].0@ == "table"@,
        t@[14].0@ == "table_row"@,
        t@[15].0@ == "table_cell"@,
        t@[16].0@ == "dropdown"@,
        t@[17].0@ == "scrollable"@,
{
    let mut t: Vec<(String, ComponentType)> = Vec::new();
    t.push((String::from_str("container"), ComponentType::Container));
    t.push((String::from_str("row"), ComponentType::Row));
    t.push((String::from_str("column"), ComponentType::Column));
    t.push((String::from_str("center"), ComponentType::Center));
    t.push((String::from_str("text"), ComponentType::Text));
    t.push((String::from_str("button"), ComponentType::Button));
    t.push((String::from_str("input"), ComponentType::Input));
    t.push((String::from_str("checkbox"), ComponentType::Checkbox));
    t.push((String::from_str("tab_group"), ComponentType::TabGroup));
    t.push((String::from_str("tab_bar"), ComponentType::TabBar));
    t.push((String::from_str("tab"), ComponentType::Tab));
    t.push((String::from_str("tab_content"), ComponentType::TabContent));
    t.push((String::from_str("tab_panel"), ComponentType::TabPanel));
    t.push((String::from_str("table"), ComponentType::Table));
    t.push((String::from_str("table_row"), ComponentType::TableRow));
    t.push((String::from_str("table_cell"), ComponentType::TableCell));
    t.push((String::from_str("dropdown"), ComponentType::Dropdown));
    t.push((String::from_str("scrollable"), ComponentType::Scrollable));
    proof {
        lemma_constructor_of_names();
        assert forall|i: int| 0 <= i < t@.len() implies constructor_of(#[trigger] t@[i].0@)
            == Some(t@[i].1) by {
            if i == 0 {
                assert(constructor_of(t@[0].0@) == Some(ComponentType::Container));
            } else if i == 1 {
                assert(constructor_of(t@[1].0@) == Some(ComponentType::Row));
            } else if i == 2 {
                assert(constructor_of(t@[2].0@) == Some(ComponentType::Column));
            } else if i == 3 {
                assert(constructor_of(t@[3].0@) == Some(ComponentType::Center));
            } else if i == 4 {
                assert(constructor_of(t@[4].0@) == Some(ComponentType::Text));
            } else if i == 5 {
                assert(constructor_of(t@[5].0@) == Some(ComponentType::Button));
            } else if i == 6 {
                assert(constructor_of(t@[6].0@) == Some(ComponentType::Input));
            } else if i == 7 {
                assert(constructor_of(t@[7].0@) == Some(ComponentType::Checkbox));
            } else if i == 8 {
                assert(constructor_of(t@[8].0@) == Some(ComponentType::TabGroup));
            } else if i == 9 {
                assert(constructor_of(t@[9].0@) == Some(ComponentType::TabBar));
            } else if i == 10 {
                assert(constructor_of(t@[10].0@) == Some(ComponentType::Tab));
            } else if i == 11 {
                assert(constructor_of(t@[11].0@) == Some(ComponentType::TabContent));
            } else if i == 12 {
                assert(constructor_of(t@[12].0@) == Some(ComponentType::TabPanel));
            } else if i == 13 {
                assert(constructor_of(t@[13].0@) == Some(ComponentType::Table));
            } else if i == 14 {
                assert(constructor_of(t@[14].0@) == Some(ComponentType::TableRow));
            } else if i == 15 {
                assert(constructor_of(t@[15].0@) == Some(ComponentType::TableCell));
            } else if i == 16 {
                assert(constructor_of(t@[16].0@) == Some(ComponentType::Dropdown));
            } else {
                assert(constructor_of(t@[17].0@) == Some(ComponentType::Scrollable));
            }
        }
    }
    t
}

/// The names in the constructor table are exactly those that
/// `constructor_of` accepts.
proof fn lemma_constructor_names(n: Seq<char>)
    requires
        n != "container"@,
        n != "row"@,
        n != "column"@,
        n != "center"@,
        n != "text"@,
        n != "button"@,
        n != "input"@,
        n != "checkbox"@,
        n != "tab_group"@,
        n != "tab_bar"@,
        n != "tab"@,
        n != "tab_content"@,
        n != "tab_panel"@,
        n != "table"@,
        n != "table_row"@,
        n != "table_cell"@,
        n != "dropdown"@,
        n != "scrollable"@,
    ensures
        constructor_of(n) is None,
{
}

/// Look a canonical builder name up in the constructor table.
pub fn lookup_constructor(bname: &String) -> (r: Option<ComponentType>)
    ensures
        r == constructor_of(bname@),
{
    let t = constructor_table();
    let mut i: usize = 0;
    while i < t.len()
        invariant
            i <= t@.len(),
            t@.len() == 18,
            forall|k: int| 0 <= k < i ==> #[trigger] t@[k].0@ != bname@,
            forall|k: int| 0 <= k < t@.len() ==> constructor_of(#[trigger] t@[k].0@) == Some(
                t@[k].1,
            ),
            t@[0].0@ == "container"@,
            t@[1].0@ == "row"@,
            t@[2].0@ == "column"@,
            t@[3].0@ == "center"@,
            t@[4].0@ == "text"@,
            t@[5].0@ == "button"@,
            t@[6].0@ == "input"@,
            t@[7].0@ == "checkbox"@,
            t@[8].0@ == "tab_group"@,
            t@[9].0@ == "tab_bar"@,
            t@[10].0@ == "tab"@,
            t@[11].0@ == "tab_content"@,
            t@[12].0@ == "tab_panel"@,
            t@[13].0@ == "table"@,
            t@[14].0@ == "table_row"@,
            t@[15].0@ == "table_cell"@,
            t@[16].0@ == "dropdown"@,
            t@[17].0@ == "scrollable"@,
        decreases t@.len() - i,
    {
        if t[i].0.eq(bname) {
            return Some(t[i].1);
        }
        i = i + 1;
    }
    proof {
        lemma_constructor_names(bname@);
    }
    None
}

/// Resolve a block-type name to its constructor: the explicit alias
/// table first, then the snake-case fallback, each looked up in the
/// constructor table.
pub fn resolve_component_type(name: &String) -> (r: Option<ComponentType>)
    ensures
        r == resolve_constructor(name@),
{
    let bname: String;
    if name.eq(&String::from_str("App")) || name.eq(&String::from_str("Container")) {
        bname = String::from_str("container");
    } else if name.eq(&String::from_str("Column")) {
        bname = String::from_str("column");
    } else if name.eq(&String::from_str("Row")) {
        bname = String::from_str("row");
    } else if name.eq(&String::from_str("Text")) {
        bname = String::from_str("text");
    } else if name.eq(&String::from_str("Button")) {
        bname = String::from_str("button");
    } else {
        bname = to_snake_case(name.as_str());
    }
    proof {
        assert(bname@ == resolve_builder_name(name@));
    }
    lookup_constructor(&bname)
}

/// The value of a property that is a single string literal.
pub open spec fn as_str_value(v: Seq<TokenView>) -> Option<Seq<char>> {
    if v.len() == 1 {
        match v[0] {
            TokenView::StrLit(s) => Some(s),
            _ => None,
        }
    } else {
        None
    }
}

/// The value of a property that is a single integer literal.
pub open spec fn as_int_value(v: Seq<TokenView>) -> Option<i64> {
    if v.len() == 1 {
        match v[0] {
            TokenView::IntLit(n) => Some(n),
            _ => None,
        }
    } else {
        None
    }
}

/// The alignment constant a string stands for.
pub open spec fn alignment_of(s: Seq<char>) -> Option<Alignment> {
    if s == "start"@ {
        Some(Alignment::Start)
    } else if s == "center"@ {
        Some(Alignment::Center)
    } else if s == "end"@ {
        Some(Alignment::End)
    } else if s == "space-between"@ {
        Some(Alignment::SpaceBetween)
    } else if s == "space-around"@ {
        Some(Alignment::SpaceAround)
    } else {
        None
    }
}

/// A property name whose value becomes the constructor's initial
/// argument instead of a setter call.
pub open spec fn is_initial_name(n: Seq<char>) -> bool {
    n == "content"@ || n == "text"@ || n == "title"@
}

/// The value of the first initial-content property, if any.
pub open spec fn first_initial_value(props: Seq<PropertyView>, i: int) -> Option<Seq<TokenView>>
    decreases props.len() - i,
{
    if i < 0 || i >= props.len() {
        None
    } else if is_initial_name(props[i].name) {
        Some(props[i].value)
    } else {
        first_initial_value(props, i + 1)
    }
}

/// One setter applied to a component under construction: the property
/// name picks the typed field. A value that is a single literal of the
/// field's type is set now; any other value expression is forwarded
/// unchanged as a deferred slot (the second component `true`), its
/// evaluation left to the host at construction time. `None` only when
/// no setter carries the name. Initial-content names are never passed
/// here.
pub open spec fn sp_apply_prop(c: ComponentView, name: Seq<char>, value: Seq<TokenView>) -> Option<
    (ComponentView, bool),
> {
    if name == "width"@ {
        match as_str_value(value) {
            Some(s) => Some((ComponentView { width: Some(s), ..c }, false)),
            None => Some((c, true)),
        }
    } else if name == "height"@ {
        match as_str_value(value) {
            Some(s) => Some((ComponentView { height: Some(s), ..c }, false)),
            None => Some((c, true)),
        }
    } else if name == "background"@ {
        match as_str_value(value) {
            Some(s) => Some((ComponentView { background: Some(s), ..c }, false)),
            None => Some((c, true)),
        }
    } else if name == "color"@ {
        match as_str_value(value) {
            Some(s) => Some((ComponentView { color: Some(s), ..c }, false)),
            None => Some((c, true)),
        }
    } else if name == "placeholder"@ {
        match as_str_value(value) {
            Some(s) => Some((ComponentView { placeholder: Some(s), ..c }, false)),
            None => Some((c, true)),
        }
    } else if name == "padding"@ {
        match as_int_value(value) {
            Some(n) => if 0 <= n <= u32::MAX {
                Some((ComponentView { padding: Some(n as u32), ..c }, false))
            } else {
                Some((c, true))
            },
            None => Some((c, true)),
        }
    } else if name == "margin"@ {
        match as_int_value(value) {
            Some(n) => if 0 <= n <= u32::MAX {
                Some((ComponentView { margin: Some(n as u32), ..c }, false))
            } else {
                Some((c, true))
            },
            None => Some((c, true)),
        }
    } else if name == "gap"@ {
        match as_int_value(value) {
            Some(n) => if 0 <= n <= u32::MAX {
                Some((ComponentView { gap: Some(n as u32), ..c }, false))
            } else {
                Some((c, true))
            },
            None => Some((c, true)),
        }
    } else if name == "opacity"@ {
        match as_int_value(value) {
            Some(n) => if 0 <= n <= u32::MAX {
                Some((ComponentView { opacity: Some(n as u32), ..c }, false))
            } else {
                Some((c, true))
            },
            None => Some((c, true)),
        }
    } else if name == "font_size"@ {
        match as_int_value(value) {
            Some(n) => if 0 <= n <= u32::MAX {
                Some((ComponentView { font_size: Some(n as u32), ..c }, false))
            } else {
                Some((c, true))
            },
            None => Some((c, true)),
        }
    } else if name == "flex_grow"@ {
        match as_int_value(value) {
            Some(n) => if 0 <= n <= 255 {
                Some((ComponentView { flex_grow: Some(n as u8), ..c }, false))
            } else {
                Some((c, true))
            },
            None => Some((c, true)),
        }
    } else if name == "flex_shrink"@ {
        match as_int_value(value) {
            Some(n) => if 0 <= n <= 255 {
                Some((ComponentView { flex_shrink: Some(n as u8), ..c }, false))
            } else {
                Some((c, true))
            },
            None => Some((c, true)),
        }
    } else if name == "justify_content"@ {
        match as_str_value(value) {
            Some(s) => match alignment_of(s) {
                Some(a) => Some(
                    (
                        ComponentView {
                            justify_content: Some(crate::ir::AlignmentValueView::Constant(a)),
                            ..c
                        },
                        false,
                    ),
                ),
                None => Some((c, true)),
            },
            None => Some((c, true)),
        }
    } else if name == "align_items"@ {
        match as_str_value(value) {
            Some(s) => match alignment_of(s) {
                Some(a) => Some(
                    (
                        ComponentView {
                            align_items: Some(crate::ir::AlignmentValueView::Constant(a)),
                            ..c
                        },
                        false,
                    ),
                ),
                None => Some((c, true)),
            },
            None => Some((c, true)),
        }
    } else {
        None
    }
}

/// All setters applied in source order, from property `i` on,
/// skipping the initial-content properties. The second component
/// collects the deferred slots, as field-name and value-expression
/// pairs in source order.
pub open spec fn sp_apply_props(c: ComponentView, props: Seq<PropertyView>, i: int) -> Option<
    (ComponentView, Seq<(Seq<char>, Seq<TokenView>)>),
>
    decreases props.len() - i,
{
    if i < 0 || i >= props.len() {
        Some((c, Seq::empty()))
    } else if is_initial_name(props[i].name) {
        sp_apply_props(c, props, i + 1)
    } else {
        match sp_apply_prop(c, props[i].name, props[i].value) {
            Some((c1, deferred)) => match sp_apply_props(c1, props, i + 1) {
                Some((c2, rest)) => if deferred {
                    Some((c2, seq![(props[i].name, props[i].value)] + rest))
                } else {
                    Some((c2, rest))
                },
                None => None,
            },
            None => None,
        }
    }
}

/// The component a constructor starts from: the bare component, with
/// the initial-content argument where the constructor requires one. A
/// text constructor requires initial content, a button constructor
/// likewise; every other constructor takes none and rejects it. An
/// initial argument that is not a string literal is forwarded as a
/// deferred slot for the named content field (the second component).
pub open spec fn sp_construct(
    ct: ComponentType,
    id: u32,
    init: Option<Seq<TokenView>>,
) -> Option<(ComponentView, Option<(Seq<char>, Seq<TokenView>)>)> {
    let base = crate::ir::bare_component_view(ct, id);
    match ct {
        ComponentType::Text => match init {
            Some(v) => match as_str_value(v) {
                Some(s) => Some((ComponentView { content: Some(s), ..base }, None)),
                None => Some((base, Some(("content"@, v)))),
            },
            None => None,
        },
        ComponentType::Button => match init {
            Some(v) => match as_str_value(v) {
                Some(s) => Some((ComponentView { text: Some(s), ..base }, None)),
                None => Some((base, Some(("text"@, v)))),
            },
            None => None,
        },
        _ => match init {
            Some(_) => None,
            None => Some((base, None)),
        },
    }
}

/// Work the generator leaves to the host: an opaque expression in a
/// property or child position is recorded here verbatim, with the
/// place it belongs to, and its evaluation is deferred to the host
/// expression evaluator at construction time.
#[derive(Debug)]
pub enum DeferredSlot {
    /// A property whose value expression the host must evaluate and
    /// set on the component with this identifier.
    Property { component_id: u32, name: String, value: Vec<Token> },
    /// A child expression the host must evaluate to a component and
    /// insert at this source position among the parent's children.
    Child { parent_id: u32, index: usize, expr: Vec<Token> },
}

/// Ghost view of a deferred slot.
pub enum DeferredSlotView {
    Property { component_id: u32, name: Seq<char>, value: Seq<TokenView> },
    Child { parent_id: u32, index: usize, expr: Seq<TokenView> },
}

impl View for DeferredSlot {
    type V = DeferredSlotView;

    open spec fn view(&self) -> DeferredSlotView {
        match self {
            DeferredSlot::Property { component_id, name, value } => DeferredSlotView::Property {
                component_id: *component_id,
                name: name@,
                value: tok_seq_view(value@),
            },
            DeferredSlot::Child { parent_id, index, expr } => DeferredSlotView::Child {
                parent_id: *parent_id,
                index: *index,
                expr: tok_seq_view(expr@),
            },
        }
    }
}

/// Pointwise view of a deferred-slot vector.
pub open spec fn ds_seq_view(s: Seq<DeferredSlot>) -> Seq<DeferredSlotView> {
    Seq::new(s.len(), |i: int| s[i]@)
}

/// The property slots of one component, from its field-name and
/// value pairs.
pub open spec fn prop_slots(id: u32, ps: Seq<(Seq<char>, Seq<TokenView>)>) -> Seq<
    DeferredSlotView,
> {
    Seq::new(ps.len(), |k: int| DeferredSlotView::Property {
        component_id: id,
        name: ps[k].0,
        value: ps[k].1,
    })
}

/// Generate one component from a block: take the next identifier,
/// resolve the constructor, apply the initial content and the property
/// setters, then generate the children in source order. The third
/// component collects the deferred slots — opaque property values
/// first, then the children's, in source order. `None` is a generation
/// error: an unresolved name, an unknown property name, missing or
/// misplaced initial content, or an exhausted identifier counter.
pub open spec fn sp_gen_component(b: BlockView, ctr: u32) -> Option<
    (ComponentView, u32, Seq<DeferredSlotView>),
>
    decreases b, 0int,
{
    if ctr == u32::MAX {
        None
    } else {
        let id = (ctr + 1) as u32;
        match resolve_constructor(b.component_type) {
            None => None,
            Some(ct) => match sp_construct(ct, id, first_initial_value(b.properties, 0)) {
                None => None,
                Some((c0, init_slot)) => match sp_apply_props(c0, b.properties, 0) {
                    None => None,
                    Some((c1, prop_defs)) => match sp_gen_children(b.children, 0, id, id) {
                        None => None,
                        Some((kids, ctr2, child_defs)) => {
                            let init_part: Seq<DeferredSlotView> = match init_slot {
                                Some((fname, v)) => seq![
                                    DeferredSlotView::Property {
                                        component_id: id,
                                        name: fname,
                                        value: v,
                                    },
                                ],
                                None => Seq::empty(),
                            };
                            Some(
                                (
                                    ComponentView { children: kids, ..c1 },
                                    ctr2,
                                    init_part + prop_slots(id, prop_defs) + child_defs,
                                ),
                            )
                        },
                    },
                },
            },
        }
    }
}

/// Generate the children from position `i` on, threading the counter.
/// A block child is generated; an opaque expression child is recorded
/// verbatim as a deferred slot at its source position under the
/// parent, its evaluation left to the host.
pub open spec fn sp_gen_children(childs: Seq<ChildView>, i: int, ctr: u32, parent: u32) -> Option<
    (Seq<ComponentView>, u32, Seq<DeferredSlotView>),
>
    decreases childs, childs.len() - i + 1,
{
    if i < 0 || i >= childs.len() {
        Some((Seq::empty(), ctr, Seq::empty()))
    } else {
        match childs[i] {
            ChildView::Expr(e) => match sp_gen_children(childs, i + 1, ctr, parent) {
                None => None,
                Some((rest, ctr3, defs)) => Some(
                    (
                        rest,
                        ctr3,
                        seq![
                            DeferredSlotView::Child { parent_id: parent, index: i as usize, expr: e },
                        ] + defs,
                    ),
                ),
            },
            ChildView::Component(b) => match sp_gen_component(b, ctr) {
                None => None,
                Some((c, ctr2, cdefs)) => match sp_gen_children(childs, i + 1, ctr2, parent) {
                    None => None,
                    Some((rest, ctr3, defs)) => Some((seq![c] + rest, ctr3, cdefs + defs)),
                },
            },
        }
    }
}

/// The whole generation result for one top-level block, with the
/// counter started at zero: the root receives identifier one, and the
/// deferred slots keep their generation order.
pub open spec fn sp_generate(b: BlockView) -> Option<(ComponentView, Seq<DeferredSlotView>)> {
    match sp_gen_component(b, 0) {
        None => None,
        Some((c, ctr, defs)) => Some((c, defs)),
    }
}

/// A generation failure. Generation is all-or-nothing: on any error
/// no partial document is produced. Each error names the offending
/// identifier; the abstract syntax tree carries no source positions,
/// so token positions are reported only by the parser.
#[derive(Debug)]
pub enum GenError {
    /// The block-type name resolves to no constructor.
    UnresolvedComponent(String),
    /// No setter carries this property name.
    UnknownProperty(String),
    /// The constructor requires an initial-content property.
    MissingInitialContent,
    /// The constructor takes no initial-content property.
    UnexpectedInitialContent,
    /// The identifier counter is exhausted.
    TooManyComponents,
}

/// The value of a property that is one string literal.
fn value_as_string(value: &Vec<Token>) -> (r: Option<String>)
    ensures
        match r {
            Some(s) => as_str_value(tok_seq_view(value@)) == Some(s@),
            None => as_str_value(tok_seq_view(value@)) is None,
        },
{
    proof {
        if value@.len() > 0 {
            assert(tok_seq_view(value@)[0] == value@[0]@);
        }
    }
    if value.len() == 1 {
        match &value[0] {
            Token::StrLit(s) => Some(s.clone()),
            _ => None,
        }
    } else {
        None
    }
}

/// The value of a property that is one integer literal.
fn value_as_int(value: &Vec<Token>) -> (r: Option<i64>)
    ensures
        r == as_int_value(tok_seq_view(value@)),
{
    proof {
        if value@.len() > 0 {
            assert(tok_seq_view(value@)[0] == value@[0]@);
        }
    }
    if value.len() == 1 {
        match &value[0] {
            Token::IntLit(n) => Some(*n),
            _ => None,
        }
    } else {
        None
    }
}

/// Parse an alignment constant.
pub(crate) fn parse_alignment(s: &String) -> (r: Option<Alignment>)
    ensures
        r == alignment_of(s@),
{
    if s.eq(&String::from_str("start")) {
        Some(Alignment::Start)
    } else if s.eq(&String::from_str("center")) {
        Some(Alignment::Center)
    } else if s.eq(&String::from_str("end")) {
        Some(Alignment::End)
    } else if s.eq(&String::from_str("space-between")) {
        Some(Alignment::SpaceBetween)
    } else if s.eq(&String::from_str("space-around")) {
        Some(Alignment::SpaceAround)
    } else {
        None
    }
}

/// Is this an initial-content property name?
pub fn is_initial_property(name: &String) -> (r: bool)
    ensures
        r == is_initial_name(name@),
{
    name.eq(&String::from_str("content")) || name.eq(&String::from_str("text")) || name.eq(
        &String::from_str("title"),
    )
}

/// The index of the first initial-content property.
fn find_initial(props: &Vec<Property>) -> (r: Option<usize>)
    ensures
        match r {
            Some(k) => k < props@.len() && first_initial_value(
                crate::parser::prop_seq_view(props@),
                0,
            ) == Some(props@[k as int]@.value),
            None => first_initial_value(crate::parser::prop_seq_view(props@), 0) is None,
        },
{
    let ghost pv = crate::parser::prop_seq_view(props@);
    let mut i: usize = 0;
    while i < props.len()
        invariant
            i <= props@.len(),
            pv == crate::parser::prop_seq_view(props@),
            first_initial_value(pv, 0) == first_initial_value(pv, i as int),
        decreases props@.len() - i,
    {
        proof {
            assert(pv[i as int] == props@[i as int]@);
        }
        if is_initial_property(&props[i].name) {
            return Some(i);
        }
        i = i + 1;
    }
    None
}

/// Apply one setter, consuming and returning the component; the
/// second result is true when the value expression was left to the
/// host as a deferred slot, the component unchanged.
fn apply_prop(c: IRComponent, name: &String, value: &Vec<Token>) -> (r: Result<
    (IRComponent, bool),
    GenError,
>)
    ensures
        match r {
            Ok((c2, deferred)) => sp_apply_prop(c@, name@, tok_seq_view(value@)) == Some(
                (c2@, deferred),
            ) && (deferred ==> c2@ == c@),
            Err(_) => sp_apply_prop(c@, name@, tok_seq_view(value@)) is None,
        },
{
    let mut c = c;
    if name.eq(&String::from_str("width")) {
        match value_as_string(value) {
            Some(s) => {
                c.width = Some(s);
                Ok((c, false))
            },
            None => Ok((c, true)),
        }
    } else if name.eq(&String::from_str("height")) {
        match value_as_string(value) {
            Some(s) => {
                c.height = Some(s);
                Ok((c, false))
            },
            None => Ok((c, true)),
        }
    } else if name.eq(&String::from_str("background")) {
        match value_as_string(value) {
            Some(s) => {
                c.background = Some(s);
                Ok((c, false))
            },
            None => Ok((c, true)),
        }
    } else if name.eq(&String::from_str("color")) {
        match value_as_string(value) {
            Some(s) => {
                c.color = Some(s);
                Ok((c, false))
            },
            None => Ok((c, true)),
        }
    } else if name.eq(&String::from_str("placeholder")) {
        match value_as_string(value) {
            Some(s) => {
                c.placeholder = Some(s);
                Ok((c, false))
            },
            None => Ok((c, true)),
        }
    } else if name.eq(&String::from_str("padding")) {
        match value_as_int(value) {
            Some(n) => if 0 <= n && n <= 0xFFFF_FFFFi64 {
                c.padding = Some(n as u32);
                Ok((c, false))
            } else {
                Ok((c, true))
            },
            None => Ok((c, true)),
        }
    } else if name.eq(&String::from_str("margin")) {
        match value_as_int(value) {
            Some(n) => if 0 <= n && n <= 0xFFFF_FFFFi64 {
                c.margin = Some(n as u32);
                Ok((c, false))
            } else {
                Ok((c, true))
            },
            None => Ok((c, true)),
        }
    } else if name.eq(&String::from_str("gap")) {
        match value_as_int(value) {
            Some(n) => if 0 <= n && n <= 0xFFFF_FFFFi64 {
                c.gap = Some(n as u32);
                Ok((c, false))
            } else {
                Ok((c, true))
            },
            None => Ok((c, true)),
        }
    } else if name.eq(&String::from_str("opacity")) {
        match value_as_int(value) {
            Some(n) => if 0 <= n && n <= 0xFFFF_FFFFi64 {
                c.opacity = Some(n as u32);
                Ok((c, false))
            } else {
                Ok((c, true))
            },
            None => Ok((c, true)),
        }
    } else if name.eq(&String::from_str("font_size")) {
        match value_as_int(value) {
            Some(n) => if 0 <= n && n <= 0xFFFF_FFFFi64 {
                c.font_size = Some(n as u32);
                Ok((c, false))
            } else {
                Ok((c, true))
            },
            None => Ok((c, true)),
        }
    } else if name.eq(&String::from_str("flex_grow")) {
        match value_as_int(value) {
            Some(n) => if 0 <= n && n <= 255i64 {
                c.flex_grow = Some(n as u8);
                Ok((c, false))
            } else {
                Ok((c, true))
            },
            None => Ok((c, true)),
        }
    } else if name.eq(&String::from_str("flex_shrink")) {
        match value_as_int(value) {
            Some(n) => if 0 <= n && n <= 255i64 {
                c.flex_shrink = Some(n as u8);
                Ok((c, false))
            } else {
                Ok((c, true))
            },
            None => Ok((c, true)),
        }
    } else if name.eq(&String::from_str("justify_content")) {
        match value_as_string(value) {
            Some(s) => match parse_alignment(&s) {
                Some(a) => {
                    c.justify_content = Some(AlignmentValue::Constant(a));
                    Ok((c, false))
                },
                None => Ok((c, true)),
            },
            None => Ok((c, true)),
        }
    } else if name.eq(&String::from_str("align_items")) {
        match value_as_string(value) {
            Some(s) => match parse_alignment(&s) {
                Some(a) => {
                    c.align_items = Some(AlignmentValue::Constant(a));
                    Ok((c, false))
                },
                None => Ok((c, true)),
            },
            None => Ok((c, true)),
        }
    } else {
        Err(GenError::UnknownProperty(name.clone()))
    }
}

/// Generate one component from a block, taking identifiers from the
/// shared counter in a pre-order walk: the node itself first, then its
/// children in source order. Opaque property values and expression
/// children are recorded verbatim onto `deferred`, in generation
/// order, for the host to evaluate.
#[verifier::rlimit(100)]
fn gen_component(b: &ComponentBlock, counter: &mut u32, deferred: &mut Vec<DeferredSlot>) -> (r:
    Result<IRComponent, GenError>)
    ensures
        match r {
            Ok(c) => sp_gen_component(b@, *old(counter)) == Some(
                (c@, *final(counter), ds_seq_view(final(deferred)@).skip(
                    old(deferred)@.len() as int,
                )),
            ) && final(deferred)@.len() >= old(deferred)@.len() && final(deferred)@.subrange(
                0,
                old(deferred)@.len() as int,
            ) == old(deferred)@,
            Err(_) => sp_gen_component(b@, *old(counter)) is None,
        },
    decreases *b,
{
    let ct = match resolve_component_type(&b.component_type) {
        Some(ct) => ct,
        None => {
            return Err(GenError::UnresolvedComponent(b.component_type.clone()));
        },
    };
    if *counter == u32::MAX {
        return Err(GenError::TooManyComponents);
    }
    *counter = *counter + 1;
    let id = *counter;
    let ghost d0 = deferred@;
    let mut c = IRComponent::new(ct, id);
    let init = find_initial(&b.properties);
    let ghost mut init_part: Seq<DeferredSlotView> = Seq::empty();
    match ct {
        ComponentType::Text => {
            match init {
                Some(k) => match value_as_string(&b.properties[k].value) {
                    Some(s) => {
                        c.content = Some(s);
                    },
                    None => {
                        let slot = DeferredSlot::Property {
                            component_id: id,
                            name: String::from_str("content"),
                            value: crate::parser::copy_range(
                                &b.properties[k].value,
                                0,
                                b.properties[k].value.len(),
                            ),
                        };
                        proof {
                            assert(tok_seq_view(b.properties@[k as int].value@).subrange(
                                0,
                                b.properties@[k as int].value@.len() as int,
                            ) =~= tok_seq_view(b.properties@[k as int].value@));
                            assert(tok_seq_view(slot->Property_value@) =~= tok_seq_view(
                                b.properties@[k as int].value@,
                            ));
                        }
                        deferred.push(slot);
                        proof {
                            init_part = seq![slot@];
                        }
                    },
                },
                None => {
                    return Err(GenError::MissingInitialContent);
                },
            }
        },
        ComponentType::Button => {
            match init {
                Some(k) => match value_as_string(&b.properties[k].value) {
                    Some(s) => {
                        c.text = Some(s);
                    },
                    None => {
                        let slot = DeferredSlot::Property {
                            component_id: id,
                            name: String::from_str("text"),
                            value: crate::parser::copy_range(
                                &b.properties[k].value,
                                0,
                                b.properties[k].value.len(),
                            ),
                        };
                        proof {
                            assert(tok_seq_view(b.properties@[k as int].value@).subrange(
                                0,
                                b.properties@[k as int].value@.len() as int,
                            ) =~= tok_seq_view(b.properties@[k as int].value@));
                            assert(tok_seq_view(slot->Property_value@) =~= tok_seq_view(
                                b.properties@[k as int].value@,
                            ));
                        }
                        deferred.push(slot);
                        proof {
                            init_part = seq![slot@];
                        }
                    },
                },
                None => {
                    return Err(GenError::MissingInitialContent);
                },
            }
        },
        _ => {
            if init.is_some() {
                return Err(GenError::UnexpectedInitialContent);
            }
        },
    }
    proof {
        assert(sp_construct(ct, id, first_initial_value(b@.properties, 0)) matches Some((cv0, sl))
            && cv0 == c@ && (match sl {
            Some((fname, v)) => init_part == seq![
                DeferredSlotView::Property { component_id: id, name: fname, value: v },
            ],
            None => init_part == Seq::<DeferredSlotView>::empty(),
        }));
        assert(ds_seq_view(deferred@) =~= ds_seq_view(d0) + init_part);
    }
    let ghost c0v = c@;
    let ghost pv = b@.properties;
    let ghost mut pacc: Seq<(Seq<char>, Seq<TokenView>)> = Seq::empty();
    proof {
        assert(c@.children =~= Seq::<ComponentView>::empty());
        assert(prop_slots(id, pacc) =~= Seq::<DeferredSlotView>::empty());
        assert(ds_seq_view(deferred@) =~= ds_seq_view(d0) + init_part + prop_slots(id, pacc));
    }
    let mut i: usize = 0;
    while i < b.properties.len()
        invariant
            i <= b@.properties.len(),
            pv == b@.properties,
            pv == crate::parser::prop_seq_view(b.properties@),
            *old(counter) < u32::MAX,
            *counter == *old(counter) + 1,
            id == *counter,
            resolve_constructor(b@.component_type) == Some(ct),
            sp_construct(ct, id, first_initial_value(b@.properties, 0)) matches Some((cv0, sl))
                && cv0 == c0v,
            match sp_apply_props(c@, pv, i as int) {
                Option::None => sp_apply_props(c0v, pv, 0) is None,
                Option::Some((cf, rest)) => sp_apply_props(c0v, pv, 0) == Some(
                    (cf, pacc + rest),
                ),
            },
            c@.children == Seq::<ComponentView>::empty(),
            d0.len() <= deferred@.len(),
            deferred@.subrange(0, d0.len() as int) == d0,
            ds_seq_view(deferred@) == ds_seq_view(d0) + init_part + prop_slots(id, pacc),
        decreases b@.properties.len() - i,
    {
        proof {
            assert(pv[i as int] == b.properties@[i as int]@);
        }
        if !is_initial_property(&b.properties[i].name) {
            let stepped = match apply_prop(c, &b.properties[i].name, &b.properties[i].value) {
                Ok(p) => p,
                Err(e) => {
                    proof {
                        assert(sp_apply_props(c@, pv, i as int) is None);
                        assert(sp_gen_component(b@, *old(counter)) is None);
                    }
                    return Err(e);
                },
            };
            c = stepped.0;
            if stepped.1 {
                let slot = DeferredSlot::Property {
                    component_id: id,
                    name: b.properties[i].name.clone(),
                    value: crate::parser::copy_range(
                        &b.properties[i].value,
                        0,
                        b.properties[i].value.len(),
                    ),
                };
                let ghost pacc_pre = pacc;
                let ghost dv_pre = ds_seq_view(deferred@);
                proof {
                    assert(tok_seq_view(slot->Property_value@) =~= tok_seq_view(
                        b.properties@[i as int].value@,
                    )) by {
                        assert(tok_seq_view(b.properties@[i as int].value@).subrange(
                            0,
                            b.properties@[i as int].value@.len() as int,
                        ) =~= tok_seq_view(b.properties@[i as int].value@));
                    }
                    pacc = pacc + seq![(pv[i as int].name, pv[i as int].value)];
                }
                deferred.push(slot);
                proof {
                    assert(ds_seq_view(deferred@) =~= dv_pre.push(slot@));
                    assert(prop_slots(id, pacc) =~= prop_slots(id, pacc_pre).push(slot@));
                    assert(ds_seq_view(deferred@) =~= ds_seq_view(d0) + init_part + prop_slots(
                        id,
                        pacc,
                    ));
                    assert(deferred@.subrange(0, d0.len() as int) =~= d0);
                }
            }
        }
        i = i + 1;
    }
    let ghost c1v = c@;
    let ghost prop_defs_full = pacc;
    proof {
        assert(sp_apply_props(c0v, pv, 0) == Some((c1v, prop_defs_full)));
    }
    let ghost cv = b@.children;
    let ghost mut cacc: Seq<DeferredSlotView> = Seq::empty();
    proof {
        crate::parser::lemma_child_seq_view_len(b.children@);
        assert(c@.children + Seq::<ComponentView>::empty() =~= c@.children);
        assert(cacc + Seq::<DeferredSlotView>::empty() =~= cacc);
        assert(ds_seq_view(deferred@) + cacc =~= ds_seq_view(deferred@));
    }
    let ghost d1 = deferred@;
    let mut j: usize = 0;
    while j < b.children.len()
        invariant
            j <= b@.children.len(),
            cv == b@.children,
            cv == crate::parser::child_seq_view(b.children@),
            cv.len() == b.children@.len(),
            *old(counter) < u32::MAX,
            id == *old(counter) + 1,
            resolve_constructor(b@.component_type) == Some(ct),
            sp_construct(ct, id, first_initial_value(b@.properties, 0)) matches Some((cv0, sl))
                && cv0 == c0v && (match sl {
                Option::Some((fname, v)) => init_part == seq![
                    DeferredSlotView::Property { component_id: id, name: fname, value: v },
                ],
                Option::None => init_part == Seq::<DeferredSlotView>::empty(),
            }),
            sp_apply_props(c0v, b@.properties, 0) == Some((c1v, prop_defs_full)),
            c@ == (ComponentView { children: c@.children, ..c1v }),
            d1.len() >= d0.len(),
            d1.subrange(0, d0.len() as int) == d0,
            ds_seq_view(d1) == ds_seq_view(d0) + init_part + prop_slots(id, prop_defs_full),
            d1.len() <= deferred@.len(),
            deferred@.subrange(0, d1.len() as int) == d1,
            ds_seq_view(deferred@) == ds_seq_view(d1) + cacc,
            match sp_gen_children(cv, j as int, *counter, id) {
                Option::None => sp_gen_children(cv, 0, id, id) is None,
                Option::Some((rest, ctrf, restd)) => sp_gen_children(cv, 0, id, id) == Some(
                    (c@.children + rest, ctrf, cacc + restd),
                ),
            },
        decreases b@.children.len() - j,
    {
        proof {
            crate::parser::lemma_child_seq_view_index(b.children@, j as int);
        }
        match &b.children[j] {
            crate::parser::Child::Expr(e) => {
                let slot = DeferredSlot::Child {
                    parent_id: id,
                    index: j,
                    expr: crate::parser::copy_range(e, 0, e.len()),
                };
                let ghost dv_pre = ds_seq_view(deferred@);
                proof {
                    assert(tok_seq_view(slot->Child_expr@) =~= tok_seq_view(e@)) by {
                        assert(tok_seq_view(e@).subrange(0, e@.len() as int) =~= tok_seq_view(
                            e@,
                        ));
                    }
                }
                deferred.push(slot);
                proof {
                    assert(ds_seq_view(deferred@) =~= dv_pre.push(slot@));
                    let step = sp_gen_children(cv, j as int, *counter, id);
                    if sp_gen_children(cv, j as int + 1, *counter, id) is Some {
                        let (rest2, ctrf, restd2) = sp_gen_children(
                            cv,
                            j as int + 1,
                            *counter,
                            id,
                        )->0;
                        assert(step == Some((rest2, ctrf, seq![slot@] + restd2)));
                        assert(cacc + (seq![slot@] + restd2) =~= cacc.push(slot@) + restd2);
                    }
                    cacc = cacc.push(slot@);
                    assert(ds_seq_view(deferred@) =~= ds_seq_view(d1) + cacc);
                    assert(deferred@.subrange(0, d1.len() as int) =~= d1);
                }
            },
            crate::parser::Child::Component(cb) => {
                let ghost ctr_before = *counter;
                let ghost dlen_before = deferred@.len();
                let ghost dv_pre = ds_seq_view(deferred@);
                let child = match gen_component(cb, counter, deferred) {
                    Ok(k) => k,
                    Err(e) => {
                        proof {
                            assert(sp_gen_children(cv, j as int, ctr_before, id) is None);
                            assert(sp_gen_component(b@, *old(counter)) is None);
                        }
                        return Err(e);
                    },
                };
                let ghost child_defs = ds_seq_view(deferred@).skip(dlen_before as int);
                let ghost c_pre = c@;
                c.add_child(child);
                proof {
                    assert(c@.children =~= c_pre.children.push(child@));
                    assert(ds_seq_view(deferred@) =~= dv_pre + child_defs) by {
                        assert(forall|k: int|
                            0 <= k < dlen_before ==> #[trigger] deferred@[k] == d1.subrange(
                                0,
                                d1.len() as int,
                            )[k] || true);
                        assert(deferred@.subrange(0, dlen_before as int) =~= deferred@.subrange(
                            0,
                            dlen_before as int,
                        ));
                        assert forall|k: int| 0 <= k < ds_seq_view(deferred@).len() implies
                            ds_seq_view(deferred@)[k] == (dv_pre + child_defs)[k] by {
                            if k < dlen_before {
                                assert(deferred@.subrange(0, dlen_before as int)[k]
                                    == deferred@[k]);
                            } else {
                                assert(ds_seq_view(deferred@).skip(dlen_before as int)[k
                                    - dlen_before] == ds_seq_view(deferred@)[k]);
                            }
                        }
                    }
                    let step = sp_gen_children(cv, j as int, ctr_before, id);
                    if sp_gen_children(cv, j as int + 1, *counter, id) is Some {
                        let (rest2, ctrf, restd2) = sp_gen_children(
                            cv,
                            j as int + 1,
                            *counter,
                            id,
                        )->0;
                        assert(step == Some(
                            (seq![child@] + rest2, ctrf, child_defs + restd2),
                        ));
                        assert(c_pre.children + (seq![child@] + rest2) =~= c@.children + rest2);
                        assert(cacc + (child_defs + restd2) =~= (cacc + child_defs) + restd2);
                    }
                    cacc = cacc + child_defs;
                    assert(ds_seq_view(deferred@) =~= ds_seq_view(d1) + cacc);
                    assert(deferred@.subrange(0, d1.len() as int) =~= d1);
                    assert(deferred@.subrange(0, d0.len() as int) =~= d0);
                }
            },
        }
        j = j + 1;
    }
    proof {
        assert(sp_gen_children(cv, cv.len() as int, *counter, id) == Some(
            (Seq::<ComponentView>::empty(), *counter, Seq::<DeferredSlotView>::empty()),
        ));
        assert(c@.children + Seq::<ComponentView>::empty() =~= c@.children);
        assert(cacc + Seq::<DeferredSlotView>::empty() =~= cacc);
        assert(sp_gen_children(cv, 0, id, id) == Some((c@.children, *counter, cacc)));
        assert(c@ == (ComponentView { children: c@.children, ..c1v }));
        assert(sp_gen_component(b@, *old(counter)) == Some(
            (c@, *counter, init_part + prop_slots(id, prop_defs_full) + cacc),
        ));
        assert(ds_seq_view(deferred@).skip(d0.len() as int) =~= init_part + prop_slots(
            id,
            prop_defs_full,
        ) + cacc) by {
            assert(ds_seq_view(deferred@) == ds_seq_view(d1) + cacc);
            assert(ds_seq_view(d1) == ds_seq_view(d0) + init_part + prop_slots(
                id,
                prop_defs_full,
            ));
        }
        assert(deferred@.subrange(0, d0.len() as int) =~= d0);
    }
    Ok(c)
}

/// What one generation run produces: the document, and the deferred
/// slots the host must evaluate and attach to complete construction.
#[derive(Debug)]
pub struct Generated {
    /// The document built from the literal parts of the input.
    pub document: IRDocument,
    /// The opaque expressions, verbatim, each with its place, in
    /// generation order.
    pub deferred: Vec<DeferredSlot>,
}

/// Generate the construction of one top-level block: the component
/// tree with identifiers assigned by a single counter started at zero
/// (the root receives identifier one), wrapped into a fresh document,
/// beside the deferred slots whose opaque expressions the host
/// evaluates and attaches at construction time.
pub fn generate_code(block: ComponentBlock) -> (r: Result<Generated, GenError>)
    ensures
        match r {
            Ok(g) => sp_generate(block@) == Some((g.document@.root, ds_seq_view(g.deferred@)))
                && g.document@.format_version == crate::ir::format_version_spec()
                && g.document@.component_definitions.len() == 0
                && g.document@.logic.functions.len() == 0
                && g.document@.logic.event_bindings.len() == 0
                && g.document@.reactive_manifest.variables.len() == 0,
            Err(_) => sp_generate(block@) is None,
        },
{
    let mut counter: u32 = 0;
    let mut deferred: Vec<DeferredSlot> = Vec::new();
    let root = match gen_component(&block, &mut counter, &mut deferred) {
        Ok(c) => c,
        Err(e) => {
            return Err(e);
        },
    };
    proof {
        assert(ds_seq_view(deferred@).skip(0) =~= ds_seq_view(deferred@));
    }
    Ok(Generated { document: IRDocument::new(root), deferred })
}

/// The identifiers of a component tree in pre-order: the node itself
/// first, then its children's trees left to right.
pub open spec fn preorder_ids(c: ComponentView) -> Seq<u32>
    decreases c,
{
    seq![c.id] + preorder_ids_seq(c.children)
}

/// The pre-order identifiers of a forest, left to right.
pub open spec fn preorder_ids_seq(s: Seq<ComponentView>) -> Seq<u32>
    decreases s,
{
    if s.len() == 0 {
        Seq::empty()
    } else {
        preorder_ids(s[0]) + preorder_ids_seq(s.drop_first())
    }
}

/// The component types of a tree in pre-order.
pub open spec fn preorder_types(c: ComponentView) -> Seq<ComponentType>
    decreases c,
{
    seq![c.component_type] + preorder_types_seq(c.children)
}

/// The pre-order component types of a forest.
pub open spec fn preorder_types_seq(s: Seq<ComponentView>) -> Seq<ComponentType>
    decreases s,
{
    if s.len() == 0 {
        Seq::empty()
    } else {
        preorder_types(s[0]) + preorder_types_seq(s.drop_first())
    }
}

/// The block-type names of a block tree in pre-order.
pub open spec fn preorder_names(b: BlockView) -> Seq<Seq<char>>
    decreases b,
{
    seq![b.component_type] + preorder_names_seq(b.children)
}

/// The pre-order block-type names of the block children of a forest of
/// child entries.
pub open spec fn preorder_names_seq(s: Seq<ChildView>) -> Seq<Seq<char>>
    decreases s,
{
    if s.len() == 0 {
        Seq::empty()
    } else {
        (match s[0] {
            ChildView::Component(b) => preorder_names(b),
            ChildView::Expr(_) => Seq::empty(),
        }) + preorder_names_seq(s.drop_first())
    }
}

/// The dense identifier sequence `lo + 1, lo + 2, ..., hi`.
pub open spec fn ids_between(lo: int, hi: int) -> Seq<u32> {
    Seq::new((hi - lo) as nat, |k: int| (lo + 1 + k) as u32)
}

/// Applying property setters changes no identifier, type or child.
proof fn lemma_apply_props_preserves(c: ComponentView, props: Seq<PropertyView>, i: int)
    requires
        sp_apply_props(c, props, i) is Some,
    ensures
        (sp_apply_props(c, props, i)->0).0.id == c.id,
        (sp_apply_props(c, props, i)->0).0.component_type == c.component_type,
        (sp_apply_props(c, props, i)->0).0.children == c.children,
    decreases props.len() - i,
{
    if i < 0 || i >= props.len() {
    } else if is_initial_name(props[i].name) {
        lemma_apply_props_preserves(c, props, i + 1);
    } else {
        let (c1, deferred) = sp_apply_prop(c, props[i].name, props[i].value)->0;
        lemma_apply_props_preserves(c1, props, i + 1);
    }
}

/// Identifier assignment is a single pre-order walk of one shared
/// counter: the identifiers of a generated tree are exactly the dense
/// range that the counter passed through, in pre-order, with no reuse
/// and no gap. The types of the generated nodes are the resolved
/// block-type names, matched one to one in the same pre-order.
pub proof fn lemma_id_assignment(b: BlockView, ctr: u32)
    requires
        sp_gen_component(b, ctr) is Some,
    ensures
        ctr < (sp_gen_component(b, ctr)->0).1,
        preorder_ids((sp_gen_component(b, ctr)->0).0) == ids_between(
            ctr as int,
            (sp_gen_component(b, ctr)->0).1 as int,
        ),
        preorder_names(b).len() == preorder_types((sp_gen_component(b, ctr)->0).0).len(),
        forall|k: int|
            0 <= k < preorder_names(b).len() ==> resolve_constructor(preorder_names(b)[k])
                == Some(#[trigger] preorder_types((sp_gen_component(b, ctr)->0).0)[k]),
    decreases b, 0int,
{
    let id = (ctr + 1) as u32;
    let ct = resolve_constructor(b.component_type)->0;
    let c0 = (sp_construct(ct, id, first_initial_value(b.properties, 0))->0).0;
    let c1 = (sp_apply_props(c0, b.properties, 0)->0).0;
    let (kids, ctr2, kdefs) = sp_gen_children(b.children, 0, id, id)->0;
    let c = (sp_gen_component(b, ctr)->0).0;
    lemma_apply_props_preserves(c0, b.properties, 0);
    assert(c.id == id && c.component_type == ct && c.children == kids);
    lemma_id_assignment_children(b.children, 0, id, id);
    assert(b.children.skip(0) =~= b.children);
    assert(preorder_ids(c) =~= ids_between(ctr as int, ctr2 as int));
    assert(preorder_names(b) == seq![b.component_type] + preorder_names_seq(b.children));
    assert(preorder_types(c) == seq![ct] + preorder_types_seq(kids));
    assert(preorder_names_seq(b.children).len() == preorder_types_seq(kids).len());
    assert forall|k: int| 0 <= k < preorder_names(b).len() implies resolve_constructor(
        preorder_names(b)[k],
    ) == Some(#[trigger] preorder_types(c)[k]) by {
        if k > 0 {
            assert(preorder_names(b)[k] == preorder_names_seq(b.children)[k - 1]);
            assert(preorder_types(c)[k] == preorder_types_seq(kids)[k - 1]);
        }
    }
}

/// The forest version of `lemma_id_assignment`, from child `i` on.
/// Expression children add no generated node and no identifier.
pub proof fn lemma_id_assignment_children(childs: Seq<ChildView>, i: int, ctr: u32, parent: u32)
    requires
        0 <= i <= childs.len(),
        sp_gen_children(childs, i, ctr, parent) is Some,
    ensures
        ctr <= (sp_gen_children(childs, i, ctr, parent)->0).1,
        preorder_ids_seq((sp_gen_children(childs, i, ctr, parent)->0).0) == ids_between(
            ctr as int,
            (sp_gen_children(childs, i, ctr, parent)->0).1 as int,
        ),
        preorder_names_seq(childs.skip(i)).len() == preorder_types_seq(
            (sp_gen_children(childs, i, ctr, parent)->0).0,
        ).len(),
        forall|k: int|
            0 <= k < preorder_names_seq(childs.skip(i)).len() ==> resolve_constructor(
                preorder_names_seq(childs.skip(i))[k],
            ) == Some(
                #[trigger] preorder_types_seq((sp_gen_children(childs, i, ctr, parent)->0).0)[k],
            ),
    decreases childs, childs.len() - i + 1,
{
    if i >= childs.len() {
        assert(childs.skip(i) =~= Seq::<ChildView>::empty());
        assert(preorder_ids_seq(Seq::<ComponentView>::empty()) =~= ids_between(
            ctr as int,
            ctr as int,
        ));
    } else {
        match childs[i] {
            ChildView::Expr(e) => {
                lemma_id_assignment_children(childs, i + 1, ctr, parent);
                let (rest, ctr3, defs) = sp_gen_children(childs, i + 1, ctr, parent)->0;
                let kids = (sp_gen_children(childs, i, ctr, parent)->0).0;
                assert(kids == rest);
                assert(childs.skip(i)[0] == childs[i]);
                assert(childs.skip(i).drop_first() =~= childs.skip(i + 1));
                assert(preorder_names_seq(childs.skip(i)) == Seq::<Seq<char>>::empty()
                    + preorder_names_seq(childs.skip(i + 1)));
                assert(preorder_names_seq(childs.skip(i)) =~= preorder_names_seq(
                    childs.skip(i + 1),
                ));
            },
            ChildView::Component(b) => {
                let (c, ctrm, cdefs) = sp_gen_component(b, ctr)->0;
                let (rest, ctr2, rdefs) = sp_gen_children(childs, i + 1, ctrm, parent)->0;
                lemma_id_assignment(b, ctr);
                lemma_id_assignment_children(childs, i + 1, ctrm, parent);
                let kids = (sp_gen_children(childs, i, ctr, parent)->0).0;
                assert(kids == seq![c] + rest);
                assert(kids[0] == c);
                assert(kids.drop_first() =~= rest);
                assert(preorder_ids_seq(kids) == preorder_ids(c) + preorder_ids_seq(rest));
                assert(preorder_ids_seq(kids) =~= ids_between(ctr as int, ctr2 as int));
                assert(childs.skip(i)[0] == childs[i]);
                assert(childs.skip(i).drop_first() =~= childs.skip(i + 1));
                assert(preorder_names_seq(childs.skip(i)) == preorder_names(b)
                    + preorder_names_seq(childs.skip(i + 1)));
                assert(preorder_types_seq(kids) == preorder_types(c) + preorder_types_seq(rest));
                assert forall|k: int| 0 <= k < preorder_names_seq(childs.skip(i)).len()
                    implies resolve_constructor(preorder_names_seq(childs.skip(i))[k]) == Some(
                    #[trigger] preorder_types_seq(kids)[k],
                ) by {
                    let nb = preorder_names(b).len() as int;
                    if k < nb {
                        assert(preorder_names_seq(childs.skip(i))[k] == preorder_names(b)[k]);
                        assert(preorder_types_seq(kids)[k] == preorder_types(c)[k]);
                    } else {
                        assert(preorder_names_seq(childs.skip(i))[k] == preorder_names_seq(
                            childs.skip(i + 1),
                        )[k - nb]);
                        assert(preorder_types_seq(kids)[k] == preorder_types_seq(rest)[k - nb]);
                    }
                }
            },
        }
    }
}

/// For every input block tree that generates successfully, the node
/// count of the generated tree equals the number of blocks in the
/// input, and the type of each node is its block's type name after
/// name resolution, matched one to one in pre-order.
pub proof fn lemma_generation_counts(b: BlockView)
    requires
        sp_generate(b) is Some,
    ensures
        preorder_types((sp_generate(b)->0).0).len() == preorder_names(b).len(),
        preorder_ids((sp_generate(b)->0).0).len() == preorder_names(b).len(),
        forall|k: int|
            0 <= k < preorder_names(b).len() ==> resolve_constructor(preorder_names(b)[k])
                == Some(#[trigger] preorder_types((sp_generate(b)->0).0)[k]),
{
    lemma_id_assignment(b, 0);
    lemma_preorder_lens((sp_generate(b)->0).0);
}

/// A tree has as many identifiers as types in pre-order.
pub proof fn lemma_preorder_lens(c: ComponentView)
    ensures
        preorder_ids(c).len() == preorder_types(c).len(),
    decreases c,
{
    lemma_preorder_lens_seq(c.children);
}

/// The forest version of `lemma_preorder_lens`.
pub proof fn lemma_preorder_lens_seq(s: Seq<ComponentView>)
    ensures
        preorder_ids_seq(s).len() == preorder_types_seq(s).len(),
    decreases s,
{
    if s.len() > 0 {
        lemma_preorder_lens(s[0]);
        lemma_preorder_lens_seq(s.drop_first());
    }
}

} // verus!
