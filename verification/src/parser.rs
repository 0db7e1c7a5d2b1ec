//! Parser for the declarative block syntax.
//!
//! The input is a stream of tokens holding one top-level block:
//! `Identifier '{' (Entry (',')?)* '}'` where an entry is either a
//! property assignment `Identifier ':' Expression`, a nested block, or
//! a bare expression child. Host-language expressions are not
//! interpreted: an expression is captured verbatim as its token run,
//! ending at a comma or at the block's closing brace at nesting depth
//! zero.
//!
//! The grammar itself is written down as the spec functions `sp_block`,
//! `sp_entries` and `sp_expr_end`; the executable parser returns
//! exactly what they describe, with a token position attached to every
//! error.

use vstd::prelude::*;

verus! {

/// One input token.
#[derive(Debug)]
pub enum Token {
    /// An identifier such as a block-type or property name.
    Ident(String),
    /// A string literal, stored without its quotes.
    StrLit(String),
    /// An integer literal.
    IntLit(i64),
    /// Any punctuation character: braces, colon, comma, and whatever
    /// else a host expression may contain.
    Punct(char),
}

/// Ghost view of a token.
pub enum TokenView {
    Ident(Seq<char>),
    StrLit(Seq<char>),
    IntLit(i64),
    Punct(char),
}

impl View for Token {
    type V = TokenView;

    open spec fn view(&self) -> TokenView {
        match self {
            Token::Ident(s) => TokenView::Ident(s@),
            Token::StrLit(s) => TokenView::StrLit(s@),
            Token::IntLit(n) => TokenView::IntLit(*n),
            Token::Punct(c) => TokenView::Punct(*c),
        }
    }
}

/// Pointwise view of a token sequence.
pub open spec fn tok_seq_view(s: Seq<Token>) -> Seq<TokenView> {
    Seq::new(s.len(), |i: int| s[i]@)
}

/// A parsed block: a component-type name, the properties and the
/// children, in source order.
#[derive(Debug)]
pub struct ComponentBlock {
    pub component_type: String,
    pub properties: Vec<Property>,
    pub children: Vec<Child>,
}

/// A property assignment: a name and the verbatim value expression.
#[derive(Debug)]
pub struct Property {
    pub name: String,
    pub value: Vec<Token>,
}

/// A child entry: a nested block or an opaque expression.
#[derive(Debug)]
pub enum Child {
    Component(ComponentBlock),
    Expr(Vec<Token>),
}

/// Ghost view of a block.
pub struct BlockView {
    pub component_type: Seq<char>,
    pub properties: Seq<PropertyView>,
    pub children: Seq<ChildView>,
}

/// Ghost view of a property.
pub struct PropertyView {
    pub name: Seq<char>,
    pub value: Seq<TokenView>,
}

/// Ghost view of a child entry.
pub enum ChildView {
    Component(BlockView),
    Expr(Seq<TokenView>),
}

impl View for Property {
    type V = PropertyView;

    open spec fn view(&self) -> PropertyView {
        PropertyView { name: self.name@, value: tok_seq_view(self.value@) }
    }
}

/// Recursive view of a block.
pub open spec fn block_view(b: ComponentBlock) -> BlockView
    decreases b,
{
    BlockView {
        component_type: b.component_type@,
        properties: Seq::new(b.properties@.len(), |i: int| b.properties@[i]@),
        children: child_seq_view(b.children@),
    }
}

/// Recursive view of a sequence of children.
pub open spec fn child_seq_view(s: Seq<Child>) -> Seq<ChildView>
    decreases s,
{
    if s.len() == 0 {
        Seq::empty()
    } else {
        seq![child_view(s[0])] + child_seq_view(s.drop_first())
    }
}

/// Recursive view of a child entry.
pub open spec fn child_view(c: Child) -> ChildView
    decreases c,
{
    match c {
        Child::Component(b) => ChildView::Component(block_view(b)),
        Child::Expr(v) => ChildView::Expr(tok_seq_view(v@)),
    }
}

impl View for ComponentBlock {
    type V = BlockView;

    open spec fn view(&self) -> BlockView {
        block_view(*self)
    }
}

impl View for Child {
    type V = ChildView;

    open spec fn view(&self) -> ChildView {
        child_view(*self)
    }
}

/// `child_seq_view` maps the sequence pointwise.
pub proof fn lemma_child_seq_view_index(s: Seq<Child>, i: int)
    requires
        0 <= i < s.len(),
    ensures
        child_seq_view(s).len() == s.len(),
        child_seq_view(s)[i] == child_view(s[i]),
    decreases s.len(),
{
    lemma_child_seq_view_len(s);
    if i > 0 {
        lemma_child_seq_view_index(s.drop_first(), i - 1);
    }
}

/// `child_seq_view` keeps the length.
pub proof fn lemma_child_seq_view_len(s: Seq<Child>)
    ensures
        child_seq_view(s).len() == s.len(),
    decreases s.len(),
{
    if s.len() > 0 {
        lemma_child_seq_view_len(s.drop_first());
    }
}

/// Pushing a child onto a sequence pushes its view.
pub proof fn lemma_child_seq_view_push(s: Seq<Child>, c: Child)
    ensures
        child_seq_view(s.push(c)) == child_seq_view(s).push(child_view(c)),
{
    lemma_child_seq_view_len(s);
    lemma_child_seq_view_len(s.push(c));
    assert forall|i: int| 0 <= i < s.len() + 1 implies child_seq_view(s.push(c))[i]
        == child_seq_view(s).push(child_view(c))[i] by {
        lemma_child_seq_view_index(s.push(c), i);
        if i < s.len() {
            lemma_child_seq_view_index(s, i);
            assert(s.push(c)[i] == s[i]);
        } else {
            assert(s.push(c)[i] == c);
        }
    }
    assert(child_seq_view(s.push(c)) =~= child_seq_view(s).push(child_view(c)));
}

/// Does this token view equal the given punctuation character?
pub open spec fn is_punct(t: TokenView, c: char) -> bool {
    t == TokenView::Punct(c)
}

/// End position of an opaque expression starting at `i`: tokens are
/// consumed until a comma at bracket depth zero or the enclosing
/// block's closing brace; brace, parenthesis and bracket pairs inside
/// the expression are skipped as a whole. `None` when the input ends
/// before the expression does.
pub open spec fn sp_expr_end(t: Seq<TokenView>, i: int, db: int, dp: int, dk: int) -> Option<int>
    decreases t.len() - i,
{
    if i >= t.len() {
        None
    } else if is_punct(t[i], '}') {
        if db == 0 {
            Some(i)
        } else {
            sp_expr_end(t, i + 1, db - 1, dp, dk)
        }
    } else if is_punct(t[i], ',') && db == 0 && dp == 0 && dk == 0 {
        Some(i)
    } else if is_punct(t[i], '{') {
        sp_expr_end(t, i + 1, db + 1, dp, dk)
    } else if is_punct(t[i], '(') {
        sp_expr_end(t, i + 1, db, dp + 1, dk)
    } else if is_punct(t[i], ')') {
        sp_expr_end(t, i + 1, db, if dp > 0 { dp - 1 } else { 0int }, dk)
    } else if is_punct(t[i], '[') {
        sp_expr_end(t, i + 1, db, dp, dk + 1)
    } else if is_punct(t[i], ']') {
        sp_expr_end(t, i + 1, db, dp, if dk > 0 { dk - 1 } else { 0int })
    } else {
        sp_expr_end(t, i + 1, db, dp, dk)
    }
}

/// One optional comma after an entry.
pub open spec fn sp_skip_comma(t: Seq<TokenView>, i: int) -> int {
    if i < t.len() && is_punct(t[i], ',') {
        i + 1
    } else {
        i
    }
}

/// One bare-expression child entry at `i`, followed by the rest of the
/// entries.
pub open spec fn sp_entry_expr(t: Seq<TokenView>, i: int) -> Option<
    (Seq<PropertyView>, Seq<ChildView>, int),
>
    decreases t.len() - i, 0int,
{
    match sp_expr_end(t, i, 0, 0, 0) {
        None => None,
        Some(j) => if j == i {
            None
        } else {
            let child = ChildView::Expr(t.subrange(i, j));
            let j1 = sp_skip_comma(t, j);
            if j1 <= i || j1 > t.len() {
                None
            } else {
                match sp_entries(t, j1) {
                    None => None,
                    Some((props, childs, k)) => Some((props, seq![child] + childs, k)),
                }
            }
        },
    }
}

/// Parse the entries of a block body until its closing brace, which is
/// not consumed. Returns the properties, the children and the position
/// of the closing brace. An entry is a property when an identifier is
/// directly followed by a colon, a nested block when an identifier is
/// directly followed by an opening brace, and a bare expression
/// otherwise.
pub open spec fn sp_entries(t: Seq<TokenView>, i: int) -> Option<
    (Seq<PropertyView>, Seq<ChildView>, int),
>
    decreases t.len() - i, 1int,
{
    if i >= t.len() {
        None
    } else if is_punct(t[i], '}') {
        Some((Seq::empty(), Seq::empty(), i))
    } else {
        match t[i] {
            TokenView::Ident(name) => {
                if i + 1 < t.len() && is_punct(t[i + 1], ':') {
                    match sp_expr_end(t, i + 2, 0, 0, 0) {
                        None => None,
                        Some(j) => if j == i + 2 {
                            None
                        } else {
                            let prop = PropertyView { name, value: t.subrange(i + 2, j) };
                            let j1 = sp_skip_comma(t, j);
                            if j1 <= i || j1 > t.len() {
                                None
                            } else {
                                match sp_entries(t, j1) {
                                    None => None,
                                    Some((props, childs, k)) => Some(
                                        (seq![prop] + props, childs, k),
                                    ),
                                }
                            }
                        },
                    }
                } else if i + 1 < t.len() && is_punct(t[i + 1], '{') {
                    match sp_block(t, i) {
                        None => None,
                        Some((b, j)) => {
                            let j1 = sp_skip_comma(t, j);
                            if j1 <= i || j1 > t.len() {
                                None
                            } else {
                                match sp_entries(t, j1) {
                                    None => None,
                                    Some((props, childs, k)) => Some(
                                        (props, seq![ChildView::Component(b)] + childs, k),
                                    ),
                                }
                            }
                        },
                    }
                } else {
                    sp_entry_expr(t, i)
                }
            },
            _ => sp_entry_expr(t, i),
        }
    }
}

/// Parse one block at position `i`: an identifier, an opening brace,
/// the entries, and the closing brace. Returns the block and the
/// position after the closing brace.
pub open spec fn sp_block(t: Seq<TokenView>, i: int) -> Option<(BlockView, int)>
    decreases t.len() - i, 0int,
{
    if i < t.len() {
        match t[i] {
            TokenView::Ident(name) => {
                if i + 1 < t.len() && is_punct(t[i + 1], '{') {
                    match sp_entries(t, i + 2) {
                        None => None,
                        Some((props, childs, j)) => if j < t.len() && is_punct(t[j], '}') {
                            Some(
                                (
                                    BlockView {
                                        component_type: name,
                                        properties: props,
                                        children: childs,
                                    },
                                    j + 1,
                                ),
                            )
                        } else {
                            None
                        },
                    }
                } else {
                    None
                }
            },
            _ => None,
        }
    } else {
        None
    }
}

/// Parse one whole top-level block: trailing tokens after it are an
/// error.
pub open spec fn sp_component(t: Seq<TokenView>) -> Option<BlockView> {
    match sp_block(t, 0) {
        None => None,
        Some((b, j)) => if j == t.len() {
            Some(b)
        } else {
            None
        },
    }
}

/// A parse failure, pointing at the offending token position.
#[derive(Debug, Clone, PartialEq, Eq, Structural)]
pub struct ParseError {
    /// Index of the token at which parsing failed.
    pub pos: usize,
    /// What was expected or found there.
    pub kind: ParseErrorKind,
}

/// The ways in which parsing can fail.
#[derive(Debug, Clone, Copy, PartialEq, Eq, Structural)]
pub enum ParseErrorKind {
    /// A block-type identifier was expected.
    ExpectedIdent,
    /// A brace-delimited body was expected.
    ExpectedBrace,
    /// An entry's expression is empty.
    ExpectedExpr,
    /// The input ended inside a block body.
    UnexpectedEnd,
    /// The parser made no progress over an entry.
    Stalled,
    /// Tokens follow the top-level block.
    TrailingTokens,
}

impl Clone for Token {
    /// Clones a token exactly.
    fn clone(&self) -> (r: Self)
        ensures
            r == *self,
    {
        match self {
            Token::Ident(s) => Token::Ident(s.clone()),
            Token::StrLit(s) => Token::StrLit(s.clone()),
            Token::IntLit(n) => Token::IntLit(*n),
            Token::Punct(c) => Token::Punct(*c),
        }
    }
}

/// Pointwise view of a property vector.
pub open spec fn prop_seq_view(s: Seq<Property>) -> Seq<PropertyView> {
    Seq::new(s.len(), |i: int| s[i]@)
}

/// Copies the token range `[a, b)` out of a stream.
pub(crate) fn copy_range(t: &Vec<Token>, a: usize, b: usize) -> (r: Vec<Token>)
    requires
        a <= b <= t@.len(),
    ensures
        r@ == t@.subrange(a as int, b as int),
{
    let mut r: Vec<Token> = Vec::new();
    let mut i: usize = a;
    while i < b
        invariant
            a <= i <= b <= t@.len(),
            r@ == t@.subrange(a as int, i as int),
        decreases b - i,
    {
        r.push(t[i].clone());
        i = i + 1;
        proof {
            assert(r@ =~= t@.subrange(a as int, i as int));
        }
    }
    r
}

/// Finds the end of an opaque expression beginning at `start`,
/// following `sp_expr_end` exactly.
fn expr_end(t: &Vec<Token>, start: usize) -> (r: Option<usize>)
    requires
        start <= t@.len(),
    ensures
        match r {
            Some(j) => sp_expr_end(tok_seq_view(t@), start as int, 0, 0, 0) == Some(j as int)
                && start <= j < t@.len(),
            None => sp_expr_end(tok_seq_view(t@), start as int, 0, 0, 0) is None,
        },
{
    let ghost tv = tok_seq_view(t@);
    let n = t.len();
    let mut i: usize = start;
    let mut db: usize = 0;
    let mut dp: usize = 0;
    let mut dk: usize = 0;
    while i < n
        invariant
            start <= i <= n,
            n == t@.len(),
            tv == tok_seq_view(t@),
            db <= i,
            dp <= i,
            dk <= i,
            sp_expr_end(tv, start as int, 0, 0, 0) == sp_expr_end(
                tv,
                i as int,
                db as int,
                dp as int,
                dk as int,
            ),
        decreases n - i,
    {
        proof {
            assert(tv[i as int] == t@[i as int]@);
        }
        match &t[i] {
            Token::Punct(c) => {
                if *c == '}' {
                    if db == 0 {
                        return Some(i);
                    } else {
                        db = db - 1;
                    }
                } else if *c == ',' && db == 0 && dp == 0 && dk == 0 {
                    return Some(i);
                } else if *c == '{' {
                    db = db + 1;
                } else if *c == '(' {
                    dp = dp + 1;
                } else if *c == ')' {
                    if dp > 0 {
                        dp = dp - 1;
                    }
                } else if *c == '[' {
                    dk = dk + 1;
                } else if *c == ']' {
                    if dk > 0 {
                        dk = dk - 1;
                    }
                }
            },
            _ => {},
        }
        i = i + 1;
    }
    None
}

/// Consumes one optional comma.
fn skip_comma(t: &Vec<Token>, i: usize) -> (r: usize)
    requires
        i <= t@.len(),
    ensures
        r == sp_skip_comma(tok_seq_view(t@), i as int),
        i <= r <= t@.len(),
{
    proof {
        if (i as int) < t@.len() {
            assert(tok_seq_view(t@)[i as int] == t@[i as int]@);
        }
    }
    if i < t.len() {
        match &t[i] {
            Token::Punct(c) => if *c == ',' {
                i + 1
            } else {
                i
            },
            _ => i,
        }
    } else {
        i
    }
}

/// Parses the body entries of a block until its closing brace,
/// following `sp_entries` exactly.
fn parse_entries(t: &Vec<Token>, start: usize) -> (r: Result<
    (Vec<Property>, Vec<Child>, usize),
    ParseError,
>)
    requires
        start <= t@.len(),
    ensures
        match r {
            Ok((props, childs, j)) => sp_entries(tok_seq_view(t@), start as int) == Some(
                (prop_seq_view(props@), child_seq_view(childs@), j as int),
            ) && start <= j < t@.len() && is_punct(tok_seq_view(t@)[j as int], '}'),
            Err(e) => sp_entries(tok_seq_view(t@), start as int) is None && e.pos <= t@.len(),
        },
    decreases t@.len() - start, 1int,
{
    let ghost tv = tok_seq_view(t@);
    let n = t.len();
    let mut props: Vec<Property> = Vec::new();
    let mut childs: Vec<Child> = Vec::new();
    let mut cur: usize = start;
    loop
        invariant
            start <= cur <= n,
            n == t@.len(),
            tv == tok_seq_view(t@),
            match sp_entries(tv, cur as int) {
                Option::None => sp_entries(tv, start as int) is None,
                Option::Some((p2, c2, k)) => sp_entries(tv, start as int) == Some(
                    (prop_seq_view(props@) + p2, child_seq_view(childs@) + c2, k),
                ),
            },
        decreases n - cur,
    {
        if cur >= n {
            return Err(ParseError { pos: cur, kind: ParseErrorKind::UnexpectedEnd });
        }
        proof {
            assert(tv[cur as int] == t@[cur as int]@);
        }
        let is_close = match &t[cur] {
            Token::Punct(c) => *c == '}',
            _ => false,
        };
        if is_close {
            proof {
                assert(prop_seq_view(props@) + Seq::<PropertyView>::empty() =~= prop_seq_view(
                    props@,
                ));
                assert(child_seq_view(childs@) + Seq::<ChildView>::empty() =~= child_seq_view(
                    childs@,
                ));
            }
            return Ok((props, childs, cur));
        }
        let mut is_prop = false;
        let mut is_block = false;
        match &t[cur] {
            Token::Ident(_) => {
                if cur + 1 < n {
                    proof {
                        assert(tv[cur as int + 1] == t@[cur as int + 1]@);
                    }
                    match &t[cur + 1] {
                        Token::Punct(c) => {
                            if *c == ':' {
                                is_prop = true;
                            } else if *c == '{' {
                                is_block = true;
                            }
                        },
                        _ => {},
                    }
                }
            },
            _ => {},
        }
        let next: usize;
        if is_prop {
            let name = match &t[cur] {
                Token::Ident(s) => s.clone(),
                _ => {
                    return Err(ParseError { pos: cur, kind: ParseErrorKind::ExpectedIdent });
                },
            };
            let vstart = cur + 2;
            match expr_end(t, vstart) {
                None => {
                    return Err(ParseError { pos: cur, kind: ParseErrorKind::UnexpectedEnd });
                },
                Some(j) => {
                    if j == vstart {
                        return Err(ParseError { pos: j, kind: ParseErrorKind::ExpectedExpr });
                    }
                    let value = copy_range(t, vstart, j);
                    let j1 = skip_comma(t, j);
                    if j1 <= cur {
                        return Err(ParseError { pos: j1, kind: ParseErrorKind::Stalled });
                    }
                    let ghost props_pre = props@;
                    let prop = Property { name, value };
                    proof {
                        assert(tok_seq_view(prop.value@) =~= tv.subrange(vstart as int, j as int));
                    }
                    props.push(prop);
                    proof {
                        let spec_prop = PropertyView {
                            name: t@[cur as int]->Ident_0@,
                            value: tv.subrange(vstart as int, j as int),
                        };
                        assert(prop_seq_view(props@) =~= prop_seq_view(props_pre) + seq![
                            spec_prop,
                        ]);
                        assert(match sp_entries(tv, j1 as int) {
                            Option::None => sp_entries(tv, cur as int) is None,
                            Option::Some((p2, c2, k)) => sp_entries(tv, cur as int) == Some(
                                (seq![spec_prop] + p2, c2, k),
                            ),
                        });
                        let se = sp_entries(tv, j1 as int);
                        if se is Some {
                            let (p2, c2, k) = se->0;
                            assert(prop_seq_view(props_pre) + (seq![spec_prop] + p2)
                                =~= prop_seq_view(props@) + p2);
                        }
                    }
                    next = j1;
                },
            }
        } else if is_block {
            match parse_block(t, cur) {
                Err(e) => {
                    return Err(e);
                },
                Ok((b, j)) => {
                    let j1 = skip_comma(t, j);
                    if j1 <= cur {
                        return Err(ParseError { pos: j1, kind: ParseErrorKind::Stalled });
                    }
                    let ghost childs_pre = childs@;
                    let ghost bv = b@;
                    proof {
                        lemma_child_seq_view_push(childs@, Child::Component(b));
                    }
                    childs.push(Child::Component(b));
                    proof {
                        assert(child_seq_view(childs@) =~= child_seq_view(childs_pre) + seq![
                            ChildView::Component(bv),
                        ]);
                        assert(match sp_entries(tv, j1 as int) {
                            Option::None => sp_entries(tv, cur as int) is None,
                            Option::Some((p2, c2, k)) => sp_entries(tv, cur as int) == Some(
                                (p2, seq![ChildView::Component(bv)] + c2, k),
                            ),
                        });
                        let se = sp_entries(tv, j1 as int);
                        if se is Some {
                            let (p2, c2, k) = se->0;
                            assert(child_seq_view(childs_pre) + (seq![ChildView::Component(bv)]
                                + c2) =~= child_seq_view(childs@) + c2);
                        }
                    }
                    next = j1;
                },
            }
        } else {
            match expr_end(t, cur) {
                None => {
                    proof {
                        assert(sp_entry_expr(tv, cur as int) is None);
                        assert(sp_entries(tv, cur as int) is None);
                    }
                    return Err(ParseError { pos: cur, kind: ParseErrorKind::UnexpectedEnd });
                },
                Some(j) => {
                    if j == cur {
                        proof {
                            assert(sp_entry_expr(tv, cur as int) is None);
                            assert(sp_entries(tv, cur as int) is None);
                        }
                        return Err(ParseError { pos: j, kind: ParseErrorKind::ExpectedExpr });
                    }
                    let value = copy_range(t, cur, j);
                    let j1 = skip_comma(t, j);
                    if j1 <= cur {
                        return Err(ParseError { pos: j1, kind: ParseErrorKind::Stalled });
                    }
                    let ghost childs_pre = childs@;
                    let child = Child::Expr(value);
                    proof {
                        assert(tok_seq_view(child->Expr_0@) =~= tv.subrange(
                            cur as int,
                            j as int,
                        ));
                        lemma_child_seq_view_push(childs@, child);
                    }
                    let ghost cv = child_view(child);
                    childs.push(child);
                    proof {
                        assert(child_seq_view(childs@) =~= child_seq_view(childs_pre) + seq![cv]);
                        assert(cv == ChildView::Expr(tv.subrange(cur as int, j as int)));
                        assert(match sp_entries(tv, j1 as int) {
                            Option::None => sp_entries(tv, cur as int) is None,
                            Option::Some((p2, c2, k)) => sp_entries(tv, cur as int) == Some(
                                (p2, seq![cv] + c2, k),
                            ),
                        });
                        let se = sp_entries(tv, j1 as int);
                        if se is Some {
                            let (p2, c2, k) = se->0;
                            assert(child_seq_view(childs_pre) + (seq![cv] + c2)
                                =~= child_seq_view(childs@) + c2);
                        }
                    }
                    next = j1;
                },
            }
        }
        cur = next;
    }
}

/// Parses one block at `start`, following `sp_block` exactly.
fn parse_block(t: &Vec<Token>, start: usize) -> (r: Result<(ComponentBlock, usize), ParseError>)
    requires
        start <= t@.len(),
    ensures
        match r {
            Ok((b, j)) => sp_block(tok_seq_view(t@), start as int) == Some((b@, j as int)) && start
                < j <= t@.len(),
            Err(e) => sp_block(tok_seq_view(t@), start as int) is None && e.pos <= t@.len(),
        },
    decreases t@.len() - start, 0int,
{
    let ghost tv = tok_seq_view(t@);
    let n = t.len();
    if start >= n {
        return Err(ParseError { pos: start, kind: ParseErrorKind::ExpectedIdent });
    }
    proof {
        assert(tv[start as int] == t@[start as int]@);
    }
    let name = match &t[start] {
        Token::Ident(s) => s.clone(),
        _ => {
            return Err(ParseError { pos: start, kind: ParseErrorKind::ExpectedIdent });
        },
    };
    if start + 1 >= n {
        return Err(ParseError { pos: start + 1, kind: ParseErrorKind::ExpectedBrace });
    }
    proof {
        assert(tv[start as int + 1] == t@[start as int + 1]@);
    }
    let has_brace = match &t[start + 1] {
        Token::Punct(c) => *c == '{',
        _ => false,
    };
    if !has_brace {
        return Err(ParseError { pos: start + 1, kind: ParseErrorKind::ExpectedBrace });
    }
    match parse_entries(t, start + 2) {
        Err(e) => Err(e),
        Ok((props, childs, j)) => {
            proof {
                assert(tv[j as int] == t@[j as int]@);
            }
            let has_close = match &t[j] {
                Token::Punct(c) => *c == '}',
                _ => false,
            };
            if !has_close {
                return Err(ParseError { pos: j, kind: ParseErrorKind::ExpectedBrace });
            }
            let b = ComponentBlock { component_type: name, properties: props, children: childs };
            proof {
                assert(b@.component_type == t@[start as int]->Ident_0@);
                assert(b@.properties == prop_seq_view(props@));
                assert(b@.children == child_seq_view(childs@));
            }
            Ok((b, j + 1))
        },
    }
}

/// Parses one whole top-level block from a token stream. A malformed
/// stream, or one with tokens left after the block's closing brace, is
/// reported with the position of the offending token; the grammar
/// accepted is exactly `sp_component`.
pub fn parse_component_block(t: &Vec<Token>) -> (r: Result<ComponentBlock, ParseError>)
    ensures
        match r {
            Ok(b) => sp_component(tok_seq_view(t@)) == Some(b@),
            Err(e) => sp_component(tok_seq_view(t@)) is None && e.pos <= t@.len(),
        },
{
    match parse_block(t, 0) {
        Err(e) => Err(e),
        Ok((b, j)) => {
            if j != t.len() {
                return Err(ParseError { pos: j, kind: ParseErrorKind::TrailingTokens });
            }
            Ok(b)
        },
    }
}

} // verus!
