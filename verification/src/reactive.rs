//! Reactive dependency detection and expression rewriting.
//!
//! A property value may read observable state through calls of the
//! shape `name.get()`. This module reports, for one opaque expression
//! (a token run), which signal variables it syntactically reads, and
//! rewrites such an expression so that each read of a chosen signal
//! becomes a plain parameter reference, ready to stand inside a
//! subscribe-on-change closure.
//!
//! The detection is a purely syntactic heuristic: the scan jumps over
//! the delimited token group of every macro invocation, so a read that
//! only a further macro expansion would uncover is not seen, and any
//! read behind indirection is likewise invisible.

use vstd::prelude::*;
use crate::parser::{Token, TokenView, tok_seq_view, is_punct};

verus! {

/// What the analyzer reports for one expression.
#[derive(Debug)]
pub struct ReactiveInfo {
    /// The signal variables read through `get()`-style calls, first
    /// seen first, without duplicates.
    pub signal_vars: Vec<String>,
    /// Whether any `get()`-style call occurs at all.
    pub has_get_calls: bool,
}

/// The characters of `get`.
pub open spec fn get_name() -> Seq<char> {
    seq!['g', 'e', 't']
}

/// Is there a `.get(` at position `i`?
pub open spec fn is_get_call_at(t: Seq<TokenView>, i: int) -> bool {
    &&& 0 <= i
    &&& i + 2 < t.len()
    &&& is_punct(t[i], '.')
    &&& t[i + 1] == TokenView::Ident(get_name())
    &&& is_punct(t[i + 2], '(')
}

/// A token that, standing directly before an identifier, makes that
/// identifier part of a larger receiver expression rather than a bare
/// variable reference: a field access, a path segment, or the result
/// of a call or an index.
pub open spec fn binds_left(t: TokenView) -> bool {
    is_punct(t, '.') || is_punct(t, ':') || is_punct(t, ')') || is_punct(t, ']')
}

/// An opening delimiter token.
pub open spec fn is_open(t: TokenView) -> bool {
    is_punct(t, '(') || is_punct(t, '[') || is_punct(t, '{')
}

/// A closing delimiter token.
pub open spec fn is_close(t: TokenView) -> bool {
    is_punct(t, ')') || is_punct(t, ']') || is_punct(t, '}')
}

/// The position just past the end of the delimited group the scan is
/// inside: `depth` groups are open; an unclosed group ends at the
/// input's end.
pub open spec fn group_end(t: Seq<TokenView>, i: int, depth: int) -> int
    decreases t.len() - i,
{
    if i < 0 || i >= t.len() {
        i
    } else if is_open(t[i]) {
        group_end(t, i + 1, depth + 1)
    } else if is_close(t[i]) {
        if depth <= 1 {
            i + 1
        } else {
            group_end(t, i + 1, depth - 1)
        }
    } else {
        group_end(t, i + 1, depth)
    }
}

/// Does a macro invocation start at `i`: an identifier, a bang, and a
/// delimited group?
pub open spec fn is_macro_start(t: Seq<TokenView>, i: int) -> bool {
    &&& 0 <= i
    &&& i + 2 < t.len()
    &&& t[i] is Ident
    &&& is_punct(t[i + 1], '!')
    &&& is_open(t[i + 2])
}

/// The position just past a macro invocation's delimited group.
pub open spec fn macro_skip(t: Seq<TokenView>, i: int) -> int {
    group_end(t, i + 3, 1)
}

/// Where the scan resumes after the macro invocation at `i`: just
/// past its delimited group, kept inside the input.
pub open spec fn scan_resume(t: Seq<TokenView>, i: int) -> int {
    let j = macro_skip(t, i);
    if j <= i {
        i + 1
    } else if j > t.len() {
        t.len() as int
    } else {
        j
    }
}

/// The signal variable read at position `i`, when the dot there starts
/// a `get()` call whose receiver is a bare identifier.
pub open spec fn get_var_at(t: Seq<TokenView>, i: int) -> Option<Seq<char>> {
    if is_get_call_at(t, i) && i >= 1 {
        match t[i - 1] {
            TokenView::Ident(v) => if i >= 2 && binds_left(t[i - 2]) {
                None
            } else {
                Some(v)
            },
            _ => None,
        }
    } else {
        None
    }
}

/// The distinct signal variables read from position `i` on, in first-
/// seen order, continuing an accumulated list.
pub open spec fn signal_vars_from(t: Seq<TokenView>, i: int, acc: Seq<Seq<char>>) -> Seq<
    Seq<char>,
>
    decreases t.len() - i,
{
    if i < 0 || i >= t.len() {
        acc
    } else if is_macro_start(t, i) {
        signal_vars_from(t, scan_resume(t, i), acc)
    } else {
        match get_var_at(t, i) {
            Some(v) => if acc.contains(v) {
                signal_vars_from(t, i + 1, acc)
            } else {
                signal_vars_from(t, i + 1, acc.push(v))
            },
            None => signal_vars_from(t, i + 1, acc),
        }
    }
}

/// All distinct signal variables of an expression.
pub open spec fn spec_signal_vars(t: Seq<TokenView>) -> Seq<Seq<char>> {
    signal_vars_from(t, 0, Seq::empty())
}

/// Whether the scan, from position `i` on, meets a `get()`-style call
/// outside every macro invocation.
pub open spec fn has_get_from(t: Seq<TokenView>, i: int) -> bool
    decreases t.len() - i,
{
    if i < 0 || i >= t.len() {
        false
    } else if is_macro_start(t, i) {
        has_get_from(t, scan_resume(t, i))
    } else {
        is_get_call_at(t, i) || has_get_from(t, i + 1)
    }
}

/// Whether the expression holds any `get()`-style call outside a
/// macro invocation.
pub open spec fn spec_has_get_calls(t: Seq<TokenView>) -> bool {
    has_get_from(t, 0)
}

/// Pointwise view of a string vector.
pub open spec fn str_seq_view(s: Seq<String>) -> Seq<Seq<char>> {
    Seq::new(s.len(), |i: int| s[i]@)
}

/// Is `name` equal to `"get"`?
fn is_get_ident(s: &String) -> (r: bool)
    ensures
        r == (s@ == get_name()),
{
    let n = s.as_str().unicode_len();
    if n != 3 {
        return false;
    }
    let c0 = s.as_str().get_char(0);
    let c1 = s.as_str().get_char(1);
    let c2 = s.as_str().get_char(2);
    let ok = c0 == 'g' && c1 == 'e' && c2 == 't';
    proof {
        if ok {
            assert(s@ =~= get_name());
        }
        if s@ == get_name() {
            assert(s@[0] == 'g' && s@[1] == 'e' && s@[2] == 't');
        }
    }
    ok
}

/// Does the list already hold this name?
fn contains_name(v: &Vec<String>, s: &String) -> (r: bool)
    ensures
        r == str_seq_view(v@).contains(s@),
{
    let mut i: usize = 0;
    while i < v.len()
        invariant
            i <= v@.len(),
            forall|k: int| 0 <= k < i ==> v@[k]@ != s@,
        decreases v@.len() - i,
    {
        if v[i].eq(s) {
            proof {
                assert(str_seq_view(v@)[i as int] == s@);
            }
            return true;
        }
        i = i + 1;
    }
    proof {
        if str_seq_view(v@).contains(s@) {
            let k = choose|k: int| 0 <= k < str_seq_view(v@).len() && str_seq_view(v@)[k] == s@;
            assert(v@[k]@ == s@);
        }
    }
    false
}

/// Finds the position just past the delimited group that starts the
/// scan at `start` inside one open group, following `group_end`.
fn group_skip(tokens: &Vec<Token>, start: usize) -> (r: usize)
    requires
        start <= tokens@.len(),
    ensures
        r as int == group_end(tok_seq_view(tokens@), start as int, 1),
        start <= r <= tokens@.len(),
{
    let ghost tv = tok_seq_view(tokens@);
    let n = tokens.len();
    let mut i: usize = start;
    let mut depth: u128 = 1;
    while i < n
        invariant
            start <= i <= n,
            n == tokens@.len(),
            tv == tok_seq_view(tokens@),
            depth >= 1,
            depth <= i as u128 + 1,
            group_end(tv, start as int, 1) == group_end(tv, i as int, depth as int),
        decreases n - i,
    {
        proof {
            assert(tv[i as int] == tokens@[i as int]@);
        }
        match &tokens[i] {
            Token::Punct(c) => {
                if *c == '(' || *c == '[' || *c == '{' {
                    depth = depth + 1;
                } else if *c == ')' || *c == ']' || *c == '}' {
                    if depth <= 1 {
                        return i + 1;
                    }
                    depth = depth - 1;
                }
            },
            _ => {},
        }
        i = i + 1;
    }
    i
}

/// Does a macro invocation start here? On success, also the position
/// where the scan resumes, just past its group.
fn macro_start_at(tokens: &Vec<Token>, i: usize) -> (r: Option<usize>)
    requires
        i < tokens@.len(),
    ensures
        match r {
            Some(k) => is_macro_start(tok_seq_view(tokens@), i as int) && k as int == scan_resume(
                tok_seq_view(tokens@),
                i as int,
            ) && i < k <= tokens@.len(),
            None => !is_macro_start(tok_seq_view(tokens@), i as int),
        },
{
    let ghost tv = tok_seq_view(tokens@);
    let n = tokens.len();
    proof {
        assert(tv[i as int] == tokens@[i as int]@);
        if n - i > 2 {
            assert(tv[i as int + 1] == tokens@[i as int + 1]@);
            assert(tv[i as int + 2] == tokens@[i as int + 2]@);
        }
    }
    if n - i <= 2 {
        return None;
    }
    let ident_ok = match &tokens[i] {
        Token::Ident(_) => true,
        _ => false,
    };
    let bang_ok = match &tokens[i + 1] {
        Token::Punct(c) => *c == '!',
        _ => false,
    };
    let open_ok = match &tokens[i + 2] {
        Token::Punct(c) => *c == '(' || *c == '[' || *c == '{',
        _ => false,
    };
    if !(ident_ok && bang_ok && open_ok) {
        return None;
    }
    let k = group_skip(tokens, i + 3);
    proof {
        assert(is_macro_start(tv, i as int));
        assert(k as int == macro_skip(tv, i as int));
        assert(k as int == scan_resume(tv, i as int));
    }
    Some(k)
}

/// Analyze one expression: report the signal variables it reads
/// through `get()`-style calls (first seen first, deduplicated) and
/// whether any such call occurs outside a macro invocation.
pub fn analyze_reactive_expr(tokens: &Vec<Token>) -> (info: ReactiveInfo)
    ensures
        str_seq_view(info.signal_vars@) == spec_signal_vars(tok_seq_view(tokens@)),
        info.has_get_calls == spec_has_get_calls(tok_seq_view(tokens@)),
{
    let ghost tv = tok_seq_view(tokens@);
    let n = tokens.len();
    let mut vars: Vec<String> = Vec::new();
    let mut has_get = false;
    let mut i: usize = 0;
    proof {
        assert(str_seq_view(vars@) =~= Seq::<Seq<char>>::empty());
    }
    while i < n
        invariant
            i <= n,
            n == tokens@.len(),
            tv == tok_seq_view(tokens@),
            signal_vars_from(tv, 0, Seq::empty()) == signal_vars_from(tv, i as int, str_seq_view(vars@)),
            spec_has_get_calls(tv) == (has_get || has_get_from(tv, i as int)),
        decreases n - i,
    {
        proof {
            assert(tv[i as int] == tokens@[i as int]@);
            if i + 1 < n {
                assert(tv[i as int + 1] == tokens@[i as int + 1]@);
            }
            if i + 2 < n {
                assert(tv[i as int + 2] == tokens@[i as int + 2]@);
            }
            if i >= 1 {
                assert(tv[i as int - 1] == tokens@[i as int - 1]@);
            }
            if i >= 2 {
                assert(tv[i as int - 2] == tokens@[i as int - 2]@);
            }
        }
        match macro_start_at(tokens, i) {
            Some(k) => {
                i = k;
                continue;
            },
            None => {},
        }
        let mut found_get = false;
        match &tokens[i] {
            Token::Punct(c) => {
                if *c == '.' && n - i > 2 {
                    let name_ok = match &tokens[i + 1] {
                        Token::Ident(s) => is_get_ident(s),
                        _ => false,
                    };
                    let paren_ok = match &tokens[i + 2] {
                        Token::Punct(c2) => *c2 == '(',
                        _ => false,
                    };
                    found_get = name_ok && paren_ok;
                    proof {
                        assert(i + 2 < n);
                    }
                }
            },
            _ => {},
        }
        if found_get {
            has_get = true;
            proof {
                assert(is_get_call_at(tv, i as int));
            }
            if i >= 1 {
                let bare = if i >= 2 {
                    match &tokens[i - 2] {
                        Token::Punct(c) => !(*c == '.' || *c == ':' || *c == ')' || *c == ']'),
                        _ => true,
                    }
                } else {
                    true
                };
                match &tokens[i - 1] {
                    Token::Ident(v) => {
                        if bare {
                            proof {
                                assert(get_var_at(tv, i as int) == Some(v@));
                            }
                            let ghost vars_pre = vars@;
                            if !contains_name(&vars, v) {
                                vars.push(v.clone());
                                proof {
                                    assert(str_seq_view(vars@) =~= str_seq_view(vars_pre).push(
                                        v@,
                                    ));
                                }
                            }
                        } else {
                            proof {
                                assert(get_var_at(tv, i as int) is None);
                            }
                        }
                    },
                    _ => {
                        proof {
                            assert(get_var_at(tv, i as int) is None);
                        }
                    },
                }
            } else {
                proof {
                    assert(get_var_at(tv, i as int) is None);
                }
            }
        } else {
            proof {
                assert(!is_get_call_at(tv, i as int));
                assert(get_var_at(tv, i as int) is None);
            }
        }
        i = i + 1;
    }
    proof {
        assert(signal_vars_from(tv, n as int, str_seq_view(vars@)) == str_seq_view(vars@));
        assert(!has_get_from(tv, n as int));
    }
    ReactiveInfo { signal_vars: vars, has_get_calls: has_get }
}

/// Does the expression read reactive state at all?
pub fn is_reactive_expr(tokens: &Vec<Token>) -> (r: bool)
    ensures
        r == (spec_signal_vars(tok_seq_view(tokens@)).len() > 0 || spec_has_get_calls(
            tok_seq_view(tokens@),
        )),
{
    let info = analyze_reactive_expr(tokens);
    info.signal_vars.len() > 0 || info.has_get_calls
}

/// The parameter name that stands for one signal's current value
/// inside a binding closure: the variable name with `_value` appended.
pub open spec fn param_name(var: Seq<char>) -> Seq<char> {
    var + "_value"@
}

/// Is there, at position `i`, a complete `var.get()` call whose
/// receiver is the bare identifier `var`?
pub open spec fn rewrite_site_at(t: Seq<TokenView>, i: int, var: Seq<char>) -> bool {
    &&& 0 <= i
    &&& i + 4 < t.len()
    &&& t[i] == TokenView::Ident(var)
    &&& is_punct(t[i + 1], '.')
    &&& t[i + 2] == TokenView::Ident(get_name())
    &&& is_punct(t[i + 3], '(')
    &&& is_punct(t[i + 4], ')')
    &&& (i == 0 || !binds_left(t[i - 1]))
}

/// The expression with every `var.get()` read replaced by the bound
/// parameter name, scanning from position `i`. A macro invocation's
/// token group is copied verbatim: a read the analysis cannot see is
/// not rewritten either.
pub open spec fn rewrite_from(t: Seq<TokenView>, i: int, var: Seq<char>) -> Seq<TokenView>
    decreases t.len() - i,
{
    if i < 0 || i >= t.len() {
        Seq::empty()
    } else if is_macro_start(t, i) {
        t.subrange(i, scan_resume(t, i)) + rewrite_from(t, scan_resume(t, i), var)
    } else if rewrite_site_at(t, i, var) {
        seq![TokenView::Ident(param_name(var))] + rewrite_from(t, i + 5, var)
    } else {
        seq![t[i]] + rewrite_from(t, i + 1, var)
    }
}

/// The whole binding closure for one signal: `|var_value| body` where
/// the body is the rewritten expression.
pub open spec fn spec_binding(t: Seq<TokenView>, var: Seq<char>) -> Seq<TokenView> {
    seq![
        TokenView::Punct('|'),
        TokenView::Ident(param_name(var)),
        TokenView::Punct('|'),
    ] + rewrite_from(t, 0, var)
}

/// Rewrite one expression so that each `signal_var.get()` read of the
/// given signal becomes a reference to the bound parameter
/// `signal_var_value`; every other token is kept as it is.
pub fn transform_expr_for_reactive(expr: &Vec<Token>, signal_var: &String) -> (r: Vec<Token>)
    ensures
        tok_seq_view(r@) == rewrite_from(tok_seq_view(expr@), 0, signal_var@),
{
    let ghost tv = tok_seq_view(expr@);
    let n = expr.len();
    let mut out: Vec<Token> = Vec::new();
    let mut i: usize = 0;
    proof {
        assert(tok_seq_view(out@) =~= Seq::<TokenView>::empty());
        assert(rewrite_from(tv, 0, signal_var@) == Seq::<TokenView>::empty() + rewrite_from(
            tv,
            0,
            signal_var@,
        ));
    }
    while i < n
        invariant
            i <= n,
            n == expr@.len(),
            tv == tok_seq_view(expr@),
            rewrite_from(tv, 0, signal_var@) == tok_seq_view(out@) + rewrite_from(
                tv,
                i as int,
                signal_var@,
            ),
        decreases n - i,
    {
        proof {
            assert(tv[i as int] == expr@[i as int]@);
            if i >= 1 {
                assert(tv[i as int - 1] == expr@[i as int - 1]@);
            }
            if i + 4 < n {
                assert(tv[i as int + 1] == expr@[i as int + 1]@);
                assert(tv[i as int + 2] == expr@[i as int + 2]@);
                assert(tv[i as int + 3] == expr@[i as int + 3]@);
                assert(tv[i as int + 4] == expr@[i as int + 4]@);
            }
        }
        match macro_start_at(expr, i) {
            Some(k) => {
                let ghost out_pre = tok_seq_view(out@);
                let mut seg = crate::parser::copy_range(expr, i, k);
                out.append(&mut seg);
                proof {
                    assert(tok_seq_view(out@) =~= out_pre + tv.subrange(i as int, k as int));
                }
                i = k;
                continue;
            },
            None => {},
        }
        let mut site = false;
        if n - i >= 5 {
            {
                let m0 = match &expr[i] {
                    Token::Ident(s) => s.eq(signal_var),
                    _ => false,
                };
                let m1 = match &expr[i + 1] {
                    Token::Punct(c) => *c == '.',
                    _ => false,
                };
                let m2 = match &expr[i + 2] {
                    Token::Ident(s) => is_get_ident(s),
                    _ => false,
                };
                let m3 = match &expr[i + 3] {
                    Token::Punct(c) => *c == '(',
                    _ => false,
                };
                let m4 = match &expr[i + 4] {
                    Token::Punct(c) => *c == ')',
                    _ => false,
                };
                let bare = if i >= 1 {
                    match &expr[i - 1] {
                        Token::Punct(c) => !(*c == '.' || *c == ':' || *c == ')' || *c == ']'),
                        _ => true,
                    }
                } else {
                    true
                };
                site = m0 && m1 && m2 && m3 && m4 && bare;
            }
        }
        let ghost out_pre = out@;
        if site {
            proof {
                assert(rewrite_site_at(tv, i as int, signal_var@));
            }
            let mut p = signal_var.clone();
            p.append("_value");
            out.push(Token::Ident(p));
            proof {
                assert(tok_seq_view(out@) =~= tok_seq_view(out_pre) + seq![
                    TokenView::Ident(param_name(signal_var@)),
                ]);
            }
            i = i + 5;
        } else {
            proof {
                assert(!rewrite_site_at(tv, i as int, signal_var@));
            }
            let copy = expr[i].clone();
            out.push(copy);
            proof {
                assert(tok_seq_view(out@) =~= tok_seq_view(out_pre) + seq![tv[i as int]]);
            }
            i = i + 1;
        }
    }
    out
}

/// Build the reactive binding for an expression: `None` when the
/// analysis found no signal dependency, else the closure
/// `|var_value| body` for the first dependency, with the expression
/// rewritten so that each read of that signal uses the closure's
/// parameter.
pub fn generate_reactive_binding(expr: &Vec<Token>, info: &ReactiveInfo) -> (r: Option<
    Vec<Token>,
>)
    requires
        str_seq_view(info.signal_vars@) == spec_signal_vars(tok_seq_view(expr@)),
    ensures
        match r {
            Some(v) => spec_signal_vars(tok_seq_view(expr@)).len() > 0 && tok_seq_view(v@)
                == spec_binding(
                tok_seq_view(expr@),
                spec_signal_vars(tok_seq_view(expr@))[0],
            ),
            None => spec_signal_vars(tok_seq_view(expr@)).len() == 0,
        },
{
    if info.signal_vars.len() == 0 {
        return None;
    }
    let var = &info.signal_vars[0];
    proof {
        assert(str_seq_view(info.signal_vars@)[0] == var@);
    }
    let body = transform_expr_for_reactive(expr, var);
    let mut out: Vec<Token> = Vec::new();
    out.push(Token::Punct('|'));
    let mut p = var.clone();
    p.append("_value");
    out.push(Token::Ident(p));
    out.push(Token::Punct('|'));
    let ghost head = out@;
    let mut j: usize = 0;
    while j < body.len()
        invariant
            j <= body@.len(),
            out@.len() == head.len() + j,
            out@ =~= head + body@.subrange(0, j as int),
        decreases body@.len() - j,
    {
        out.push(body[j].clone());
        j = j + 1;
        proof {
            assert(out@ =~= head + body@.subrange(0, j as int));
        }
    }
    proof {
        assert(out@ =~= head + body@);
        assert(tok_seq_view(out@) =~= spec_binding(
            tok_seq_view(expr@),
            spec_signal_vars(tok_seq_view(expr@))[0],
        ));
    }
    Some(out)
}

} // verus!
