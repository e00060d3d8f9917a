//! Reads a component function into the component model: its props
//! parameter and, statement by statement, its signals, event handlers,
//! derived constants and returned render tree.

use vstd::prelude::*;
use crate::ast::{
    BodyStmt, BodyStmtKind, ComponentFile, ImportInfo, ParserError, PropsInfo, SignalDecl, SignalKind,
    TypeAnnotation,
};
use crate::inspect::{
    extract_signal_decl, is_signal_call, is_signal_or_computed, signal_decl_of, stmt_contains_jsx,
    stmt_has_jsx,
};
use crate::jsx::{NodeV, c_jsx_of, extract_jsx_from_expr, grew, opt_node_view, strings_view};
use crate::script::{ExprKind, Issue, JsExpr, JsPat, JsStmt, VarKind, issues_of};
use crate::text::{ends_with, owned, str_eq, str_ends_with, views};

verus! {

/// A statement of a component function's body, with the line and column
/// where it starts.
pub struct BodyItem {
    pub stmt: JsStmt,
    pub line: usize,
    pub column: usize,
}

/// A parameter of a component function: its pattern, the type annotation
/// on it, and where it starts.
pub struct ParamInfo {
    pub pat: JsPat,
    pub type_annotation: TypeAnnotation,
    pub line: usize,
    pub column: usize,
}

/// A component function: its parameters and its body (`None` for a
/// declaration without one).
pub struct ComponentFn {
    pub params: Vec<ParamInfo>,
    pub body: Option<Vec<BodyItem>>,
}

/// How a body statement is classified: a function declaration is an event
/// handler; a `const` is a signal when its first initializer is a
/// `signal(..)`/`computed(..)` call, an event handler when it is an arrow or
/// function expression, and a derived constant otherwise; `let`, `var` and
/// `return` are themselves; anything else is other.
pub open spec fn classify(s: JsStmt) -> BodyStmtKind {
    match s {
        JsStmt::FnDecl { .. } => BodyStmtKind::EventHandler,
        JsStmt::Var { kind, decls, .. } => match kind {
            VarKind::Const => if decls@.len() > 0 {
                match decls@[0].1 {
                    Some(init) => if is_signal_call(init) {
                        BodyStmtKind::Signal
                    } else if init is Arrow || init == JsExpr::Unsupported(ExprKind::Fn) {
                        BodyStmtKind::EventHandler
                    } else {
                        BodyStmtKind::DerivedConst
                    },
                    None => BodyStmtKind::DerivedConst,
                }
            } else {
                BodyStmtKind::DerivedConst
            },
            VarKind::Let => BodyStmtKind::Let,
            VarKind::Var => BodyStmtKind::Var,
        },
        JsStmt::Return(_) => BodyStmtKind::Return,
        _ => BodyStmtKind::Other,
    }
}

pub fn classify_body_stmt(stmt: &JsStmt) -> (r: BodyStmtKind)
    ensures
        r == classify(*stmt),
{
    match stmt {
        JsStmt::FnDecl { .. } => BodyStmtKind::EventHandler,
        JsStmt::Var { kind, decls, .. } => match kind {
            VarKind::Const => {
                if decls.len() > 0 {
                    match &decls[0].1 {
                        Some(init) => {
                            if is_signal_or_computed(init) {
                                BodyStmtKind::Signal
                            } else {
                                match init {
                                    JsExpr::Arrow(..) => BodyStmtKind::EventHandler,
                                    JsExpr::Unsupported(ExprKind::Fn) => BodyStmtKind::EventHandler,
                                    _ => BodyStmtKind::DerivedConst,
                                }
                            }
                        },
                        None => BodyStmtKind::DerivedConst,
                    }
                } else {
                    BodyStmtKind::DerivedConst
                }
            },
            VarKind::Let => BodyStmtKind::Let,
            VarKind::Var => BodyStmtKind::Var,
        },
        JsStmt::Return(_) => BodyStmtKind::Return,
        _ => BodyStmtKind::Other,
    }
}

/// A signal declaration by its views: name, kind, initial value.
pub open spec fn signal_view(d: SignalDecl) -> (Seq<char>, SignalKind, Seq<char>) {
    (d.name@, d.kind, d.initial_value@)
}

pub open spec fn signals_view(s: Seq<SignalDecl>) -> Seq<(Seq<char>, SignalKind, Seq<char>)> {
    s.map_values(|d: SignalDecl| signal_view(d))
}

/// The signal a signal statement declares, when its first declarator is a
/// plain name with an initializer.
pub open spec fn item_signal(s: JsStmt) -> Option<((Seq<char>, SignalKind, Seq<char>), Seq<Issue>)> {
    if classify(s) == BodyStmtKind::Signal {
        match s {
            JsStmt::Var { decls, .. } => match (decls@[0].0, decls@[0].1) {
                (Some(name), Some(init)) => match signal_decl_of(init) {
                    Some((k, p)) => Some(((name@, k, p.0), p.1)),
                    None => None,
                },
                _ => None,
            },
            _ => None,
        }
    } else {
        None
    }
}

/// The source and JSX flag an event-handler function declaration
/// contributes.
pub open spec fn item_handler(s: JsStmt) -> Option<(Seq<char>, bool)> {
    match s {
        JsStmt::FnDecl { source: Some(src), .. } => Some((src@, stmt_has_jsx(s))),
        _ => None,
    }
}

/// The source a derived constant contributes.
pub open spec fn item_derived(s: JsStmt) -> Option<Seq<char>> {
    if classify(s) == BodyStmtKind::DerivedConst {
        match s {
            JsStmt::Var { source: Some(src), .. } => Some(src@),
            _ => None,
        }
    } else {
        None
    }
}

/// The render tree a `return <expr>` sets (none when the expression is not
/// JSX), with its diagnostics.
pub open spec fn item_render(s: JsStmt) -> Option<(Option<NodeV>, Seq<Issue>)> {
    match s {
        JsStmt::Return(Some(x)) => Some(c_jsx_of(x)),
        _ => None,
    }
}

pub open spec fn item_issues(s: JsStmt) -> Seq<Issue> {
    match item_signal(s) {
        Some(p) => p.1,
        None => match item_render(s) {
            Some(r) => r.1,
            None => Seq::empty(),
        },
    }
}

pub open spec fn body_kinds(items: Seq<BodyItem>) -> Seq<BodyStmt> {
    items.map_values(|it: BodyItem| BodyStmt { kind: classify(it.stmt), line: it.line, column: it.column })
}

pub open spec fn body_signals(items: Seq<BodyItem>) -> Seq<(Seq<char>, SignalKind, Seq<char>)>
    decreases items.len(),
{
    if items.len() == 0 {
        Seq::empty()
    } else {
        let prev = body_signals(items.drop_last());
        match item_signal(items.last().stmt) {
            Some(p) => prev.push(p.0),
            None => prev,
        }
    }
}

pub open spec fn body_handlers(items: Seq<BodyItem>) -> Seq<(Seq<char>, bool)>
    decreases items.len(),
{
    if items.len() == 0 {
        Seq::empty()
    } else {
        let prev = body_handlers(items.drop_last());
        match item_handler(items.last().stmt) {
            Some(h) => prev.push(h),
            None => prev,
        }
    }
}

pub open spec fn body_derived(items: Seq<BodyItem>) -> Seq<Seq<char>>
    decreases items.len(),
{
    if items.len() == 0 {
        Seq::empty()
    } else {
        let prev = body_derived(items.drop_last());
        match item_derived(items.last().stmt) {
            Some(d) => prev.push(d),
            None => prev,
        }
    }
}

/// The render tree the last `return <expr>` of the body sets, if any.
pub open spec fn body_render(items: Seq<BodyItem>) -> Option<Option<NodeV>>
    decreases items.len(),
{
    if items.len() == 0 {
        None
    } else {
        match item_render(items.last().stmt) {
            Some(r) => Some(r.0),
            None => body_render(items.drop_last()),
        }
    }
}

pub open spec fn body_issues(items: Seq<BodyItem>) -> Seq<Issue>
    decreases items.len(),
{
    if items.len() == 0 {
        Seq::empty()
    } else {
        body_issues(items.drop_last()) + item_issues(items.last().stmt)
    }
}

/// The fields the body reading leaves alone are equal.
pub open spec fn same_outside_body(a: ComponentFile, b: ComponentFile) -> bool {
    &&& a.filename == b.filename
    &&& a.runs_on == b.runs_on
    &&& a.runs_on_count == b.runs_on_count
    &&& a.runs_on_line == b.runs_on_line
    &&& a.runs_on_column == b.runs_on_column
    &&& a.exports == b.exports
    &&& a.imports == b.imports
    &&& a.top_level_bindings == b.top_level_bindings
    &&& a.jsx_expressions == b.jsx_expressions
    &&& a.has_data_call == b.has_data_call
    &&& a.data_call_line == b.data_call_line
    &&& a.data_call_column == b.data_call_column
    &&& a.has_env_call == b.has_env_call
    &&& a.env_call_line == b.env_call_line
    &&& a.env_call_column == b.env_call_column
    &&& a.env_call_keys == b.env_call_keys
    &&& a.has_session_call == b.has_session_call
    &&& a.session_call_line == b.session_call_line
    &&& a.session_call_column == b.session_call_column
    &&& a.module_consts == b.module_consts
    &&& a.module_statements == b.module_statements
    &&& a.exported_fn_sources == b.exported_fn_sources
}

/// `new` is `old` after reading the body statements `items`.
pub open spec fn read_body(new: ComponentFile, old: ComponentFile, items: Seq<BodyItem>) -> bool {
    &&& new.props == old.props
    &&& read_body_fields(new, old, items)
}

/// `new` is `old` after reading the body statements `items`, props aside.
pub open spec fn read_body_fields(new: ComponentFile, old: ComponentFile, items: Seq<BodyItem>) -> bool {
    &&& same_outside_body(new, old)
    &&& new.body_stmts@ == old.body_stmts@ + body_kinds(items)
    &&& signals_view(new.signals@) == signals_view(old.signals@) + body_signals(items)
    &&& strings_view(new.handler_decls@) == strings_view(old.handler_decls@)
        + body_handlers(items).map_values(|h: (Seq<char>, bool)| h.0)
    &&& new.handler_has_jsx@ == old.handler_has_jsx@ + body_handlers(items).map_values(|h: (Seq<char>, bool)| h.1)
    &&& strings_view(new.derived_consts@) == strings_view(old.derived_consts@) + body_derived(items)
    &&& match body_render(items) {
        Some(r) => opt_node_view(new.render_tree) == r,
        None => new.render_tree == old.render_tree,
    }
    &&& issues_of(new.unsupported_errors@) == issues_of(old.unsupported_errors@) + body_issues(items)
}

/// Reads one body statement into the component model.
#[verifier::rlimit(40)]
fn read_item(file: &mut ComponentFile, it: &BodyItem)
    ensures
        read_body(*final(file), *old(file), seq![*it]),
        final(file).has_component_body == old(file).has_component_body,
{
    let ghost before = *file;
    let kind = classify_body_stmt(&it.stmt);
    file.body_stmts.push(BodyStmt { kind, line: it.line, column: it.column });
    let ghost items = seq![*it];
    assert(items.drop_last() =~= Seq::<BodyItem>::empty());
    assert(items.last() == *it);
    assert(body_signals(items.drop_last()) =~= Seq::empty());
    assert(body_handlers(items.drop_last()) =~= Seq::empty());
    assert(body_derived(items.drop_last()) =~= Seq::empty());
    assert(body_issues(items.drop_last()) =~= Seq::empty());
    assert(body_render(items.drop_last()) == None::<Option<NodeV>>);
    assert(body_signals(items) =~= match item_signal(it.stmt) {
        Some(p) => seq![p.0],
        None => Seq::empty(),
    });
    assert(body_handlers(items) =~= match item_handler(it.stmt) {
        Some(h) => seq![h],
        None => Seq::empty(),
    });
    assert(body_kinds(items) =~= seq![BodyStmt { kind, line: it.line, column: it.column }]);
    match kind {
        BodyStmtKind::Signal => {
            match &it.stmt {
                JsStmt::Var { decls, .. } => {
                    match (&decls[0].0, &decls[0].1) {
                        (Some(name), Some(init)) => {
                            let ghost e0 = file.unsupported_errors@;
                            match extract_signal_decl(init, &mut file.unsupported_errors) {
                                Some((k, v)) => {
                                    let ghost s0 = file.signals@;
                                    let d = SignalDecl { name: owned(name.as_str()), kind: k, initial_value: v };
                                    file.signals.push(d);
                                    assert(signals_view(file.signals@) =~= signals_view(s0).push(signal_view(d)));
                                },
                                None => {},
                            }
                        },
                        _ => {},
                    }
                },
                _ => {},
            }
        },
        _ => {},
    }
    match kind {
        BodyStmtKind::EventHandler => {
            let has_jsx = stmt_contains_jsx(&it.stmt);
            match &it.stmt {
                JsStmt::FnDecl { source: Some(src), .. } => {
                    let ghost h0 = file.handler_decls@;
                    file.handler_decls.push(owned(src.as_str()));
                    file.handler_has_jsx.push(has_jsx);
                    assert(strings_view(file.handler_decls@) =~= strings_view(h0).push(src@));
                },
                _ => {},
            }
        },
        _ => {},
    }
    match kind {
        BodyStmtKind::DerivedConst => {
            match &it.stmt {
                JsStmt::Var { source: Some(src), .. } => {
                    let ghost d0 = file.derived_consts@;
                    file.derived_consts.push(owned(src.as_str()));
                    assert(strings_view(file.derived_consts@) =~= strings_view(d0).push(src@));
                },
                _ => {},
            }
        },
        _ => {},
    }
    match &it.stmt {
        JsStmt::Return(Some(x)) => {
            let tree = extract_jsx_from_expr(x, &mut file.unsupported_errors);
            file.render_tree = tree;
        },
        _ => {},
    }
    assert(body_handlers(items).map_values(|h: (Seq<char>, bool)| h.0)
        =~= match item_handler(it.stmt) { Some(h) => seq![h.0], None => Seq::<Seq<char>>::empty() });
    assert(body_handlers(items).map_values(|h: (Seq<char>, bool)| h.1)
        =~= match item_handler(it.stmt) { Some(h) => seq![h.1], None => Seq::<bool>::empty() });
    assert(file.body_stmts@ =~= before.body_stmts@ + body_kinds(items));
    assert(signals_view(file.signals@) =~= signals_view(before.signals@) + body_signals(items));
    assert(strings_view(file.handler_decls@) =~= strings_view(before.handler_decls@)
        + body_handlers(items).map_values(|h: (Seq<char>, bool)| h.0));
    assert(file.handler_has_jsx@ =~= before.handler_has_jsx@
        + body_handlers(items).map_values(|h: (Seq<char>, bool)| h.1));
    assert(strings_view(file.derived_consts@) =~= strings_view(before.derived_consts@) + body_derived(items));
    assert(issues_of(file.unsupported_errors@) =~= issues_of(before.unsupported_errors@) + body_issues(items));
}

/// Reading `items.take(n)` and then `items[n]` is reading
/// `items.take(n + 1)`.
proof fn lemma_read_step(a: ComponentFile, b: ComponentFile, c: ComponentFile, items: Seq<BodyItem>, n: int)
    requires
        0 <= n < items.len(),
        read_body(b, a, items.take(n)),
        read_body(c, b, seq![items[n]]),
    ensures
        read_body(c, a, items.take(n + 1)),
{
    let p = items.take(n);
    let q = items.take(n + 1);
    let one = seq![items[n]];
    assert(q.drop_last() =~= p);
    assert(q.last() == items[n]);
    assert(one.drop_last() =~= Seq::<BodyItem>::empty());
    assert(one.last() == items[n]);
    assert(body_signals(one.drop_last()) =~= Seq::empty());
    assert(body_handlers(one.drop_last()) =~= Seq::empty());
    assert(body_derived(one.drop_last()) =~= Seq::empty());
    assert(body_issues(one.drop_last()) =~= Seq::empty());
    assert(body_render(one.drop_last()) == None::<Option<NodeV>>);
    assert(body_kinds(q) =~= body_kinds(p) + body_kinds(one));
    assert(body_signals(q) =~= body_signals(p) + body_signals(one));
    assert(body_handlers(q) =~= body_handlers(p) + body_handlers(one));
    assert(body_handlers(q).map_values(|h: (Seq<char>, bool)| h.0)
        =~= body_handlers(p).map_values(|h: (Seq<char>, bool)| h.0)
        + body_handlers(one).map_values(|h: (Seq<char>, bool)| h.0));
    assert(body_handlers(q).map_values(|h: (Seq<char>, bool)| h.1)
        =~= body_handlers(p).map_values(|h: (Seq<char>, bool)| h.1)
        + body_handlers(one).map_values(|h: (Seq<char>, bool)| h.1));
    assert(body_derived(q) =~= body_derived(p) + body_derived(one));
    assert(body_issues(q) =~= body_issues(p) + body_issues(one));
    assert(c.body_stmts@ =~= a.body_stmts@ + body_kinds(q));
    assert(signals_view(c.signals@) =~= signals_view(a.signals@) + body_signals(q));
    assert(strings_view(c.handler_decls@) =~= strings_view(a.handler_decls@)
        + body_handlers(q).map_values(|h: (Seq<char>, bool)| h.0));
    assert(c.handler_has_jsx@ =~= a.handler_has_jsx@ + body_handlers(q).map_values(|h: (Seq<char>, bool)| h.1));
    assert(strings_view(c.derived_consts@) =~= strings_view(a.derived_consts@) + body_derived(q));
    assert(issues_of(c.unsupported_errors@) =~= issues_of(a.unsupported_errors@) + body_issues(q));
}

/// Reading no statements changes nothing.
proof fn lemma_read_none(a: ComponentFile)
    ensures
        read_body(a, a, Seq::empty()),
{
    let e = Seq::<BodyItem>::empty();
    assert(body_kinds(e) =~= Seq::empty());
    assert(a.body_stmts@ + body_kinds(e) =~= a.body_stmts@);
    assert(signals_view(a.signals@) + body_signals(e) =~= signals_view(a.signals@));
    assert(body_handlers(e).map_values(|h: (Seq<char>, bool)| h.0) =~= Seq::empty());
    assert(body_handlers(e).map_values(|h: (Seq<char>, bool)| h.1) =~= Seq::empty());
    assert(strings_view(a.handler_decls@) + Seq::<Seq<char>>::empty() =~= strings_view(a.handler_decls@));
    assert(a.handler_has_jsx@ + Seq::<bool>::empty() =~= a.handler_has_jsx@);
    assert(strings_view(a.derived_consts@) + body_derived(e) =~= strings_view(a.derived_consts@));
    assert(issues_of(a.unsupported_errors@) + body_issues(e) =~= issues_of(a.unsupported_errors@));
}

/// Reads a component function's body into the model: marks that the
/// component has a body and reads each statement in order.
pub fn extract_body_stmts(file: &mut ComponentFile, body: &Option<Vec<BodyItem>>)
    ensures
        final(file).has_component_body,
        read_body(*final(file), *old(file), match *body {
            Some(items) => items@,
            None => Seq::empty(),
        }),
{
    file.has_component_body = true;
    let ghost start = *file;
    proof { lemma_read_none(start); }
    let items = match body {
        Some(items) => items,
        None => return,
    };
    let mut i: usize = 0;
    assert(items@.take(0) =~= Seq::<BodyItem>::empty());
    while i < items.len()
        invariant
            i <= items@.len(),
            file.has_component_body,
            read_body(*file, start, items@.take(i as int)),
        decreases items.len() - i,
    {
        let ghost mid = *file;
        read_item(file, &items[i]);
        proof { lemma_read_step(start, mid, *file, items@, i as int); }
        i += 1;
    }
    assert(items@.take(items@.len() as int) =~= items@);
}

/// The props a component function's first parameter declares: a plain
/// name is the props object under that name, a destructuring pattern is
/// destructured props (named `props`); any other first parameter, or none,
/// declares none.
pub open spec fn props_of(params: Seq<ParamInfo>) -> Option<(Seq<char>, TypeAnnotation, bool, usize, usize)> {
    if params.len() > 0 {
        let p = params[0];
        match p.pat {
            JsPat::Ident(name) => Some((name@, p.type_annotation, false, p.line, p.column)),
            JsPat::Object(_) => Some(("props"@, p.type_annotation, true, p.line, p.column)),
            _ => None,
        }
    } else {
        None
    }
}

pub open spec fn type_view(t: TypeAnnotation) -> (int, Seq<char>) {
    match t {
        TypeAnnotation::Named(s) => (0, s@),
        TypeAnnotation::Any => (1, Seq::empty()),
        TypeAnnotation::Untyped => (2, Seq::empty()),
    }
}

fn copy_type(t: &TypeAnnotation) -> (r: TypeAnnotation)
    ensures
        type_view(r) == type_view(*t),
{
    match t {
        TypeAnnotation::Named(s) => TypeAnnotation::Named(owned(s.as_str())),
        TypeAnnotation::Any => TypeAnnotation::Any,
        TypeAnnotation::Untyped => TypeAnnotation::Untyped,
    }
}

/// Reads a component function into the model, unless props were already
/// read from an earlier component function of the module: the props its
/// first parameter declares, then its body.
pub fn extract_fn_props(file: &mut ComponentFile, function: &ComponentFn)
    ensures
        old(file).props.is_some() ==> *final(file) == *old(file),
        old(file).props.is_none() ==> {
            &&& final(file).has_component_body
            &&& match props_of(function.params@) {
                Some((name, t, destructured, line, column)) => {
                    &&& final(file).props.is_some()
                    &&& final(file).props.unwrap().name@ == name
                    &&& type_view(final(file).props.unwrap().type_annotation) == type_view(t)
                    &&& final(file).props.unwrap().is_destructured == destructured
                    &&& final(file).props.unwrap().line == line
                    &&& final(file).props.unwrap().column == column
                },
                None => final(file).props.is_none(),
            }
            &&& read_body_fields(*final(file), *old(file), match function.body {
                Some(items) => items@,
                None => Seq::empty(),
            })
        },
{
    if file.props.is_some() {
        return;
    }
    if function.params.len() > 0 {
        let p = &function.params[0];
        match &p.pat {
            JsPat::Ident(name) => {
                file.props = Some(PropsInfo {
                    name: owned(name.as_str()),
                    type_annotation: copy_type(&p.type_annotation),
                    is_destructured: false,
                    line: p.line,
                    column: p.column,
                });
            },
            JsPat::Object(_) => {
                file.props = Some(PropsInfo {
                    name: owned("props"),
                    type_annotation: copy_type(&p.type_annotation),
                    is_destructured: true,
                    line: p.line,
                    column: p.column,
                });
            },
            _ => {},
        }
    }
    let ghost mid = *file;
    extract_body_stmts(file, &function.body);
    proof {
        reveal_strlit("props");
    }
    assert(same_outside_body(mid, *old(file)));
}

/// A stylesheet import: its source ends in `.css` or `.CSS`.
pub open spec fn is_css_source(source: Seq<char>) -> bool {
    ends_with(source, ".css"@) || ends_with(source, ".CSS"@)
}

/// The import record of an `import` declaration with the given source and
/// local names: recorded for a stylesheet or when it binds a name; a
/// bare side-effect import of a script is not recorded.
pub fn import_info(source: String, names: Vec<String>, line: usize, column: usize) -> (r: Option<ImportInfo>)
    ensures
        r.is_some() == (is_css_source(source@) || names@.len() > 0),
        r.is_some() ==> {
            &&& r.unwrap().source == source
            &&& r.unwrap().imported_names == names
            &&& r.unwrap().line == line
            &&& r.unwrap().column == column
            &&& r.unwrap().is_css == is_css_source(source@)
        },
{
    let is_css = str_ends_with(source.as_str(), ".css") || str_ends_with(source.as_str(), ".CSS");
    if is_css || names.len() > 0 {
        Some(ImportInfo { source, imported_names: names, line, column, is_css })
    } else {
        None
    }
}

/// `new` is `old` after noting a call of `name` at `line`:`column`: a
/// `data()` call marks the page as loading data, an `env()` call marks the
/// module as reading the environment (recording the key when the first
/// argument is a string literal), a `session()`/`setSession()` call as
/// using the session; the position of the latest such call is kept.
pub open spec fn noted_call(
    new: ComponentFile,
    old: ComponentFile,
    name: Seq<char>,
    key: Option<Seq<char>>,
    line: usize,
    column: usize,
) -> bool {
    &&& if name == "data"@ {
        new.has_data_call && new.data_call_line == line && new.data_call_column == column
    } else {
        new.has_data_call == old.has_data_call && new.data_call_line == old.data_call_line
            && new.data_call_column == old.data_call_column
    }
    &&& if name == "env"@ {
        &&& new.has_env_call && new.env_call_line == line && new.env_call_column == column
        &&& views(new.env_call_keys@) == match key {
            Some(k) => views(old.env_call_keys@).push(k),
            None => views(old.env_call_keys@),
        }
    } else {
        &&& new.has_env_call == old.has_env_call && new.env_call_line == old.env_call_line
        &&& new.env_call_column == old.env_call_column && new.env_call_keys == old.env_call_keys
    }
    &&& if name == "session"@ || name == "setSession"@ {
        new.has_session_call && new.session_call_line == line && new.session_call_column == column
    } else {
        new.has_session_call == old.has_session_call && new.session_call_line == old.session_call_line
            && new.session_call_column == old.session_call_column
    }
    &&& new.filename == old.filename && new.runs_on == old.runs_on && new.exports == old.exports
    &&& new.props == old.props && new.imports == old.imports
    &&& new.top_level_bindings == old.top_level_bindings && new.jsx_expressions == old.jsx_expressions
    &&& new.body_stmts == old.body_stmts && new.signals == old.signals
    &&& new.render_tree == old.render_tree && new.unsupported_errors == old.unsupported_errors
    &&& new.module_consts == old.module_consts && new.module_statements == old.module_statements
}

/// Notes a call whose callee resolves to the identifier `name` (see
/// [`noted_call`]); `key` is its first argument when that is a string
/// literal.
pub fn note_call(file: &mut ComponentFile, name: &str, key: Option<String>, line: usize, column: usize)
    ensures
        noted_call(*final(file), *old(file), name@, match key { Some(k) => Some(k@), None => None }, line, column),
{
    if str_eq(name, "data") {
        file.has_data_call = true;
        file.data_call_line = line;
        file.data_call_column = column;
    }
    if str_eq(name, "env") {
        file.has_env_call = true;
        file.env_call_line = line;
        file.env_call_column = column;
        match key {
            Some(k) => {
                let ghost before = file.env_call_keys@;
                file.env_call_keys.push(k);
                assert(views(file.env_call_keys@) =~= views(before).push(k@));
            },
            None => {},
        }
    }
    if str_eq(name, "session") || str_eq(name, "setSession") {
        file.has_session_call = true;
        file.session_call_line = line;
        file.session_call_column = column;
    }
}

} // verus!
