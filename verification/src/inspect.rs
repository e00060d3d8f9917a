//! Questions the front end asks of inline expressions: signal
//! declarations, `.map` calls, JSX in return position and signal reads
//! through member chains.

use vstd::prelude::*;
use crate::ast::{ParserError, SignalKind};
use crate::printer::{Printed, format_jsx_expr, p_expr, txt};
use crate::script::{ArrowBody, JsExpr, JsLit, JsStmt, MemberKey, issues_of};
use crate::text::{owned, str_eq, views};

verus! {

/// The signal declaration an initializer makes: `signal(x)` declares a
/// signal whose initial value is the printed `x` (`undefined` without an
/// argument), `computed(f)` a computed value whose body is the printed `f`
/// (`() => undefined` without an argument). A spread first argument is
/// printed without its spread.
pub open spec fn signal_decl_of(e: JsExpr) -> Option<(SignalKind, Printed)> {
    match e {
        JsExpr::Call(Some(callee), args) => match *callee {
            JsExpr::Ident(name) => if name@ == "signal"@ {
                Some((SignalKind::Signal,
                    if args@.len() > 0 { p_expr(args@[0].1) } else { txt("undefined"@) }))
            } else if name@ == "computed"@ {
                Some((SignalKind::Computed,
                    if args@.len() > 0 { p_expr(args@[0].1) } else { txt("() => undefined"@) }))
            } else {
                None
            },
            _ => None,
        },
        _ => None,
    }
}

/// Reads a `signal(..)` or `computed(..)` initializer: its kind and printed
/// argument, diagnostics of the argument appended to `errors`.
pub fn extract_signal_decl(expr: &JsExpr, errors: &mut Vec<ParserError>) -> (r: Option<(SignalKind, String)>)
    ensures
        match signal_decl_of(*expr) {
            None => r.is_none() && final(errors)@ == old(errors)@,
            Some((k, p)) => r.is_some() && r.unwrap().0 == k && r.unwrap().1@ == p.0
                && issues_of(final(errors)@) == issues_of(old(errors)@) + p.1,
        },
{
    match expr {
        JsExpr::Call(Some(callee), args) => match &**callee {
            JsExpr::Ident(name) => {
                let is_signal = str_eq(name.as_str(), "signal");
                let is_computed = str_eq(name.as_str(), "computed");
                if !is_signal && !is_computed {
                    return None;
                }
                let kind = if is_signal { SignalKind::Signal } else { SignalKind::Computed };
                if args.len() > 0 {
                    let text = format_jsx_expr(&args[0].1, errors);
                    Some((kind, text))
                } else {
                    let ghost e0 = issues_of(errors@);
                    assert(e0 + Seq::empty() =~= e0);
                    if is_signal {
                        Some((kind, owned("undefined")))
                    } else {
                        Some((kind, owned("() => undefined")))
                    }
                }
            },
            _ => None,
        },
        _ => None,
    }
}

/// A call of `signal` or `computed` by name.
pub open spec fn is_signal_call(e: JsExpr) -> bool {
    match e {
        JsExpr::Call(Some(callee), _) => match *callee {
            JsExpr::Ident(name) => name@ == "signal"@ || name@ == "computed"@,
            _ => false,
        },
        _ => false,
    }
}

pub fn is_signal_or_computed(expr: &JsExpr) -> (r: bool)
    ensures
        r == is_signal_call(*expr),
{
    match expr {
        JsExpr::Call(Some(callee), _) => match &**callee {
            JsExpr::Ident(name) => str_eq(name.as_str(), "signal") || str_eq(name.as_str(), "computed"),
            _ => false,
        },
        _ => false,
    }
}

/// A call whose callee is a `.map` member access.
pub open spec fn is_map_call(e: JsExpr) -> bool {
    match e {
        JsExpr::Call(Some(callee), _) => match *callee {
            JsExpr::Member(_, MemberKey::Ident(name)) => name@ == "map"@,
            _ => false,
        },
        _ => false,
    }
}

pub fn is_dot_map_call(expr: &JsExpr) -> (r: bool)
    ensures
        r == is_map_call(*expr),
{
    match expr {
        JsExpr::Call(Some(callee), _) => match &**callee {
            JsExpr::Member(_, MemberKey::Ident(name)) => str_eq(name.as_str(), "map"),
            _ => false,
        },
        _ => false,
    }
}

/// Whether an expression yields JSX: a JSX element or fragment, directly,
/// through parentheses, in either branch of a conditional, as an arrow's
/// result (or returned from its block body), or as a call argument.
pub open spec fn has_jsx(e: JsExpr) -> bool
    decreases e,
{
    match e {
        JsExpr::JsxElement(_) | JsExpr::JsxFragment(_) => true,
        JsExpr::Paren(x) => has_jsx(*x),
        JsExpr::Cond(_, c, a) => has_jsx(*c) || has_jsx(*a),
        JsExpr::Arrow(_, body) => body_has_jsx(body),
        JsExpr::Call(_, args) => args_have_jsx(args@),
        _ => false,
    }
}

pub open spec fn body_has_jsx(b: ArrowBody) -> bool
    decreases b,
{
    match b {
        ArrowBody::Block(ss) => block_has_jsx(ss@),
        ArrowBody::Expr(x) => has_jsx(*x),
    }
}

pub open spec fn arg_has_jsx(a: (bool, JsExpr)) -> bool
    decreases a,
{
    has_jsx(a.1)
}

pub open spec fn args_have_jsx(args: Seq<(bool, JsExpr)>) -> bool
    decreases args,
{
    args.len() > 0 && (args_have_jsx(args.drop_last()) || arg_has_jsx(args.last()))
}

/// Whether a statement yields JSX: a `return` of JSX, or a function
/// declaration whose body does.
pub open spec fn stmt_has_jsx(s: JsStmt) -> bool
    decreases s,
{
    match s {
        JsStmt::FnDecl { body: Some(body), .. } => block_has_jsx(body@),
        JsStmt::Return(Some(x)) => has_jsx(x),
        _ => false,
    }
}

pub open spec fn block_has_jsx(ss: Seq<JsStmt>) -> bool
    decreases ss,
{
    ss.len() > 0 && (block_has_jsx(ss.drop_last()) || stmt_has_jsx(ss.last()))
}

pub fn expr_contains_jsx(expr: &JsExpr) -> (r: bool)
    ensures
        r == has_jsx(*expr),
    decreases expr,
{
    match expr {
        JsExpr::JsxElement(_) | JsExpr::JsxFragment(_) => true,
        JsExpr::Paren(x) => expr_contains_jsx(x),
        JsExpr::Cond(_, c, a) => expr_contains_jsx(c) || expr_contains_jsx(a),
        JsExpr::Arrow(_, body) => body_contains_jsx(body),
        JsExpr::Call(_, args) => args_contain_jsx(args),
        _ => false,
    }
}

fn body_contains_jsx(b: &ArrowBody) -> (r: bool)
    ensures
        r == body_has_jsx(*b),
    decreases b,
{
    match b {
        ArrowBody::Block(ss) => block_contains_jsx(ss),
        ArrowBody::Expr(x) => expr_contains_jsx(x),
    }
}

fn arg_contains_jsx(a: &(bool, JsExpr)) -> (r: bool)
    ensures
        r == arg_has_jsx(*a),
    decreases a,
{
    expr_contains_jsx(&a.1)
}

fn args_contain_jsx(args: &Vec<(bool, JsExpr)>) -> (r: bool)
    ensures
        r == args_have_jsx(args@),
    decreases args,
{
    let mut i: usize = 0;
    while i < args.len()
        invariant
            i <= args@.len(),
            !args_have_jsx(args@.take(i as int)),
        decreases args.len() - i,
    {
        assert(args@.take(i + 1).drop_last() =~= args@.take(i as int));
        assert(args@.take(i + 1).last() == args@[i as int]);
        proof {
            assert(decreases_to!(args => args@[i as int]));
        }
        if arg_contains_jsx(&args[i]) {
            assert(args_have_jsx(args@.take(i + 1)));
            proof { lemma_args_prefix(args@, i + 1); }
            return true;
        }
        i += 1;
    }
    assert(args@.take(args@.len() as int) =~= args@);
    false
}

/// JSX among the first `n` arguments is JSX among all of them.
proof fn lemma_args_prefix(args: Seq<(bool, JsExpr)>, n: int)
    requires
        0 <= n <= args.len(),
        args_have_jsx(args.take(n)),
    ensures
        args_have_jsx(args),
    decreases args.len() - n,
{
    if n < args.len() {
        assert(args.take(n + 1).drop_last() =~= args.take(n));
        lemma_args_prefix(args, n + 1);
    } else {
        assert(args.take(n) =~= args);
    }
}

/// A `return` of JSX, or a function declaration whose body holds one.
pub fn stmt_contains_jsx(stmt: &JsStmt) -> (r: bool)
    ensures
        r == stmt_has_jsx(*stmt),
    decreases stmt,
{
    match stmt {
        JsStmt::FnDecl { body: Some(body), .. } => block_contains_jsx(body),
        JsStmt::Return(Some(x)) => expr_contains_jsx(x),
        _ => false,
    }
}

pub fn block_contains_jsx(stmts: &Vec<JsStmt>) -> (r: bool)
    ensures
        r == block_has_jsx(stmts@),
    decreases stmts,
{
    let mut i: usize = 0;
    while i < stmts.len()
        invariant
            i <= stmts@.len(),
            !block_has_jsx(stmts@.take(i as int)),
        decreases stmts.len() - i,
    {
        assert(stmts@.take(i + 1).drop_last() =~= stmts@.take(i as int));
        assert(stmts@.take(i + 1).last() == stmts@[i as int]);
        proof {
            assert(decreases_to!(stmts => stmts@[i as int]));
        }
        if stmt_contains_jsx(&stmts[i]) {
            assert(block_has_jsx(stmts@.take(i + 1)));
            proof { lemma_block_prefix(stmts@, i + 1); }
            return true;
        }
        i += 1;
    }
    assert(stmts@.take(stmts@.len() as int) =~= stmts@);
    false
}

/// JSX among the first `n` statements is JSX in the block.
proof fn lemma_block_prefix(ss: Seq<JsStmt>, n: int)
    requires
        0 <= n <= ss.len(),
        block_has_jsx(ss.take(n)),
    ensures
        block_has_jsx(ss),
    decreases ss.len() - n,
{
    if n < ss.len() {
        assert(ss.take(n + 1).drop_last() =~= ss.take(n));
        lemma_block_prefix(ss, n + 1);
    } else {
        assert(ss.take(n) =~= ss);
    }
}

/// Whether a member key reads `value`: `.value` or `["value"]`.
pub open spec fn reads_value(key: MemberKey) -> bool {
    match key {
        MemberKey::Ident(id) => id@ == "value"@,
        MemberKey::Computed(x) => match *x {
            JsExpr::Lit(JsLit::Str(s)) => s@ == "value"@,
            _ => false,
        },
        MemberKey::Private => false,
    }
}

pub fn is_value_prop(key: &MemberKey) -> (r: bool)
    ensures
        r == reads_value(*key),
{
    match key {
        MemberKey::Ident(id) => str_eq(id.as_str(), "value"),
        MemberKey::Computed(x) => match &**x {
            JsExpr::Lit(JsLit::Str(s)) => str_eq(s.as_str(), "value"),
            _ => false,
        },
        MemberKey::Private => false,
    }
}

/// Whether the member chain left of a `.value` read is a signal: walking
/// down to the chain's root identifier, the read is reactive when that root
/// is the props parameter or a known signal, or when the member name
/// nearest the `.value` (`rightmost`, once set) is a known signal. A
/// private name, or a root that is not an identifier, makes it not one.
pub open spec fn chain_reads(
    e: JsExpr,
    names: Seq<Seq<char>>,
    props_param: Seq<char>,
    rightmost: Option<Seq<char>>,
) -> bool
    decreases e,
{
    match e {
        JsExpr::Ident(id) => id@ == props_param || names.contains(id@) || match rightmost {
            Some(r) => names.contains(r),
            None => false,
        },
        JsExpr::Member(obj, key) => match key {
            MemberKey::Ident(id) => chain_reads(*obj, names, props_param,
                if rightmost.is_none() { Some(id@) } else { rightmost }),
            MemberKey::Computed(x) => match *x {
                JsExpr::Lit(JsLit::Str(s)) => chain_reads(*obj, names, props_param,
                    if rightmost.is_none() { Some(s@) } else { rightmost }),
                _ => chain_reads(*obj, names, props_param, rightmost),
            },
            MemberKey::Private => false,
        },
        _ => false,
    }
}

pub(crate) fn name_listed(names: &Vec<String>, name: &str) -> (r: bool)
    ensures
        r == views(names@).contains(name@),
{
    let mut i: usize = 0;
    while i < names.len()
        invariant
            i <= names@.len(),
            forall|k: int| 0 <= k < i ==> names@[k]@ != name@,
        decreases names.len() - i,
    {
        if str_eq(names[i].as_str(), name) {
            assert(views(names@)[i as int] == name@);
            return true;
        }
        i += 1;
    }
    assert(!views(names@).contains(name@)) by {
        if views(names@).contains(name@) {
            let k = choose|k: int| 0 <= k < views(names@).len() && views(names@)[k] == name@;
            assert(names@[k]@ == name@);
        }
    }
    false
}

fn chain_walk(e: &JsExpr, names: &Vec<String>, props_param: &str, rightmost: Option<&str>) -> (r: bool)
    ensures
        r == chain_reads(*e, views(names@), props_param@, match rightmost {
            Some(s) => Some(s@),
            None => None,
        }),
    decreases e,
{
    match e {
        JsExpr::Ident(id) => {
            if str_eq(id.as_str(), props_param) {
                return true;
            }
            if name_listed(names, id.as_str()) {
                return true;
            }
            match rightmost {
                Some(r) => name_listed(names, r),
                None => false,
            }
        },
        JsExpr::Member(obj, key) => match key {
            MemberKey::Ident(id) => {
                let next = match rightmost {
                    Some(r) => Some(r),
                    None => Some(id.as_str()),
                };
                chain_walk(obj, names, props_param, next)
            },
            MemberKey::Computed(x) => match &**x {
                JsExpr::Lit(JsLit::Str(s)) => {
                    let next = match rightmost {
                        Some(r) => Some(r),
                        None => Some(s.as_str()),
                    };
                    chain_walk(obj, names, props_param, next)
                },
                _ => chain_walk(obj, names, props_param, rightmost),
            },
            MemberKey::Private => false,
        },
        _ => false,
    }
}

/// Whether `obj.value` reads a signal, where `obj` is the chain left of the
/// `.value` (see [`chain_reads`]).
pub fn chain_reads_signal(obj: &JsExpr, names: &Vec<String>, props_param: &str) -> (r: bool)
    ensures
        r == chain_reads(*obj, views(names@), props_param@, None),
{
    chain_walk(obj, names, props_param, None)
}

/// A member chain (`.name` or `[expr]` steps, no private names) down to
/// the identifier `root`.
pub open spec fn rooted_in(e: JsExpr, root: Seq<char>) -> bool
    decreases e,
{
    match e {
        JsExpr::Ident(id) => id@ == root,
        JsExpr::Member(obj, key) => !(key is Private) && rooted_in(*obj, root),
        _ => false,
    }
}

/// A `.value` read through a member chain that starts at the props
/// parameter is a signal read, however deep the chain: `props.count`,
/// `props.nested.count`, `props['a'][i].b` all alike.
pub proof fn law_props_chain_reads(
    e: JsExpr,
    names: Seq<Seq<char>>,
    props_param: Seq<char>,
    rightmost: Option<Seq<char>>,
)
    requires
        rooted_in(e, props_param),
    ensures
        chain_reads(e, names, props_param, rightmost),
    decreases e,
{
    match e {
        JsExpr::Member(obj, key) => match key {
            MemberKey::Ident(id) => law_props_chain_reads(*obj, names, props_param,
                if rightmost.is_none() { Some(id@) } else { rightmost }),
            MemberKey::Computed(x) => match *x {
                JsExpr::Lit(JsLit::Str(s)) => law_props_chain_reads(*obj, names, props_param,
                    if rightmost.is_none() { Some(s@) } else { rightmost }),
                _ => law_props_chain_reads(*obj, names, props_param, rightmost),
            },
            MemberKey::Private => {},
        },
        _ => {},
    }
}

} // verus!
