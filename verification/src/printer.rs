//! Prints inline expressions, patterns and arrow-body statements back to
//! JavaScript source, the TypeScript-only parts dropped, raising one
//! diagnostic (in source order) for each form the compiler does not support.

use vstd::prelude::*;
use crate::ast::ParserError;
use crate::script::{
    issue_of, issues_of, push_issue, unsupported_error, expr_kind_error, stmt_error,
    ArrowBody, Issue, JsExpr, JsLit, JsPat, JsStmt, MemberKey, ObjPatProp, ObjProp, PropKey,
    TplQuasi, Unsupported, VarKind, bin_op_text, expr_kind_issue, stmt_issue, unsupported_issue,
};
use crate::text::{Escape, escaped, push_escaped, push_str, chars_of, push_char, str_eq};
use crate::script::format_bin_op;

verus! {

/// Printed text with the diagnostics raised while printing it.
pub type Printed = (Seq<char>, Seq<Issue>);

/// A keyword operator (`typeof`, `void`, `delete`) is set off from its
/// operand by a space, so the printed code reads back as the same
/// expression; a symbol operator (`!`, `-`, `+`, `~`) is written against it.
pub open spec fn unary_text(op: Seq<char>) -> Seq<char> {
    if op == "typeof"@ || op == "void"@ || op == "delete"@ {
        op + " "@
    } else {
        op
    }
}

fn push_unary(out: &mut String, op: &str)
    ensures
        final(out)@ == old(out)@ + unary_text(op@),
{
    push_str(out, op);
    if str_eq(op, "typeof") || str_eq(op, "void") || str_eq(op, "delete") {
        push_str(out, " ");
    }
}

pub open spec fn txt(s: Seq<char>) -> Printed {
    (s, Seq::empty())
}

pub open spec fn cat(a: Printed, b: Printed) -> Printed {
    (a.0 + b.0, a.1 + b.1)
}

/// Text standing in for an unsupported form, with its diagnostic.
pub open spec fn flagged(s: Seq<char>, i: Issue) -> Printed {
    (s, seq![i])
}

/// `", "` before every list item but the first.
pub open spec fn sep(n: nat) -> Seq<char> {
    if n <= 1 { Seq::empty() } else { ", "@ }
}

/// The text of a template piece: its cooked value, else its raw source.
pub open spec fn quasi_text(q: TplQuasi) -> Seq<char> {
    match q.cooked {
        Some(c) => c@,
        None => q.raw@,
    }
}

/// How the `i`-th character of a template piece is written back: `\`
/// and `` ` `` escaped, and the `$` of a `${`.
pub open spec fn tpl_piece(s: Seq<char>, i: int) -> Seq<char> {
    if s[i] == '\\' {
        "\\\\"@
    } else if s[i] == '`' {
        "\\`"@
    } else if s[i] == '$' && i + 1 < s.len() && s[i + 1] == '{' {
        "\\$"@
    } else {
        seq![s[i]]
    }
}

pub open spec fn tpl_pieces(s: Seq<char>, n: int) -> Seq<char>
    decreases n,
{
    if n <= 0 { Seq::empty() } else { tpl_pieces(s, n - 1) + tpl_piece(s, n - 1) }
}

/// A template piece escaped for a template literal.
pub open spec fn tpl_escaped(s: Seq<char>) -> Seq<char> {
    tpl_pieces(s, s.len() as int)
}

pub open spec fn var_kind_text(k: VarKind) -> Seq<char> {
    match k {
        VarKind::Const => "const"@,
        VarKind::Let => "let"@,
        VarKind::Var => "var"@,
    }
}

pub open spec fn p_lit(l: JsLit) -> Printed {
    match l {
        JsLit::Str(s) => txt("'"@ + escaped(Escape::JsQuoteNewline, s@) + "'"@),
        JsLit::Num(s) => txt(s@),
        JsLit::Bool(b) => txt(if b { "true"@ } else { "false"@ }),
        JsLit::Null => txt("null"@),
        JsLit::Regex(e, f) => txt("/"@ + e@ + "/"@ + f@),
        JsLit::Other => flagged("undefined"@, unsupported_issue(Unsupported::OtherLiteral)),
    }
}

/// The printed form of an expression.
pub open spec fn p_expr(e: JsExpr) -> Printed
    decreases e,
{
    match e {
        JsExpr::Ident(s) => txt(s@),
        JsExpr::Member(obj, key) => cat(p_expr(*obj), p_key_access(key, false)),
        JsExpr::Lit(l) => p_lit(l),
        JsExpr::Call(callee, args) => cat(
            cat(
                match callee {
                    Some(c) => p_expr(*c),
                    None => flagged("/* callee */"@, unsupported_issue(Unsupported::SpecialCallee)),
                },
                txt("("@),
            ),
            cat(p_args(args@), txt(")"@)),
        ),
        JsExpr::Bin(op, l, r) => cat(cat(p_expr(*l), txt(" "@ + bin_op_text(op) + " "@)), p_expr(*r)),
        JsExpr::Unary(op, a) => cat(txt(unary_text(op@)), p_expr(*a)),
        JsExpr::Paren(x) => cat(cat(txt("("@), p_expr(*x)), txt(")"@)),
        JsExpr::Cond(t, c, a) => cat(
            cat(cat(cat(p_expr(*t), txt(" ? "@)), p_expr(*c)), txt(" : "@)),
            p_expr(*a),
        ),
        JsExpr::Arrow(params, body) => cat(cat(txt("("@), p_pats(params@)), p_arrow_body(body)),
        JsExpr::Array(elems) => cat(cat(txt("["@), p_elems(elems@)), txt("]"@)),
        JsExpr::Object(props) => cat(cat(txt("{ "@), p_props(props@)), txt(" }"@)),
        JsExpr::Tpl(parts) => cat(cat(txt("`"@), p_tpl(parts@)), txt("`"@)),
        JsExpr::OptMember(obj, key) => cat(p_expr(*obj), p_key_access(key, true)),
        JsExpr::OptCall(callee, args) => cat(
            cat(p_expr(*callee), txt("?.("@)),
            cat(p_args(args@), txt(")"@)),
        ),
        JsExpr::JsxElement(_) => flagged(
            "/* jsx element */"@,
            unsupported_issue(Unsupported::JsxElement),
        ),
        JsExpr::JsxFragment(_) => flagged(
            "/* jsx fragment */"@,
            unsupported_issue(Unsupported::JsxFragment),
        ),
        JsExpr::Unsupported(k) => flagged("/* expr */"@, expr_kind_issue(k)),
    }
}

/// The property side of a member access, `?.` when `opt`.
pub open spec fn p_key_access(key: MemberKey, opt: bool) -> Printed
    decreases key,
{
    match key {
        MemberKey::Ident(s) => txt((if opt { "?."@ } else { "."@ }) + s@),
        MemberKey::Computed(x) => cat(
            cat(txt(if opt { "?.["@ } else { "["@ }), p_expr(*x)),
            txt("]"@),
        ),
        MemberKey::Private => if opt {
            flagged("?.[?]"@, unsupported_issue(Unsupported::OptPrivateMember))
        } else {
            flagged("[?]"@, unsupported_issue(Unsupported::PrivateMember))
        },
    }
}

pub open spec fn p_arg(a: (bool, JsExpr)) -> Printed
    decreases a,
{
    cat(txt(if a.0 { "..."@ } else { Seq::empty() }), p_expr(a.1))
}

/// Call arguments, comma-separated.
pub open spec fn p_args(args: Seq<(bool, JsExpr)>) -> Printed
    decreases args,
{
    if args.len() == 0 {
        txt(Seq::empty())
    } else {
        cat(cat(p_args(args.drop_last()), txt(sep(args.len()))), p_arg(args.last()))
    }
}

pub open spec fn p_elem(el: Option<(bool, JsExpr)>) -> Printed
    decreases el,
{
    match el {
        Some(a) => p_arg(a),
        None => txt(Seq::empty()),
    }
}

/// Array elements, comma-separated; a hole prints as nothing.
pub open spec fn p_elems(elems: Seq<Option<(bool, JsExpr)>>) -> Printed
    decreases elems,
{
    if elems.len() == 0 {
        txt(Seq::empty())
    } else {
        cat(cat(p_elems(elems.drop_last()), txt(sep(elems.len()))), p_elem(elems.last()))
    }
}

pub open spec fn p_key(k: PropKey) -> Printed
    decreases k,
{
    match k {
        PropKey::Ident(s) => txt(s@),
        PropKey::Str(s) => txt("'"@ + s@ + "'"@),
        PropKey::Num(s) => txt(s@),
        PropKey::Computed(x) => cat(cat(txt("["@), p_expr(*x)), txt("]"@)),
        PropKey::Other => flagged("/* key */"@, unsupported_issue(Unsupported::OtherKey)),
    }
}

pub open spec fn p_prop(p: ObjProp) -> Printed
    decreases p,
{
    match p {
        ObjProp::KeyValue(k, v) => cat(cat(p_key(k), txt(": "@)), p_expr(v)),
        ObjProp::Shorthand(s) => txt(s@),
        ObjProp::Method => flagged("/* prop */"@, unsupported_issue(Unsupported::ObjectMethod)),
        ObjProp::Spread(x) => cat(txt("..."@), p_expr(x)),
    }
}

pub open spec fn p_props(props: Seq<ObjProp>) -> Printed
    decreases props,
{
    if props.len() == 0 {
        txt(Seq::empty())
    } else {
        cat(cat(p_props(props.drop_last()), txt(sep(props.len()))), p_prop(props.last()))
    }
}

pub open spec fn p_tpl_part(part: (TplQuasi, Option<JsExpr>)) -> Printed
    decreases part,
{
    cat(
        txt(tpl_escaped(quasi_text(part.0))),
        match part.1 {
            Some(x) => cat(cat(txt("${"@), p_expr(x)), txt("}"@)),
            None => txt(Seq::empty()),
        },
    )
}

pub open spec fn p_tpl(parts: Seq<(TplQuasi, Option<JsExpr>)>) -> Printed
    decreases parts,
{
    if parts.len() == 0 {
        txt(Seq::empty())
    } else {
        cat(p_tpl(parts.drop_last()), p_tpl_part(parts.last()))
    }
}

/// The printed form of a binding pattern.
pub open spec fn p_pat(p: JsPat) -> Printed
    decreases p,
{
    match p {
        JsPat::Ident(s) => txt(s@),
        JsPat::Object(props) => cat(cat(txt("{ "@), p_obj_pats(props@)), txt(" }"@)),
        JsPat::Array(elems) => cat(cat(txt("["@), p_pat_elems(elems@)), txt("]"@)),
        JsPat::Rest(x) => cat(txt("..."@), p_pat(*x)),
        JsPat::Assign(l, r) => cat(cat(p_pat(*l), txt(" = "@)), p_expr(*r)),
        JsPat::Other => flagged("_"@, unsupported_issue(Unsupported::ParamPattern)),
    }
}

pub open spec fn p_pats(ps: Seq<JsPat>) -> Printed
    decreases ps,
{
    if ps.len() == 0 {
        txt(Seq::empty())
    } else {
        cat(cat(p_pats(ps.drop_last()), txt(sep(ps.len()))), p_pat(ps.last()))
    }
}

pub open spec fn p_pat_elem(el: Option<JsPat>) -> Printed
    decreases el,
{
    match el {
        Some(p) => p_pat(p),
        None => txt(Seq::empty()),
    }
}

pub open spec fn p_pat_elems(elems: Seq<Option<JsPat>>) -> Printed
    decreases elems,
{
    if elems.len() == 0 {
        txt(Seq::empty())
    } else {
        cat(cat(p_pat_elems(elems.drop_last()), txt(sep(elems.len()))), p_pat_elem(elems.last()))
    }
}

pub open spec fn p_obj_pat(p: ObjPatProp) -> Printed
    decreases p,
{
    match p {
        ObjPatProp::KeyValue(k, v) => cat(cat(p_key(k), txt(": "@)), p_pat(v)),
        ObjPatProp::Assign(name, Some(v)) => cat(txt(name@ + " = "@), p_expr(v)),
        ObjPatProp::Assign(name, None) => txt(name@),
        ObjPatProp::Rest(x) => cat(txt("..."@), p_pat(x)),
    }
}

pub open spec fn p_obj_pats(ps: Seq<ObjPatProp>) -> Printed
    decreases ps,
{
    if ps.len() == 0 {
        txt(Seq::empty())
    } else {
        cat(cat(p_obj_pats(ps.drop_last()), txt(sep(ps.len()))), p_obj_pat(ps.last()))
    }
}

/// What follows an arrow's parameter list: `) => ` and the body.
pub open spec fn p_arrow_body(b: ArrowBody) -> Printed
    decreases b,
{
    match b {
        ArrowBody::Block(stmts) => cat(cat(txt(") => {\n"@), p_lines(stmts@)), txt("}"@)),
        ArrowBody::Expr(x) => cat(txt(") => "@), p_expr(*x)),
    }
}

/// Statements, each on its own line.
pub open spec fn p_lines(ss: Seq<JsStmt>) -> Printed
    decreases ss,
{
    if ss.len() == 0 {
        txt(Seq::empty())
    } else {
        cat(p_lines(ss.drop_last()), cat(p_stmt(ss.last()), txt("\n"@)))
    }
}

pub open spec fn p_decl(d: (Option<String>, Option<JsExpr>)) -> Printed
    decreases d,
{
    cat(
        match d.0 {
            Some(n) => txt(n@),
            None => flagged("_"@, unsupported_issue(Unsupported::VarPattern)),
        },
        match d.1 {
            Some(x) => cat(txt(" = "@), p_expr(x)),
            None => txt(Seq::empty()),
        },
    )
}

pub open spec fn p_decls(ds: Seq<(Option<String>, Option<JsExpr>)>) -> Printed
    decreases ds,
{
    if ds.len() == 0 {
        txt(Seq::empty())
    } else {
        cat(cat(p_decls(ds.drop_last()), txt(sep(ds.len()))), p_decl(ds.last()))
    }
}

/// The printed form of an arrow-body statement, indented by two spaces.
pub open spec fn p_stmt(s: JsStmt) -> Printed
    decreases s,
{
    match s {
        JsStmt::Expr(x) => cat(cat(txt("  "@), p_expr(x)), txt(";"@)),
        JsStmt::Return(Some(x)) => cat(cat(txt("  return "@), p_expr(x)), txt(";"@)),
        JsStmt::Return(None) => txt("  return;"@),
        JsStmt::Var { kind: k, decls: ds, .. } => cat(cat(txt("  "@ + var_kind_text(k) + " "@), p_decls(ds@)), txt(";"@)),
        JsStmt::If(t, c, a) => cat(
            cat(
                cat(cat(txt("  if ("@), p_expr(t)), txt(") "@)),
                match *c {
                    JsStmt::Block(ss) => cat(cat(txt("{\n"@), p_lines(ss@)), txt("}"@)),
                    _ => p_stmt(*c),
                },
            ),
            match a {
                Some(x) => cat(
                    txt(" else "@),
                    match *x {
                        JsStmt::Block(ss) => cat(cat(txt("{\n"@), p_lines(ss@)), txt("}"@)),
                        _ => p_stmt(*x),
                    },
                ),
                None => txt(Seq::empty()),
            },
        ),
        _ => flagged("  /* stmt */"@, stmt_issue(s)),
    }
}

/// A statement in block position: a block is printed as `{`, its lines
/// and `}`; any other statement as itself.
pub open spec fn p_block_like(s: JsStmt) -> Printed {
    match s {
        JsStmt::Block(ss) => cat(cat(txt("{\n"@), p_lines(ss@)), txt("}"@)),
        _ => p_stmt(s),
    }
}

/// `out`/`errs` are `out0`/`errs0` with the text and diagnostics of `p`
/// appended.
pub open spec fn appended(
    out: Seq<char>,
    errs: Seq<ParserError>,
    out0: Seq<char>,
    errs0: Seq<ParserError>,
    p: Printed,
) -> bool {
    out == out0 + p.0 && issues_of(errs) == issues_of(errs0) + p.1
}

/// Writes `s` in place of an unsupported form and records its diagnostic.
fn flag(out: &mut String, errors: &mut Vec<ParserError>, s: &str, e: ParserError)
    ensures
        appended(final(out)@, final(errors)@, old(out)@, old(errors)@, flagged(s@, issue_of(e))),
{
    push_str(out, s);
    push_issue(errors, e);
    assert(issues_of(old(errors)@).push(issue_of(e)) =~= issues_of(old(errors)@) + seq![issue_of(e)]);
}

pub fn print_lit(l: &JsLit, out: &mut String, errors: &mut Vec<ParserError>)
    ensures
        appended(final(out)@, final(errors)@, old(out)@, old(errors)@, p_lit(*l)),
{
    let ghost o0 = out@;
    match l {
        JsLit::Str(s) => {
            push_str(out, "'");
            push_escaped(out, s.as_str(), Escape::JsQuoteNewline);
            push_str(out, "'");
        },
        JsLit::Num(s) => {
            push_str(out, s.as_str());
        },
        JsLit::Bool(b) => {
            if *b {
                push_str(out, "true");
            } else {
                push_str(out, "false");
            }
        },
        JsLit::Null => {
            push_str(out, "null");
        },
        JsLit::Regex(e, f) => {
            push_str(out, "/");
            push_str(out, e.as_str());
            push_str(out, "/");
            push_str(out, f.as_str());
        },
        JsLit::Other => {
            flag(out, errors, "undefined", unsupported_error(Unsupported::OtherLiteral));
            return;
        },
    }
    assert(out@ =~= o0 + p_lit(*l).0);
    assert(issues_of(errors@) =~= issues_of(old(errors)@) + p_lit(*l).1);
}

/// Appends the printed form of `e`.
pub fn print_expr(e: &JsExpr, out: &mut String, errors: &mut Vec<ParserError>)
    ensures
        appended(final(out)@, final(errors)@, old(out)@, old(errors)@, p_expr(*e)),
    decreases e,
{
    let ghost o0 = out@;
    let ghost i0 = issues_of(errors@);
    match e {
        JsExpr::Ident(s) => {
            push_str(out, s.as_str());
        },
        JsExpr::Member(obj, key) => {
            print_expr(obj, out, errors);
            print_key_access(key, false, out, errors);
        },
        JsExpr::Lit(l) => {
            print_lit(l, out, errors);
        },
        JsExpr::Call(callee, args) => {
            match callee {
                Some(c) => print_expr(c, out, errors),
                None => flag(out, errors, "/* callee */", unsupported_error(Unsupported::SpecialCallee)),
            }
            push_str(out, "(");
            print_args(args, out, errors);
            push_str(out, ")");
        },
        JsExpr::Bin(op, l, r) => {
            print_expr(l, out, errors);
            push_str(out, " ");
            push_str(out, format_bin_op(*op));
            push_str(out, " ");
            print_expr(r, out, errors);
        },
        JsExpr::Unary(op, a) => {
            push_unary(out, op.as_str());
            print_expr(a, out, errors);
        },
        JsExpr::Paren(x) => {
            push_str(out, "(");
            print_expr(x, out, errors);
            push_str(out, ")");
        },
        JsExpr::Cond(t, c, a) => {
            print_expr(t, out, errors);
            push_str(out, " ? ");
            print_expr(c, out, errors);
            push_str(out, " : ");
            print_expr(a, out, errors);
        },
        JsExpr::Arrow(params, body) => {
            push_str(out, "(");
            print_pats(params, out, errors);
            print_arrow_body(body, out, errors);
        },
        JsExpr::Array(elems) => {
            push_str(out, "[");
            print_elems(elems, out, errors);
            push_str(out, "]");
        },
        JsExpr::Object(props) => {
            push_str(out, "{ ");
            print_props(props, out, errors);
            push_str(out, " }");
        },
        JsExpr::Tpl(parts) => {
            push_str(out, "`");
            print_tpl(parts, out, errors);
            push_str(out, "`");
        },
        JsExpr::OptMember(obj, key) => {
            print_expr(obj, out, errors);
            print_key_access(key, true, out, errors);
        },
        JsExpr::OptCall(callee, args) => {
            print_expr(callee, out, errors);
            push_str(out, "?.(");
            print_args(args, out, errors);
            push_str(out, ")");
        },
        JsExpr::JsxElement(_) => {
            flag(out, errors, "/* jsx element */", unsupported_error(Unsupported::JsxElement));
        },
        JsExpr::JsxFragment(_) => {
            flag(out, errors, "/* jsx fragment */", unsupported_error(Unsupported::JsxFragment));
        },
        JsExpr::Unsupported(k) => {
            flag(out, errors, "/* expr */", expr_kind_error(*k));
        },
    }
    assert(out@ =~= o0 + p_expr(*e).0);
    assert(issues_of(errors@) =~= i0 + p_expr(*e).1);
}

fn print_key_access(key: &MemberKey, opt: bool, out: &mut String, errors: &mut Vec<ParserError>)
    ensures
        appended(final(out)@, final(errors)@, old(out)@, old(errors)@, p_key_access(*key, opt)),
    decreases key,
{
    let ghost o0 = out@;
    let ghost i0 = issues_of(errors@);
    match key {
        MemberKey::Ident(s) => {
            if opt {
                push_str(out, "?.");
            } else {
                push_str(out, ".");
            }
            push_str(out, s.as_str());
        },
        MemberKey::Computed(x) => {
            if opt {
                push_str(out, "?.[");
            } else {
                push_str(out, "[");
            }
            print_expr(x, out, errors);
            push_str(out, "]");
        },
        MemberKey::Private => {
            if opt {
                flag(out, errors, "?.[?]", unsupported_error(Unsupported::OptPrivateMember));
            } else {
                flag(out, errors, "[?]", unsupported_error(Unsupported::PrivateMember));
            }
        },
    }
    assert(out@ =~= o0 + p_key_access(*key, opt).0);
    assert(issues_of(errors@) =~= i0 + p_key_access(*key, opt).1);
}

fn print_arg(a: &(bool, JsExpr), out: &mut String, errors: &mut Vec<ParserError>)
    ensures
        appended(final(out)@, final(errors)@, old(out)@, old(errors)@, p_arg(*a)),
    decreases a,
{
    let ghost o0 = out@;
    let ghost i0 = issues_of(errors@);
    if a.0 {
        push_str(out, "...");
    }
    print_expr(&a.1, out, errors);
    assert(out@ =~= o0 + p_arg(*a).0);
    assert(issues_of(errors@) =~= i0 + p_arg(*a).1);
}

fn print_args(items: &Vec<(bool, JsExpr)>, out: &mut String, errors: &mut Vec<ParserError>)
    ensures
        appended(final(out)@, final(errors)@, old(out)@, old(errors)@, p_args(items@)),
    decreases items,
{
    let ghost o0 = out@;
    let ghost i0 = issues_of(errors@);
    let mut i: usize = 0;
    assert(items@.take(0) =~= Seq::<(bool, JsExpr)>::empty());
    while i < items.len()
        invariant
            i <= items@.len(),
            out@ == o0 + p_args(items@.take(i as int)).0,
            issues_of(errors@) == i0 + p_args(items@.take(i as int)).1,
        decreases items.len() - i,
    {
        assert(items@.take(i + 1).drop_last() =~= items@.take(i as int));
        assert(items@.take(i + 1).last() == items@[i as int]);
        if i > 0 {
            push_str(out, ", ");
        }
        proof {
            assert(decreases_to!(items => items@[i as int]));
        }
        print_arg(&items[i], out, errors);
        assert(out@ =~= o0 + p_args(items@.take(i + 1)).0);
        assert(issues_of(errors@) =~= i0 + p_args(items@.take(i + 1)).1);
        i += 1;
    }
    assert(items@.take(items@.len() as int) =~= items@);
}

fn print_elems(items: &Vec<Option<(bool, JsExpr)>>, out: &mut String, errors: &mut Vec<ParserError>)
    ensures
        appended(final(out)@, final(errors)@, old(out)@, old(errors)@, p_elems(items@)),
    decreases items,
{
    let ghost o0 = out@;
    let ghost i0 = issues_of(errors@);
    let mut i: usize = 0;
    assert(items@.take(0) =~= Seq::<Option<(bool, JsExpr)>>::empty());
    while i < items.len()
        invariant
            i <= items@.len(),
            out@ == o0 + p_elems(items@.take(i as int)).0,
            issues_of(errors@) == i0 + p_elems(items@.take(i as int)).1,
        decreases items.len() - i,
    {
        assert(items@.take(i + 1).drop_last() =~= items@.take(i as int));
        assert(items@.take(i + 1).last() == items@[i as int]);
        if i > 0 {
            push_str(out, ", ");
        }
        proof {
            assert(decreases_to!(items => items@[i as int]));
        }
        print_elem(&items[i], out, errors);
        assert(out@ =~= o0 + p_elems(items@.take(i + 1)).0);
        assert(issues_of(errors@) =~= i0 + p_elems(items@.take(i + 1)).1);
        i += 1;
    }
    assert(items@.take(items@.len() as int) =~= items@);
}

fn print_props(items: &Vec<ObjProp>, out: &mut String, errors: &mut Vec<ParserError>)
    ensures
        appended(final(out)@, final(errors)@, old(out)@, old(errors)@, p_props(items@)),
    decreases items,
{
    let ghost o0 = out@;
    let ghost i0 = issues_of(errors@);
    let mut i: usize = 0;
    assert(items@.take(0) =~= Seq::<ObjProp>::empty());
    while i < items.len()
        invariant
            i <= items@.len(),
            out@ == o0 + p_props(items@.take(i as int)).0,
            issues_of(errors@) == i0 + p_props(items@.take(i as int)).1,
        decreases items.len() - i,
    {
        assert(items@.take(i + 1).drop_last() =~= items@.take(i as int));
        assert(items@.take(i + 1).last() == items@[i as int]);
        if i > 0 {
            push_str(out, ", ");
        }
        proof {
            assert(decreases_to!(items => items@[i as int]));
        }
        print_prop(&items[i], out, errors);
        assert(out@ =~= o0 + p_props(items@.take(i + 1)).0);
        assert(issues_of(errors@) =~= i0 + p_props(items@.take(i + 1)).1);
        i += 1;
    }
    assert(items@.take(items@.len() as int) =~= items@);
}

fn print_tpl(items: &Vec<(TplQuasi, Option<JsExpr>)>, out: &mut String, errors: &mut Vec<ParserError>)
    ensures
        appended(final(out)@, final(errors)@, old(out)@, old(errors)@, p_tpl(items@)),
    decreases items,
{
    let ghost o0 = out@;
    let ghost i0 = issues_of(errors@);
    let mut i: usize = 0;
    assert(items@.take(0) =~= Seq::<(TplQuasi, Option<JsExpr>)>::empty());
    while i < items.len()
        invariant
            i <= items@.len(),
            out@ == o0 + p_tpl(items@.take(i as int)).0,
            issues_of(errors@) == i0 + p_tpl(items@.take(i as int)).1,
        decreases items.len() - i,
    {
        assert(items@.take(i + 1).drop_last() =~= items@.take(i as int));
        assert(items@.take(i + 1).last() == items@[i as int]);
        proof {
            assert(decreases_to!(items => items@[i as int]));
        }
        print_tpl_part(&items[i], out, errors);
        assert(out@ =~= o0 + p_tpl(items@.take(i + 1)).0);
        assert(issues_of(errors@) =~= i0 + p_tpl(items@.take(i + 1)).1);
        i += 1;
    }
    assert(items@.take(items@.len() as int) =~= items@);
}

fn print_pats(items: &Vec<JsPat>, out: &mut String, errors: &mut Vec<ParserError>)
    ensures
        appended(final(out)@, final(errors)@, old(out)@, old(errors)@, p_pats(items@)),
    decreases items,
{
    let ghost o0 = out@;
    let ghost i0 = issues_of(errors@);
    let mut i: usize = 0;
    assert(items@.take(0) =~= Seq::<JsPat>::empty());
    while i < items.len()
        invariant
            i <= items@.len(),
            out@ == o0 + p_pats(items@.take(i as int)).0,
            issues_of(errors@) == i0 + p_pats(items@.take(i as int)).1,
        decreases items.len() - i,
    {
        assert(items@.take(i + 1).drop_last() =~= items@.take(i as int));
        assert(items@.take(i + 1).last() == items@[i as int]);
        if i > 0 {
            push_str(out, ", ");
        }
        proof {
            assert(decreases_to!(items => items@[i as int]));
        }
        print_pat(&items[i], out, errors);
        assert(out@ =~= o0 + p_pats(items@.take(i + 1)).0);
        assert(issues_of(errors@) =~= i0 + p_pats(items@.take(i + 1)).1);
        i += 1;
    }
    assert(items@.take(items@.len() as int) =~= items@);
}

fn print_pat_elems(items: &Vec<Option<JsPat>>, out: &mut String, errors: &mut Vec<ParserError>)
    ensures
        appended(final(out)@, final(errors)@, old(out)@, old(errors)@, p_pat_elems(items@)),
    decreases items,
{
    let ghost o0 = out@;
    let ghost i0 = issues_of(errors@);
    let mut i: usize = 0;
    assert(items@.take(0) =~= Seq::<Option<JsPat>>::empty());
    while i < items.len()
        invariant
            i <= items@.len(),
            out@ == o0 + p_pat_elems(items@.take(i as int)).0,
            issues_of(errors@) == i0 + p_pat_elems(items@.take(i as int)).1,
        decreases items.len() - i,
    {
        assert(items@.take(i + 1).drop_last() =~= items@.take(i as int));
        assert(items@.take(i + 1).last() == items@[i as int]);
        if i > 0 {
            push_str(out, ", ");
        }
        proof {
            assert(decreases_to!(items => items@[i as int]));
        }
        print_pat_elem(&items[i], out, errors);
        assert(out@ =~= o0 + p_pat_elems(items@.take(i + 1)).0);
        assert(issues_of(errors@) =~= i0 + p_pat_elems(items@.take(i + 1)).1);
        i += 1;
    }
    assert(items@.take(items@.len() as int) =~= items@);
}

fn print_obj_pats(items: &Vec<ObjPatProp>, out: &mut String, errors: &mut Vec<ParserError>)
    ensures
        appended(final(out)@, final(errors)@, old(out)@, old(errors)@, p_obj_pats(items@)),
    decreases items,
{
    let ghost o0 = out@;
    let ghost i0 = issues_of(errors@);
    let mut i: usize = 0;
    assert(items@.take(0) =~= Seq::<ObjPatProp>::empty());
    while i < items.len()
        invariant
            i <= items@.len(),
            out@ == o0 + p_obj_pats(items@.take(i as int)).0,
            issues_of(errors@) == i0 + p_obj_pats(items@.take(i as int)).1,
        decreases items.len() - i,
    {
        assert(items@.take(i + 1).drop_last() =~= items@.take(i as int));
        assert(items@.take(i + 1).last() == items@[i as int]);
        if i > 0 {
            push_str(out, ", ");
        }
        proof {
            assert(decreases_to!(items => items@[i as int]));
        }
        print_obj_pat(&items[i], out, errors);
        assert(out@ =~= o0 + p_obj_pats(items@.take(i + 1)).0);
        assert(issues_of(errors@) =~= i0 + p_obj_pats(items@.take(i + 1)).1);
        i += 1;
    }
    assert(items@.take(items@.len() as int) =~= items@);
}

fn print_decls(items: &Vec<(Option<String>, Option<JsExpr>)>, out: &mut String, errors: &mut Vec<ParserError>)
    ensures
        appended(final(out)@, final(errors)@, old(out)@, old(errors)@, p_decls(items@)),
    decreases items,
{
    let ghost o0 = out@;
    let ghost i0 = issues_of(errors@);
    let mut i: usize = 0;
    assert(items@.take(0) =~= Seq::<(Option<String>, Option<JsExpr>)>::empty());
    while i < items.len()
        invariant
            i <= items@.len(),
            out@ == o0 + p_decls(items@.take(i as int)).0,
            issues_of(errors@) == i0 + p_decls(items@.take(i as int)).1,
        decreases items.len() - i,
    {
        assert(items@.take(i + 1).drop_last() =~= items@.take(i as int));
        assert(items@.take(i + 1).last() == items@[i as int]);
        if i > 0 {
            push_str(out, ", ");
        }
        proof {
            assert(decreases_to!(items => items@[i as int]));
        }
        print_decl(&items[i], out, errors);
        assert(out@ =~= o0 + p_decls(items@.take(i + 1)).0);
        assert(issues_of(errors@) =~= i0 + p_decls(items@.take(i + 1)).1);
        i += 1;
    }
    assert(items@.take(items@.len() as int) =~= items@);
}

fn print_lines(items: &Vec<JsStmt>, out: &mut String, errors: &mut Vec<ParserError>)
    ensures
        appended(final(out)@, final(errors)@, old(out)@, old(errors)@, p_lines(items@)),
    decreases items,
{
    let ghost o0 = out@;
    let ghost i0 = issues_of(errors@);
    let mut i: usize = 0;
    assert(items@.take(0) =~= Seq::<JsStmt>::empty());
    while i < items.len()
        invariant
            i <= items@.len(),
            out@ == o0 + p_lines(items@.take(i as int)).0,
            issues_of(errors@) == i0 + p_lines(items@.take(i as int)).1,
        decreases items.len() - i,
    {
        assert(items@.take(i + 1).drop_last() =~= items@.take(i as int));
        assert(items@.take(i + 1).last() == items@[i as int]);
        proof {
            assert(decreases_to!(items => items@[i as int]));
        }
        print_stmt(&items[i], out, errors);
        push_str(out, "\n");
        assert(out@ =~= o0 + p_lines(items@.take(i + 1)).0);
        assert(issues_of(errors@) =~= i0 + p_lines(items@.take(i + 1)).1);
        i += 1;
    }
    assert(items@.take(items@.len() as int) =~= items@);
}

fn print_elem(el: &Option<(bool, JsExpr)>, out: &mut String, errors: &mut Vec<ParserError>)
    ensures
        appended(final(out)@, final(errors)@, old(out)@, old(errors)@, p_elem(*el)),
    decreases el,
{
    let ghost o0 = out@;
    let ghost i0 = issues_of(errors@);
    match el {
        Some(a) => print_arg(a, out, errors),
        None => {},
    }
    assert(out@ =~= o0 + p_elem(*el).0);
    assert(issues_of(errors@) =~= i0 + p_elem(*el).1);
}

fn print_key(k: &PropKey, out: &mut String, errors: &mut Vec<ParserError>)
    ensures
        appended(final(out)@, final(errors)@, old(out)@, old(errors)@, p_key(*k)),
    decreases k,
{
    let ghost o0 = out@;
    let ghost i0 = issues_of(errors@);
    match k {
        PropKey::Ident(s) => push_str(out, s.as_str()),
        PropKey::Str(s) => {
            push_str(out, "'");
            push_str(out, s.as_str());
            push_str(out, "'");
        },
        PropKey::Num(s) => push_str(out, s.as_str()),
        PropKey::Computed(x) => {
            push_str(out, "[");
            print_expr(x, out, errors);
            push_str(out, "]");
        },
        PropKey::Other => {
            flag(out, errors, "/* key */", unsupported_error(Unsupported::OtherKey));
        },
    }
    assert(out@ =~= o0 + p_key(*k).0);
    assert(issues_of(errors@) =~= i0 + p_key(*k).1);
}

fn print_prop(p: &ObjProp, out: &mut String, errors: &mut Vec<ParserError>)
    ensures
        appended(final(out)@, final(errors)@, old(out)@, old(errors)@, p_prop(*p)),
    decreases p,
{
    let ghost o0 = out@;
    let ghost i0 = issues_of(errors@);
    match p {
        ObjProp::KeyValue(k, v) => {
            print_key(k, out, errors);
            push_str(out, ": ");
            print_expr(v, out, errors);
        },
        ObjProp::Shorthand(s) => push_str(out, s.as_str()),
        ObjProp::Method => {
            flag(out, errors, "/* prop */", unsupported_error(Unsupported::ObjectMethod));
        },
        ObjProp::Spread(x) => {
            push_str(out, "...");
            print_expr(x, out, errors);
        },
    }
    assert(out@ =~= o0 + p_prop(*p).0);
    assert(issues_of(errors@) =~= i0 + p_prop(*p).1);
}

/// Appends a template piece, escaped.
fn push_tpl_escaped(out: &mut String, s: &str)
    ensures
        final(out)@ == old(out)@ + tpl_escaped(s@),
{
    let cs = chars_of(s);
    let ghost o0 = out@;
    let mut i: usize = 0;
    while i < cs.len()
        invariant
            cs@ == s@,
            i <= cs@.len(),
            out@ == o0 + tpl_pieces(s@, i as int),
        decreases cs.len() - i,
    {
        let c = cs[i];
        if c == '\\' {
            push_str(out, "\\\\");
        } else if c == '`' {
            push_str(out, "\\`");
        } else if c == '$' && i + 1 < cs.len() && cs[i + 1] == '{' {
            push_str(out, "\\$");
        } else {
            push_char(out, c);
            assert(seq![c] =~= tpl_piece(s@, i as int));
        }
        assert(out@ =~= o0 + tpl_pieces(s@, i + 1));
        i += 1;
    }
}

fn print_tpl_part(part: &(TplQuasi, Option<JsExpr>), out: &mut String, errors: &mut Vec<ParserError>)
    ensures
        appended(final(out)@, final(errors)@, old(out)@, old(errors)@, p_tpl_part(*part)),
    decreases part,
{
    let ghost o0 = out@;
    let ghost i0 = issues_of(errors@);
    match &part.0.cooked {
        Some(c) => push_tpl_escaped(out, c.as_str()),
        None => push_tpl_escaped(out, part.0.raw.as_str()),
    }
    match &part.1 {
        Some(x) => {
            push_str(out, "${");
            print_expr(x, out, errors);
            push_str(out, "}");
        },
        None => {},
    }
    assert(out@ =~= o0 + p_tpl_part(*part).0);
    assert(issues_of(errors@) =~= i0 + p_tpl_part(*part).1);
}

/// Appends the printed form of a binding pattern.
pub fn print_pat(p: &JsPat, out: &mut String, errors: &mut Vec<ParserError>)
    ensures
        appended(final(out)@, final(errors)@, old(out)@, old(errors)@, p_pat(*p)),
    decreases p,
{
    let ghost o0 = out@;
    let ghost i0 = issues_of(errors@);
    match p {
        JsPat::Ident(s) => push_str(out, s.as_str()),
        JsPat::Object(props) => {
            push_str(out, "{ ");
            print_obj_pats(props, out, errors);
            push_str(out, " }");
        },
        JsPat::Array(elems) => {
            push_str(out, "[");
            print_pat_elems(elems, out, errors);
            push_str(out, "]");
        },
        JsPat::Rest(x) => {
            push_str(out, "...");
            print_pat(x, out, errors);
        },
        JsPat::Assign(l, r) => {
            print_pat(l, out, errors);
            push_str(out, " = ");
            print_expr(r, out, errors);
        },
        JsPat::Other => {
            flag(out, errors, "_", unsupported_error(Unsupported::ParamPattern));
        },
    }
    assert(out@ =~= o0 + p_pat(*p).0);
    assert(issues_of(errors@) =~= i0 + p_pat(*p).1);
}

fn print_pat_elem(el: &Option<JsPat>, out: &mut String, errors: &mut Vec<ParserError>)
    ensures
        appended(final(out)@, final(errors)@, old(out)@, old(errors)@, p_pat_elem(*el)),
    decreases el,
{
    let ghost o0 = out@;
    let ghost i0 = issues_of(errors@);
    match el {
        Some(x) => print_pat(x, out, errors),
        None => {},
    }
    assert(out@ =~= o0 + p_pat_elem(*el).0);
    assert(issues_of(errors@) =~= i0 + p_pat_elem(*el).1);
}

fn print_obj_pat(p: &ObjPatProp, out: &mut String, errors: &mut Vec<ParserError>)
    ensures
        appended(final(out)@, final(errors)@, old(out)@, old(errors)@, p_obj_pat(*p)),
    decreases p,
{
    let ghost o0 = out@;
    let ghost i0 = issues_of(errors@);
    match p {
        ObjPatProp::KeyValue(k, v) => {
            print_key(k, out, errors);
            push_str(out, ": ");
            print_pat(v, out, errors);
        },
        ObjPatProp::Assign(name, value) => {
            push_str(out, name.as_str());
            match value {
                Some(v) => {
                    push_str(out, " = ");
                    print_expr(v, out, errors);
                },
                None => {},
            }
        },
        ObjPatProp::Rest(x) => {
            push_str(out, "...");
            print_pat(x, out, errors);
        },
    }
    assert(out@ =~= o0 + p_obj_pat(*p).0);
    assert(issues_of(errors@) =~= i0 + p_obj_pat(*p).1);
}

fn print_arrow_body(b: &ArrowBody, out: &mut String, errors: &mut Vec<ParserError>)
    ensures
        appended(final(out)@, final(errors)@, old(out)@, old(errors)@, p_arrow_body(*b)),
    decreases b,
{
    let ghost o0 = out@;
    let ghost i0 = issues_of(errors@);
    match b {
        ArrowBody::Block(stmts) => {
            push_str(out, ") => {\n");
            print_lines(stmts, out, errors);
            push_str(out, "}");
        },
        ArrowBody::Expr(x) => {
            push_str(out, ") => ");
            print_expr(x, out, errors);
        },
    }
    assert(out@ =~= o0 + p_arrow_body(*b).0);
    assert(issues_of(errors@) =~= i0 + p_arrow_body(*b).1);
}

fn print_decl(d: &(Option<String>, Option<JsExpr>), out: &mut String, errors: &mut Vec<ParserError>)
    ensures
        appended(final(out)@, final(errors)@, old(out)@, old(errors)@, p_decl(*d)),
    decreases d,
{
    let ghost o0 = out@;
    let ghost i0 = issues_of(errors@);
    match &d.0 {
        Some(n) => push_str(out, n.as_str()),
        None => flag(out, errors, "_", unsupported_error(Unsupported::VarPattern)),
    }
    match &d.1 {
        Some(x) => {
            push_str(out, " = ");
            print_expr(x, out, errors);
        },
        None => {},
    }
    assert(out@ =~= o0 + p_decl(*d).0);
    assert(issues_of(errors@) =~= i0 + p_decl(*d).1);
}

/// Appends the printed form of an arrow-body statement.
#[verifier::rlimit(50)]
pub fn print_stmt(s: &JsStmt, out: &mut String, errors: &mut Vec<ParserError>)
    ensures
        appended(final(out)@, final(errors)@, old(out)@, old(errors)@, p_stmt(*s)),
    decreases s,
{
    let ghost o0 = out@;
    let ghost i0 = issues_of(errors@);
    match s {
        JsStmt::Expr(x) => {
            push_str(out, "  ");
            print_expr(x, out, errors);
            push_str(out, ";");
        },
        JsStmt::Return(Some(x)) => {
            push_str(out, "  return ");
            print_expr(x, out, errors);
            push_str(out, ";");
        },
        JsStmt::Return(None) => push_str(out, "  return;"),
        JsStmt::Var { kind: k, decls: ds, .. } => {
            push_str(out, "  ");
            match k {
                VarKind::Const => push_str(out, "const"),
                VarKind::Let => push_str(out, "let"),
                VarKind::Var => push_str(out, "var"),
            }
            push_str(out, " ");
            print_decls(ds, out, errors);
            push_str(out, ";");
        },
        JsStmt::If(t, c, a) => {
            push_str(out, "  if (");
            print_expr(t, out, errors);
            push_str(out, ") ");
            match &**c {
                JsStmt::Block(ss) => {
                    push_str(out, "{\n");
                    print_lines(ss, out, errors);
                    push_str(out, "}");
                },
                _ => print_stmt(c, out, errors),
            }
            match a {
                Some(x) => {
                    push_str(out, " else ");
                    match &**x {
                        JsStmt::Block(ss) => {
                            push_str(out, "{\n");
                            print_lines(ss, out, errors);
                            push_str(out, "}");
                        },
                        _ => print_stmt(x, out, errors),
                    }
                },
                None => {},
            }
        },
        _ => {
            flag(out, errors, "  /* stmt */", stmt_error(s));
        },
    }
    assert(out@ =~= o0 + p_stmt(*s).0);
    assert(issues_of(errors@) =~= i0 + p_stmt(*s).1);
}

/// The source text of an inline expression. Each unsupported form is
/// written as a placeholder and reported in `errors`, in source order.
pub fn format_jsx_expr(expr: &JsExpr, errors: &mut Vec<ParserError>) -> (r: String)
    ensures
        r@ == p_expr(*expr).0,
        issues_of(final(errors)@) == issues_of(old(errors)@) + p_expr(*expr).1,
{
    let mut out = String::new();
    print_expr(expr, &mut out, errors);
    assert(out@ =~= p_expr(*expr).0);
    out
}

/// The source text of a binding pattern.
pub fn format_pat(pat: &JsPat, errors: &mut Vec<ParserError>) -> (r: String)
    ensures
        r@ == p_pat(*pat).0,
        issues_of(final(errors)@) == issues_of(old(errors)@) + p_pat(*pat).1,
{
    let mut out = String::new();
    print_pat(pat, &mut out, errors);
    assert(out@ =~= p_pat(*pat).0);
    out
}

/// The source text of an arrow-body statement, indented by two spaces.
pub fn format_stmt(stmt: &JsStmt, errors: &mut Vec<ParserError>) -> (r: String)
    ensures
        r@ == p_stmt(*stmt).0,
        issues_of(final(errors)@) == issues_of(old(errors)@) + p_stmt(*stmt).1,
{
    let mut out = String::new();
    print_stmt(stmt, &mut out, errors);
    assert(out@ =~= p_stmt(*stmt).0);
    out
}

/// The source text of a statement in block position (an `if` branch).
pub fn format_block_like(stmt: &JsStmt, errors: &mut Vec<ParserError>) -> (r: String)
    ensures
        r@ == p_block_like(*stmt).0,
        issues_of(final(errors)@) == issues_of(old(errors)@) + p_block_like(*stmt).1,
{
    let mut out = String::new();
    let ghost i0 = issues_of(errors@);
    match stmt {
        JsStmt::Block(ss) => {
            push_str(&mut out, "{\n");
            print_lines(ss, &mut out, errors);
            push_str(&mut out, "}");
            assert(out@ =~= p_block_like(*stmt).0);
            assert(issues_of(errors@) =~= i0 + p_block_like(*stmt).1);
        },
        _ => {
            print_stmt(stmt, &mut out, errors);
            assert(out@ =~= p_block_like(*stmt).0);
        },
    }
    out
}

} // verus!
