//! The inline JavaScript/TypeScript a component source may hold (prop
//! initializers, attribute and text expressions, event-handler arrows), as
//! the front end reads it off the syntax tree, and the diagnostics raised for
//! the forms the compiler does not support.

use vstd::prelude::*;
use crate::ast::ParserError;
use crate::text::owned;

verus! {

/// An expression.
pub enum JsExpr {
    Ident(String),
    /// `obj.key`, `obj[key]`, `obj.#key`.
    Member(Box<JsExpr>, MemberKey),
    Lit(JsLit),
    /// A call; the callee is `None` for `super(..)` and `import(..)`. Each
    /// argument carries whether it is spread.
    Call(Option<Box<JsExpr>>, Vec<(bool, JsExpr)>),
    Bin(BinOp, Box<JsExpr>, Box<JsExpr>),
    /// A prefix operator, by its source text, and its operand.
    Unary(String, Box<JsExpr>),
    Paren(Box<JsExpr>),
    Cond(Box<JsExpr>, Box<JsExpr>, Box<JsExpr>),
    Arrow(Vec<JsPat>, ArrowBody),
    /// Array elements; `None` is a hole.
    Array(Vec<Option<(bool, JsExpr)>>),
    Object(Vec<ObjProp>),
    /// A template literal: each text piece with the expression that follows
    /// it, if any.
    Tpl(Vec<(TplQuasi, Option<JsExpr>)>),
    /// `obj?.key`, `obj?.[key]`.
    OptMember(Box<JsExpr>, MemberKey),
    /// `callee?.(args)`.
    OptCall(Box<JsExpr>, Vec<(bool, JsExpr)>),
    JsxElement(Box<JsxElem>),
    /// A fragment `<>..</>` and its children.
    JsxFragment(Vec<JsxChild>),
    /// Any other expression form.
    Unsupported(ExprKind),
}

/// A JSX element: its name, attributes and children.
pub struct JsxElem {
    pub name: JsxName,
    pub attrs: Vec<JsxAttrItem>,
    pub children: Vec<JsxChild>,
}

pub enum JsxName {
    Ident(String),
    /// `a.b.c`
    Member(JsxMember),
    /// `ns:name`
    Namespaced(String, String),
}

/// A dotted element name: what stands left of the last dot, and the last
/// name.
pub struct JsxMember {
    pub obj: JsxObject,
    pub prop: String,
}

pub enum JsxObject {
    Ident(String),
    Member(Box<JsxMember>),
}

pub enum JsxAttrItem {
    /// `name`, `name="v"` or `name={e}`; `contains_env_call` tells whether
    /// an `env()` call occurs anywhere inside the value's expression.
    Attr { name: JsxAttrName, value: Option<JsxAttrVal>, contains_env_call: bool },
    /// `{...props}`
    Spread,
}

pub enum JsxAttrName {
    Ident(String),
    Namespaced(String, String),
}

pub enum JsxAttrVal {
    Lit(JsLit),
    Expr(JsExpr),
    /// `name={}`
    Empty,
    Element,
    Fragment,
}

pub enum JsxChild {
    Element(JsxElem),
    Fragment(Vec<JsxChild>),
    /// Raw JSX text.
    Text(String),
    Expr(JsExpr),
    /// `{}` or `{/* comment */}`
    Empty,
    /// `{...x}`
    Spread,
}

/// The property side of a member access.
pub enum MemberKey {
    Ident(String),
    Computed(Box<JsExpr>),
    /// A `#private` name.
    Private,
}

pub enum JsLit {
    Str(String),
    /// A number, by the text of its value.
    Num(String),
    Bool(bool),
    Null,
    /// A regular expression: pattern and flags.
    Regex(String, String),
    /// A BigInt or any other literal kind.
    Other,
}

#[derive(Clone, Copy, PartialEq, Eq)]
pub enum BinOp {
    EqEq,
    NotEq,
    EqEqEq,
    NotEqEq,
    Lt,
    LtEq,
    Gt,
    GtEq,
    LShift,
    RShift,
    ZeroFillRShift,
    Add,
    Sub,
    Mul,
    Div,
    Mod,
    BitOr,
    BitXor,
    BitAnd,
    LogicalOr,
    LogicalAnd,
    In,
    InstanceOf,
    Exp,
    NullishCoalescing,
}

/// A property of an object literal.
pub enum ObjProp {
    KeyValue(PropKey, JsExpr),
    Shorthand(String),
    /// A method, getter, setter or other non-`key: value` property.
    Method,
    Spread(JsExpr),
}

pub enum PropKey {
    Ident(String),
    Str(String),
    /// A numeric key, by the text of its value.
    Num(String),
    Computed(Box<JsExpr>),
    /// A BigInt key.
    Other,
}

/// A text piece of a template literal: its cooked value when it has one,
/// and its raw source.
pub struct TplQuasi {
    pub cooked: Option<String>,
    pub raw: String,
}

pub enum ArrowBody {
    Block(Vec<JsStmt>),
    Expr(Box<JsExpr>),
}

#[derive(Clone, Copy, PartialEq, Eq)]
pub enum VarKind {
    Const,
    Let,
    Var,
}

/// A statement.
pub enum JsStmt {
    Expr(JsExpr),
    Return(Option<JsExpr>),
    /// Declarators: the bound name (`None` for a destructuring pattern) and
    /// the initializer; and the declaration's source text with the type
    /// annotations taken out when the front end could read it.
    Var { kind: VarKind, decls: Vec<(Option<String>, Option<JsExpr>)>, source: Option<String> },
    If(JsExpr, Box<JsStmt>, Option<Box<JsStmt>>),
    Block(Vec<JsStmt>),
    /// A function declaration, with its body when it has one, and its source
    /// text with the type annotations taken out when the front end could
    /// read it.
    FnDecl { body: Option<Vec<JsStmt>>, source: Option<String> },
    /// Any other declaration (class, type, enum, ...).
    OtherDecl,
    Other(StmtKind),
}

/// The statement forms that are neither expressions, returns, variable
/// declarations, `if`, blocks nor declarations.
#[derive(Clone, Copy, PartialEq, Eq)]
pub enum StmtKind {
    Empty,
    Debugger,
    With,
    While,
    DoWhile,
    For,
    ForIn,
    ForOf,
    Switch,
    Labeled,
    Break,
    Continue,
    Throw,
    Try,
    Unrecognized,
}

/// A binding pattern (arrow parameters).
pub enum JsPat {
    Ident(String),
    Object(Vec<ObjPatProp>),
    Array(Vec<Option<JsPat>>),
    Rest(Box<JsPat>),
    Assign(Box<JsPat>, Box<JsExpr>),
    Other,
}

pub enum ObjPatProp {
    KeyValue(PropKey, JsPat),
    /// A shorthand binding with its default value, if any.
    Assign(String, Option<JsExpr>),
    Rest(JsPat),
}

/// The expression forms the compiler does not accept inline.
#[derive(Clone, Copy, PartialEq, Eq)]
pub enum ExprKind {
    TaggedTpl,
    New,
    Update,
    Assign,
    Sequence,
    Await,
    Yield,
    Class,
    MetaProp,
    SuperProp,
    PrivateName,
    Invalid,
    This,
    Fn,
    /// Type assertions, `as`, `satisfies`, non-null and instantiation.
    TsOnly,
    /// JSX member, namespaced-name and empty expressions.
    JsxOnly,
}

pub const UNSUPPORTED_EXPRESSION: &'static str = "UNSUPPORTED_EXPRESSION";
pub const UNSUPPORTED_SYNTAX: &'static str = "UNSUPPORTED_SYNTAX";
pub const UNSUPPORTED_STATEMENT: &'static str = "UNSUPPORTED_STATEMENT";
pub const UNSUPPORTED_JSX_CONSTRUCT: &'static str = "UNSUPPORTED_JSX_CONSTRUCT";

/// A diagnostic by its views: code, message and fix hint.
pub type Issue = (Seq<char>, Seq<char>, Seq<char>);

pub open spec fn issue_of(e: ParserError) -> Issue {
    (e.code@, e.message@, e.fix_hint@)
}

pub open spec fn issues_of(v: Seq<ParserError>) -> Seq<Issue> {
    v.map_values(|e: ParserError| issue_of(e))
}

/// A diagnostic with a fixed text.
fn fixed_issue(code: &'static str, message: &'static str, fix_hint: &'static str) -> (r: ParserError)
    ensures
        issue_of(r) == (code@, message@, fix_hint@),
{
    ParserError { code, message: owned(message), fix_hint }
}

/// Appends `e` to the diagnostics.
pub fn push_issue(errors: &mut Vec<ParserError>, e: ParserError)
    ensures
        issues_of(final(errors)@) == issues_of(old(errors)@).push(issue_of(e)),
{
    errors.push(e);
    assert(issues_of(errors@) =~= issues_of(old(errors)@).push(issue_of(e)));
}

/// Message and fix hint for an unsupported expression form.
pub open spec fn expr_kind_text(k: ExprKind) -> (Seq<char>, Seq<char>) {
    match k {
        ExprKind::TaggedTpl => ("Tagged template literals are not yet supported."@,
            "Use a regular function call instead."@),
        ExprKind::New => ("The 'new' operator is not yet supported in expression position."@,
            "Use a factory function instead."@),
        ExprKind::Update => ("Update expressions (++/--) are not yet supported."@,
            "Use explicit assignment instead."@),
        ExprKind::Assign => ("Assignment expressions (=, +=, etc.) are not yet supported in inline expressions."@,
            "Perform the assignment before the expression."@),
        ExprKind::Sequence => ("Comma-separated expressions are not yet supported."@,
            "Split into separate statements or use a helper function."@),
        ExprKind::Await => ("Await expressions are not yet supported in inline expressions."@,
            "Move the await to a separate variable assignment before the JSX."@),
        ExprKind::Yield => ("Yield expressions are not yet supported in inline expressions."@,
            "Move the yield to a separate statement."@),
        ExprKind::Class => ("Class expressions are not yet supported."@,
            "Define the class as a regular declaration or use an object."@),
        ExprKind::MetaProp => ("Meta property (e.g. new.target) is not yet supported."@,
            "Not applicable."@),
        ExprKind::SuperProp => ("super.prop access is not yet supported."@,
            "Access the property directly."@),
        ExprKind::PrivateName => ("Private name (#X) is not yet supported in expression context."@,
            "Use a regular property instead."@),
        ExprKind::Invalid => ("Invalid expression found — this may indicate a parser error."@,
            "Check syntax and try a simpler expression."@),
        ExprKind::This => ("'this' is not yet supported in inline expressions — components should be pure functions."@,
            "Pass the value through props or signal()."@),
        ExprKind::Fn => ("Function expressions are not yet supported in inline expressions."@,
            "Define the function as a named declaration in the component body."@),
        ExprKind::TsOnly => ("TypeScript-only expressions (type assertions, satisfies, etc.) should be stripped by the parser."@,
            "Remove type annotations from expressions. Use them in declarations only."@),
        ExprKind::JsxOnly => ("JSX-specific expression found outside JSX context."@,
            "Move this expression inside JSX children or attributes."@),
    }
}

/// The diagnostic for an unsupported expression form.
pub open spec fn expr_kind_issue(k: ExprKind) -> Issue {
    (UNSUPPORTED_EXPRESSION@, expr_kind_text(k).0, expr_kind_text(k).1)
}

pub fn expr_kind_error(k: ExprKind) -> (r: ParserError)
    ensures
        issue_of(r) == expr_kind_issue(k),
{
    match k {
        ExprKind::TaggedTpl => fixed_issue(UNSUPPORTED_EXPRESSION,
            "Tagged template literals are not yet supported.",
            "Use a regular function call instead."),
        ExprKind::New => fixed_issue(UNSUPPORTED_EXPRESSION,
            "The 'new' operator is not yet supported in expression position.",
            "Use a factory function instead."),
        ExprKind::Update => fixed_issue(UNSUPPORTED_EXPRESSION,
            "Update expressions (++/--) are not yet supported.",
            "Use explicit assignment instead."),
        ExprKind::Assign => fixed_issue(UNSUPPORTED_EXPRESSION,
            "Assignment expressions (=, +=, etc.) are not yet supported in inline expressions.",
            "Perform the assignment before the expression."),
        ExprKind::Sequence => fixed_issue(UNSUPPORTED_EXPRESSION,
            "Comma-separated expressions are not yet supported.",
            "Split into separate statements or use a helper function."),
        ExprKind::Await => fixed_issue(UNSUPPORTED_EXPRESSION,
            "Await expressions are not yet supported in inline expressions.",
            "Move the await to a separate variable assignment before the JSX."),
        ExprKind::Yield => fixed_issue(UNSUPPORTED_EXPRESSION,
            "Yield expressions are not yet supported in inline expressions.",
            "Move the yield to a separate statement."),
        ExprKind::Class => fixed_issue(UNSUPPORTED_EXPRESSION,
            "Class expressions are not yet supported.",
            "Define the class as a regular declaration or use an object."),
        ExprKind::MetaProp => fixed_issue(UNSUPPORTED_EXPRESSION,
            "Meta property (e.g. new.target) is not yet supported.",
            "Not applicable."),
        ExprKind::SuperProp => fixed_issue(UNSUPPORTED_EXPRESSION,
            "super.prop access is not yet supported.",
            "Access the property directly."),
        ExprKind::PrivateName => fixed_issue(UNSUPPORTED_EXPRESSION,
            "Private name (#X) is not yet supported in expression context.",
            "Use a regular property instead."),
        ExprKind::Invalid => fixed_issue(UNSUPPORTED_EXPRESSION,
            "Invalid expression found — this may indicate a parser error.",
            "Check syntax and try a simpler expression."),
        ExprKind::This => fixed_issue(UNSUPPORTED_EXPRESSION,
            "'this' is not yet supported in inline expressions — components should be pure functions.",
            "Pass the value through props or signal()."),
        ExprKind::Fn => fixed_issue(UNSUPPORTED_EXPRESSION,
            "Function expressions are not yet supported in inline expressions.",
            "Define the function as a named declaration in the component body."),
        ExprKind::TsOnly => fixed_issue(UNSUPPORTED_EXPRESSION,
            "TypeScript-only expressions (type assertions, satisfies, etc.) should be stripped by the parser.",
            "Remove type annotations from expressions. Use them in declarations only."),
        ExprKind::JsxOnly => fixed_issue(UNSUPPORTED_EXPRESSION,
            "JSX-specific expression found outside JSX context.",
            "Move this expression inside JSX children or attributes."),
    }
}

/// The other fixed diagnostics of the expression printer.
#[derive(Clone, Copy, PartialEq, Eq)]
pub enum Unsupported {
    JsxElement,
    JsxFragment,
    ObjectMethod,
    PrivateMember,
    OptPrivateMember,
    SpecialCallee,
    OtherLiteral,
    OtherKey,
    VarPattern,
    ParamPattern,
    AttrElement,
    AttrFragment,
    SpreadAttr,
    SpreadChild,
}

pub open spec fn unsupported_issue(u: Unsupported) -> Issue {
    match u {
        Unsupported::JsxElement => (UNSUPPORTED_EXPRESSION@,
            "JSX elements are not supported in expression position (e.g., as prop initializers)."@,
            "Wrap in a helper function or use a conditional {cond ? <X/> : null} in the JSX tree instead."@),
        Unsupported::JsxFragment => (UNSUPPORTED_EXPRESSION@,
            "JSX fragments are not supported in expression position."@,
            "Wrap in a helper function or use <></> directly in the JSX tree."@),
        Unsupported::ObjectMethod => (UNSUPPORTED_SYNTAX@,
            "Method, getter, or setter shorthand in an object literal is not yet supported."@,
            "Use a plain key: value pair instead."@),
        Unsupported::PrivateMember => (UNSUPPORTED_EXPRESSION@,
            "Private member access (#X) is not yet supported."@,
            "Use a regular property instead."@),
        Unsupported::OptPrivateMember => (UNSUPPORTED_EXPRESSION@,
            "Private member access in optional chain is not yet supported."@,
            "Use a regular property instead."@),
        Unsupported::SpecialCallee => (UNSUPPORTED_EXPRESSION@,
            "super() or import() calls are not yet supported."@,
            "Use a regular function call instead."@),
        Unsupported::OtherLiteral => (UNSUPPORTED_EXPRESSION@,
            "BigInt literals are not yet supported."@,
            "Use a Number or String instead."@),
        Unsupported::OtherKey => (UNSUPPORTED_SYNTAX@,
            "BigInt property keys are not yet supported."@,
            "Use a string or identifier property key instead."@),
        Unsupported::VarPattern => (UNSUPPORTED_SYNTAX@,
            "Destructured or complex variable declarations are not yet supported in arrow function bodies."@,
            "Use a simple identifier declaration instead."@),
        Unsupported::ParamPattern => (UNSUPPORTED_SYNTAX@,
            "Unrecognized parameter pattern is not yet supported."@,
            "Use a simple identifier parameter instead."@),
        Unsupported::AttrElement => (UNSUPPORTED_JSX_CONSTRUCT@,
            "JSX elements as attribute values are not yet supported."@,
            "Render the element as a child instead."@),
        Unsupported::AttrFragment => (UNSUPPORTED_JSX_CONSTRUCT@,
            "JSX fragments as attribute values are not yet supported."@,
            "Render the fragment as a child instead."@),
        Unsupported::SpreadAttr => (UNSUPPORTED_JSX_CONSTRUCT@,
            "JSX spread attributes ({...props}) are not yet supported."@,
            "Pass each prop explicitly: <Component propA={a} propB={b}>."@),
        Unsupported::SpreadChild => (UNSUPPORTED_JSX_CONSTRUCT@,
            "JSX spread children ({...X}) are not yet supported."@,
            "Use <For> to iterate, or render each child explicitly."@),
    }
}

pub fn unsupported_error(u: Unsupported) -> (r: ParserError)
    ensures
        issue_of(r) == unsupported_issue(u),
{
    match u {
        Unsupported::JsxElement => fixed_issue(UNSUPPORTED_EXPRESSION,
            "JSX elements are not supported in expression position (e.g., as prop initializers).",
            "Wrap in a helper function or use a conditional {cond ? <X/> : null} in the JSX tree instead."),
        Unsupported::JsxFragment => fixed_issue(UNSUPPORTED_EXPRESSION,
            "JSX fragments are not supported in expression position.",
            "Wrap in a helper function or use <></> directly in the JSX tree."),
        Unsupported::ObjectMethod => fixed_issue(UNSUPPORTED_SYNTAX,
            "Method, getter, or setter shorthand in an object literal is not yet supported.",
            "Use a plain key: value pair instead."),
        Unsupported::PrivateMember => fixed_issue(UNSUPPORTED_EXPRESSION,
            "Private member access (#X) is not yet supported.",
            "Use a regular property instead."),
        Unsupported::OptPrivateMember => fixed_issue(UNSUPPORTED_EXPRESSION,
            "Private member access in optional chain is not yet supported.",
            "Use a regular property instead."),
        Unsupported::SpecialCallee => fixed_issue(UNSUPPORTED_EXPRESSION,
            "super() or import() calls are not yet supported.",
            "Use a regular function call instead."),
        Unsupported::OtherLiteral => fixed_issue(UNSUPPORTED_EXPRESSION,
            "BigInt literals are not yet supported.",
            "Use a Number or String instead."),
        Unsupported::OtherKey => fixed_issue(UNSUPPORTED_SYNTAX,
            "BigInt property keys are not yet supported.",
            "Use a string or identifier property key instead."),
        Unsupported::VarPattern => fixed_issue(UNSUPPORTED_SYNTAX,
            "Destructured or complex variable declarations are not yet supported in arrow function bodies.",
            "Use a simple identifier declaration instead."),
        Unsupported::ParamPattern => fixed_issue(UNSUPPORTED_SYNTAX,
            "Unrecognized parameter pattern is not yet supported.",
            "Use a simple identifier parameter instead."),
        Unsupported::AttrElement => fixed_issue(UNSUPPORTED_JSX_CONSTRUCT,
            "JSX elements as attribute values are not yet supported.",
            "Render the element as a child instead."),
        Unsupported::AttrFragment => fixed_issue(UNSUPPORTED_JSX_CONSTRUCT,
            "JSX fragments as attribute values are not yet supported.",
            "Render the fragment as a child instead."),
        Unsupported::SpreadAttr => fixed_issue(UNSUPPORTED_JSX_CONSTRUCT,
            "JSX spread attributes ({...props}) are not yet supported.",
            "Pass each prop explicitly: <Component propA={a} propB={b}>."),
        Unsupported::SpreadChild => fixed_issue(UNSUPPORTED_JSX_CONSTRUCT,
            "JSX spread children ({...X}) are not yet supported.",
            "Use <For> to iterate, or render each child explicitly."),
    }
}

/// How a statement form is named in its diagnostic.
pub open spec fn stmt_kind_name(k: StmtKind) -> Seq<char> {
    match k {
        StmtKind::Empty => "Empty"@,
        StmtKind::Debugger => "Debugger"@,
        StmtKind::With => "With"@,
        StmtKind::While => "While"@,
        StmtKind::DoWhile => "DoWhile"@,
        StmtKind::For => "For"@,
        StmtKind::ForIn => "ForIn"@,
        StmtKind::ForOf => "ForOf"@,
        StmtKind::Switch => "Switch"@,
        StmtKind::Labeled => "Labeled"@,
        StmtKind::Break => "Break"@,
        StmtKind::Continue => "Continue"@,
        StmtKind::Throw => "Throw"@,
        StmtKind::Try => "Try"@,
        StmtKind::Unrecognized => "Unrecognized"@,
    }
}

/// How a statement that the arrow-body printer does not accept is named in
/// its diagnostic.
pub open spec fn stmt_name(s: JsStmt) -> Seq<char> {
    match s {
        JsStmt::Other(k) => stmt_kind_name(k),
        JsStmt::FnDecl { .. } | JsStmt::OtherDecl => "Declaration (non-var)"@,
        _ => "Unrecognized"@,
    }
}

pub fn stmt_description(s: &JsStmt) -> (r: &'static str)
    ensures
        r@ == stmt_name(*s),
{
    match s {
        JsStmt::Other(k) => match k {
            StmtKind::Empty => "Empty",
            StmtKind::Debugger => "Debugger",
            StmtKind::With => "With",
            StmtKind::While => "While",
            StmtKind::DoWhile => "DoWhile",
            StmtKind::For => "For",
            StmtKind::ForIn => "ForIn",
            StmtKind::ForOf => "ForOf",
            StmtKind::Switch => "Switch",
            StmtKind::Labeled => "Labeled",
            StmtKind::Break => "Break",
            StmtKind::Continue => "Continue",
            StmtKind::Throw => "Throw",
            StmtKind::Try => "Try",
            StmtKind::Unrecognized => "Unrecognized",
        },
        JsStmt::FnDecl { .. } | JsStmt::OtherDecl => "Declaration (non-var)",
        _ => "Unrecognized",
    }
}

/// The diagnostic for a statement the arrow-body printer does not accept.
pub open spec fn stmt_issue(s: JsStmt) -> Issue {
    (UNSUPPORTED_STATEMENT@,
        stmt_name(s) + " statements are not yet supported in arrow function bodies."@,
        "Refactor to use only const/let/var declarations, if statements, return, and expression statements."@)
}

pub fn stmt_error(s: &JsStmt) -> (r: ParserError)
    ensures
        issue_of(r) == stmt_issue(*s),
{
    let mut message = owned(stmt_description(s));
    crate::text::push_str(&mut message, " statements are not yet supported in arrow function bodies.");
    ParserError {
        code: UNSUPPORTED_STATEMENT,
        message,
        fix_hint: "Refactor to use only const/let/var declarations, if statements, return, and expression statements.",
    }
}

/// The source text of a binary operator (`in` and `instanceof` with their
/// surrounding spaces).
pub open spec fn bin_op_text(op: BinOp) -> Seq<char> {
    match op {
        BinOp::EqEq => "=="@,
        BinOp::NotEq => "!="@,
        BinOp::EqEqEq => "==="@,
        BinOp::NotEqEq => "!=="@,
        BinOp::Lt => "<"@,
        BinOp::LtEq => "<="@,
        BinOp::Gt => ">"@,
        BinOp::GtEq => ">="@,
        BinOp::LShift => "<<"@,
        BinOp::RShift => ">>"@,
        BinOp::ZeroFillRShift => ">>>"@,
        BinOp::Add => "+"@,
        BinOp::Sub => "-"@,
        BinOp::Mul => "*"@,
        BinOp::Div => "/"@,
        BinOp::Mod => "%"@,
        BinOp::BitOr => "|"@,
        BinOp::BitXor => "^"@,
        BinOp::BitAnd => "&"@,
        BinOp::LogicalOr => "||"@,
        BinOp::LogicalAnd => "&&"@,
        BinOp::In => " in "@,
        BinOp::InstanceOf => " instanceof "@,
        BinOp::Exp => "**"@,
        BinOp::NullishCoalescing => "??"@,
    }
}

pub fn format_bin_op(op: BinOp) -> (r: &'static str)
    ensures
        r@ == bin_op_text(op),
{
    match op {
        BinOp::EqEq => "==",
        BinOp::NotEq => "!=",
        BinOp::EqEqEq => "===",
        BinOp::NotEqEq => "!==",
        BinOp::Lt => "<",
        BinOp::LtEq => "<=",
        BinOp::Gt => ">",
        BinOp::GtEq => ">=",
        BinOp::LShift => "<<",
        BinOp::RShift => ">>",
        BinOp::ZeroFillRShift => ">>>",
        BinOp::Add => "+",
        BinOp::Sub => "-",
        BinOp::Mul => "*",
        BinOp::Div => "/",
        BinOp::Mod => "%",
        BinOp::BitOr => "|",
        BinOp::BitXor => "^",
        BinOp::BitAnd => "&",
        BinOp::LogicalOr => "||",
        BinOp::LogicalAnd => "&&",
        BinOp::In => " in ",
        BinOp::InstanceOf => " instanceof ",
        BinOp::Exp => "**",
        BinOp::NullishCoalescing => "??",
    }
}

} // verus!
