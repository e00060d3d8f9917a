//! The typed component model: what the parser front end extracts from a
//! `.tsx`/`.ts` module and what the code generators consume.

use vstd::prelude::*;
use crate::text::{chars_of, push_char, starts_with, str_eq, string_of, trim, vec_trim};

verus! {

/// The `// @runsOn <target>` directive of a module.
#[derive(Debug, Clone, PartialEq)]
pub enum RunsOn {
    Client,
    Server,
    Api,
}

#[derive(Debug, Clone, PartialEq)]
pub enum ExportKind {
    NamedFunction,
    DefaultExport,
}

#[derive(Debug, Clone, PartialEq)]
pub struct ExportInfo {
    pub name: String,
    pub kind: ExportKind,
    pub line: usize,
    pub column: usize,
}

#[derive(Debug, Clone, PartialEq)]
pub enum TypeAnnotation {
    Named(String),
    Any,
    Untyped,
}

#[derive(Debug, Clone, PartialEq)]
pub struct PropsInfo {
    pub name: String,
    pub type_annotation: TypeAnnotation,
    pub is_destructured: bool,
    pub line: usize,
    pub column: usize,
}

#[derive(Debug, Clone, PartialEq)]
pub struct ImportInfo {
    pub source: String,
    pub imported_names: Vec<String>,
    pub line: usize,
    pub column: usize,
    pub is_css: bool,
}

#[derive(Debug, Clone, PartialEq)]
pub enum TopLevelBinding {
    Let { name: String, exported: bool, line: usize, column: usize },
    Var { name: String, exported: bool, line: usize, column: usize },
    Const { name: String, exported: bool, line: usize, column: usize },
}

#[derive(Debug, Clone, PartialEq)]
pub enum JsxExpression {
    AndConditional,
    InlineMap,
}

#[derive(Debug, Clone, PartialEq)]
pub struct JsxExprInfo {
    pub kind: JsxExpression,
    pub line: usize,
    pub column: usize,
}

#[derive(Debug, Clone, Copy, PartialEq)]
pub enum BodyStmtKind {
    Signal,
    DerivedConst,
    EventHandler,
    Return,
    Let,
    Var,
    Other,
}

#[derive(Debug, Clone, PartialEq)]
pub struct BodyStmt {
    pub kind: BodyStmtKind,
    pub line: usize,
    pub column: usize,
}

#[derive(Debug, Clone, PartialEq)]
pub enum SignalKind {
    Signal,
    Computed,
}

#[derive(Debug, Clone, PartialEq)]
pub struct SignalDecl {
    pub name: String,
    pub kind: SignalKind,
    pub initial_value: String,
}

#[derive(Debug, Clone, PartialEq)]
pub enum JsxAttrValue {
    String(String),
    Expr(String),
}

#[derive(Debug, Clone, PartialEq)]
pub struct JsxAttr {
    pub name: String,
    pub value: JsxAttrValue,
    /// True when the attribute's expression contains an `env()` call
    /// anywhere within it (decided on the syntax tree by the front end).
    pub contains_env_call: bool,
}

#[derive(Debug, PartialEq)]
pub enum JsxNode {
    Element {
        tag: String,
        attrs: Vec<JsxAttr>,
        children: Vec<JsxNode>,
        is_hydrate_root: bool,
        is_component: bool,
    },
    Text(String),
    Expr(String),
    Conditional { test: String, cons: Box<JsxNode>, alt: Box<JsxNode> },
    ForEach {
        each: String,
        key_fn: String,
        item_param: String,
        body: Box<JsxNode>,
        /// Block-local declarations (function/const) inside the item arrow's
        /// block body, emitted inside the per-item render function.
        for_body_decls: Vec<String>,
    },
}

#[derive(Debug, Clone, PartialEq)]
pub struct ParserError {
    pub code: &'static str,
    pub message: String,
    pub fix_hint: &'static str,
}

#[derive(Debug)]
pub struct ParseError {
    pub message: String,
}

#[derive(Debug, PartialEq)]
pub struct ComponentFile {
    pub filename: String,
    pub runs_on: Option<RunsOn>,
    pub runs_on_count: usize,
    pub runs_on_line: usize,
    pub runs_on_column: usize,
    pub exports: Vec<ExportInfo>,
    pub props: Option<PropsInfo>,
    pub imports: Vec<ImportInfo>,
    pub top_level_bindings: Vec<TopLevelBinding>,
    pub jsx_expressions: Vec<JsxExprInfo>,
    pub has_data_call: bool,
    pub data_call_line: usize,
    pub data_call_column: usize,
    pub has_env_call: bool,
    pub env_call_line: usize,
    pub env_call_column: usize,
    /// The string-literal keys referenced by `env('KEY')` call sites; only
    /// these keys are ever baked into generated server/api modules.
    pub env_call_keys: Vec<String>,
    pub has_session_call: bool,
    pub session_call_line: usize,
    pub session_call_column: usize,
    pub body_stmts: Vec<BodyStmt>,
    pub has_component_body: bool,
    pub render_tree: Option<JsxNode>,
    pub signals: Vec<SignalDecl>,
    pub handler_decls: Vec<String>,
    pub handler_has_jsx: Vec<bool>,
    pub derived_consts: Vec<String>,
    pub module_consts: Vec<String>,
    /// Ordered module-scope statements (TS annotations stripped) except
    /// imports, exported function declarations and the directive comment.
    pub module_statements: Vec<String>,
    /// Stripped source text of every named function export: (name, source).
    pub exported_fn_sources: Vec<(String, String)>,
    pub unsupported_errors: Vec<ParserError>,
}

impl ComponentFile {
    /// An empty model for the module named `filename`: no directive, no
    /// exports, imports, calls, statements or render tree.
    pub fn new(filename: String) -> (r: ComponentFile)
        ensures
            r.filename@ == filename@,
            r.runs_on.is_none(),
            r.runs_on_count == 0 && r.runs_on_line == 0 && r.runs_on_column == 0,
            r.exports@.len() == 0,
            r.props.is_none(),
            r.imports@.len() == 0,
            r.top_level_bindings@.len() == 0,
            r.jsx_expressions@.len() == 0,
            !r.has_data_call && r.data_call_line == 0 && r.data_call_column == 0,
            !r.has_env_call && r.env_call_line == 0 && r.env_call_column == 0,
            r.env_call_keys@.len() == 0,
            !r.has_session_call && r.session_call_line == 0 && r.session_call_column == 0,
            r.body_stmts@.len() == 0,
            !r.has_component_body,
            r.render_tree.is_none(),
            r.signals@.len() == 0,
            r.handler_decls@.len() == 0,
            r.handler_has_jsx@.len() == 0,
            r.derived_consts@.len() == 0,
            r.module_consts@.len() == 0,
            r.module_statements@.len() == 0,
            r.exported_fn_sources@.len() == 0,
            r.unsupported_errors@.len() == 0,
    {
        ComponentFile {
            filename,
            runs_on: None,
            runs_on_count: 0,
            runs_on_line: 0,
            runs_on_column: 0,
            exports: Vec::new(),
            props: None,
            imports: Vec::new(),
            top_level_bindings: Vec::new(),
            jsx_expressions: Vec::new(),
            has_data_call: false,
            data_call_line: 0,
            data_call_column: 0,
            has_env_call: false,
            env_call_line: 0,
            env_call_column: 0,
            env_call_keys: Vec::new(),
            has_session_call: false,
            session_call_line: 0,
            session_call_column: 0,
            body_stmts: Vec::new(),
            has_component_body: false,
            render_tree: None,
            signals: Vec::new(),
            handler_decls: Vec::new(),
            handler_has_jsx: Vec::new(),
            derived_consts: Vec::new(),
            module_consts: Vec::new(),
            module_statements: Vec::new(),
            exported_fn_sources: Vec::new(),
            unsupported_errors: Vec::new(),
        }
    }
}

/// The target named by a `// @runsOn <target>` comment: exactly `client`,
/// `server` or `api` after the trimmed `@runsOn`; any other text names
/// none.
pub open spec fn runs_on_directive(text: Seq<char>) -> Option<RunsOn> {
    let t = trim(text);
    if starts_with(t, "@runsOn"@) {
        let rest = trim(t.skip(7));
        if rest == "client"@ {
            Some(RunsOn::Client)
        } else if rest == "server"@ {
            Some(RunsOn::Server)
        } else if rest == "api"@ {
            Some(RunsOn::Api)
        } else {
            None
        }
    } else {
        None
    }
}

pub fn parse_runs_on_comment(text: &str) -> (r: Option<RunsOn>)
    ensures
        r == runs_on_directive(text@),
{
    let t = vec_trim(&chars_of(text));
    let ts = string_of(&t);
    if !crate::text::str_starts_with(ts.as_str(), "@runsOn") {
        return None;
    }
    proof {
        reveal_strlit("@runsOn");
    }
    let after = crate::text::slice_chars(&t, 7, t.len());
    assert(after@ =~= t@.skip(7));
    let rest = string_of(&vec_trim(&after));
    if str_eq(rest.as_str(), "client") {
        Some(RunsOn::Client)
    } else if str_eq(rest.as_str(), "server") {
        Some(RunsOn::Server)
    } else if str_eq(rest.as_str(), "api") {
        Some(RunsOn::Api)
    } else {
        None
    }
}

/// A line break or tab read as a space.
pub open spec fn blank_to_space(c: char) -> char {
    if c == '\n' || c == '\r' || c == '\t' {
        ' '
    } else {
        c
    }
}

/// `s` with breaks and tabs read as spaces and every run of spaces
/// collapsed to one; `after_space` tells whether a space was just written.
pub open spec fn collapse_spaces(s: Seq<char>, after_space: bool) -> Seq<char>
    decreases s.len(),
{
    if s.len() == 0 {
        seq![]
    } else {
        let c = blank_to_space(s[0]);
        if c == ' ' {
            if after_space {
                collapse_spaces(s.drop_first(), true)
            } else {
                seq![' '] + collapse_spaces(s.drop_first(), true)
            }
        } else {
            seq![c] + collapse_spaces(s.drop_first(), false)
        }
    }
}

/// JSX text as rendered: line breaks and tabs become spaces, runs of
/// spaces one space.
pub fn jsx_text_to_string(value: &str) -> (r: String)
    ensures
        r@ == collapse_spaces(value@, false),
{
    let cs = chars_of(value);
    let mut out = String::new();
    let mut prev_was_space = false;
    let mut i: usize = 0;
    assert(cs@.skip(0) =~= cs@);
    while i < cs.len()
        invariant
            cs@ == value@,
            i <= cs@.len(),
            collapse_spaces(value@, false) == out@ + collapse_spaces(cs@.skip(i as int), prev_was_space),
        decreases cs.len() - i,
    {
        let raw = cs[i];
        let c = if raw == '\n' || raw == '\r' || raw == '\t' {
            ' '
        } else {
            raw
        };
        assert(cs@.skip(i as int).drop_first() =~= cs@.skip(i + 1));
        assert(cs@.skip(i as int)[0] == raw);
        if c == ' ' {
            if !prev_was_space {
                push_char(&mut out, ' ');
                prev_was_space = true;
            }
        } else {
            push_char(&mut out, c);
            prev_was_space = false;
        }
        i += 1;
    }
    assert(cs@.skip(i as int).len() == 0);
    assert(out@ =~= out@ + Seq::<char>::empty());
    out
}


/// A comment of a source file: where it starts (byte offset), its text,
/// and its line and column.
pub struct SourceComment {
    pub pos: u32,
    pub text: String,
    pub line: usize,
    pub column: usize,
}

/// The `@runsOn` directives among `cs` that stand before the first code
/// (at `first_code`, when the file has code), in order, with their places.
pub open spec fn directive_comments(cs: Seq<SourceComment>, first_code: Option<u32>) -> Seq<
    (RunsOn, usize, usize),
>
    decreases cs.len(),
{
    if cs.len() == 0 {
        seq![]
    } else {
        let prev = directive_comments(cs.drop_last(), first_code);
        let c = cs.last();
        let before_code = match first_code {
            Some(p) => c.pos < p,
            None => true,
        };
        if before_code && runs_on_directive(c.text@) is Some {
            prev.push((runs_on_directive(c.text@)->0, c.line, c.column))
        } else {
            prev
        }
    }
}

/// Records the `@runsOn` directives of a file's comments: each one counts,
/// and the first (when the file has none yet) sets the target and its
/// place; nothing else changes.
pub fn note_runs_on_comments(file: &mut ComponentFile, comments: &Vec<SourceComment>, first_code_pos: Option<u32>)
    requires
        old(file).runs_on_count + comments@.len() <= usize::MAX,
    ensures
        ({
            let ds = directive_comments(comments@, first_code_pos);
            let sets = old(file).runs_on is None && ds.len() > 0;
            *final(file) == (ComponentFile {
                runs_on: if sets { Some(ds[0].0) } else { old(file).runs_on },
                runs_on_count: (old(file).runs_on_count + ds.len()) as usize,
                runs_on_line: if sets { ds[0].1 } else { old(file).runs_on_line },
                runs_on_column: if sets { ds[0].2 } else { old(file).runs_on_column },
                ..*old(file)
            })
        }),
{
    let ghost f0 = *file;
    for i in 0..comments.len()
        invariant
            f0.runs_on_count + comments@.len() <= usize::MAX,
            ({
                let ds = directive_comments(comments@.take(i as int), first_code_pos);
                let sets = f0.runs_on is None && ds.len() > 0;
                ds.len() <= i && *file == (ComponentFile {
                    runs_on: if sets { Some(ds[0].0) } else { f0.runs_on },
                    runs_on_count: (f0.runs_on_count + ds.len()) as usize,
                    runs_on_line: if sets { ds[0].1 } else { f0.runs_on_line },
                    runs_on_column: if sets { ds[0].2 } else { f0.runs_on_column },
                    ..f0
                })
            }),
    {
        let ghost prev = directive_comments(comments@.take(i as int), first_code_pos);
        assert(comments@.take(i + 1).drop_last() =~= comments@.take(i as int));
        assert(comments@.take(i + 1).last() == comments@[i as int]);
        let c = &comments[i];
        let before_code = match first_code_pos {
            Some(p) => c.pos < p,
            None => true,
        };
        if before_code {
            match parse_runs_on_comment(c.text.as_str()) {
                Some(k) => {
                    file.runs_on_count = file.runs_on_count + 1;
                    if file.runs_on.is_none() {
                        file.runs_on = Some(k);
                        file.runs_on_line = c.line;
                        file.runs_on_column = c.column;
                    }
                    let ghost now = directive_comments(comments@.take(i + 1), first_code_pos);
                    assert(now == prev.push((k, c.line, c.column)));
                    assert(prev.len() > 0 ==> now[0] == prev[0]);
                },
                None => {},
            }
        }
    }
    assert(comments@.take(comments@.len() as int) =~= comments@);
}

} // verus!
