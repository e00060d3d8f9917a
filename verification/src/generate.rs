//! Entry points of the component compiler: a parsed component becomes its
//! client module, or its server module when it runs on the server.

use vstd::prelude::*;
use crate::api::EnvMap;
use crate::ast::{ComponentFile, JsxNode, RunsOn};
use crate::client::{client_module, cost, cost_list, generate_client, lemma_cost_prefix};
use crate::codegen::SignalRead;
use crate::server::{generate_server, server_module};
use crate::text::views;

verus! {

/// The largest tree cost the client renderer's counter can number.
pub open spec fn fits_counter(node: JsxNode) -> bool {
    cost(node) + 4 <= u32::MAX
}

/// `min(a, cap)`.
pub open spec fn capped(a: nat, cap: nat) -> nat {
    if a < cap {
        a
    } else {
        cap
    }
}

/// The counter numbers a tree consumes, capped at `cap`.
#[verifier::loop_isolation(false)]
pub fn cost_upto(node: &JsxNode, cap: u64) -> (r: u64)
    requires
        cap <= u32::MAX,
    ensures
        r == capped(cost(*node), cap as nat),
    decreases node,
{
    match node {
        JsxNode::Element { children, .. } => {
            let mut acc: u64 = if 1 < cap {
                1
            } else {
                cap
            };
            for i in 0..children.len()
                invariant
                    acc == capped(1 + cost_list(children@.take(i as int)), cap as nat),
            {
                proof {
                    assert(decreases_to!(*node => children@[i as int]));
                    assert(children@.take(i + 1).drop_last() =~= children@.take(i as int));
                    assert(children@.take(i + 1).last() == children@[i as int]);
                }
                let c = cost_upto(&children[i], cap);
                acc = if acc + c < cap {
                    acc + c
                } else {
                    cap
                };
            }
            assert(children@.take(children@.len() as int) =~= children@);
            acc
        },
        JsxNode::Conditional { cons, alt, .. } => {
            let a = cost_upto(cons, cap);
            let b = cost_upto(alt, cap);
            if 3 + a + b < cap {
                3 + a + b
            } else {
                cap
            }
        },
        JsxNode::ForEach { body, .. } => {
            let b = cost_upto(body, cap);
            if 4 + b < cap {
                4 + b
            } else {
                cap
            }
        },
        _ => if 1 < cap {
            1
        } else {
            cap
        },
    }
}

/// Whether the client renderer can number every node of `node`.
pub fn tree_fits_counter(node: &JsxNode) -> (r: bool)
    ensures
        r == fits_counter(*node),
{
    let c = cost_upto(node, 0xffff_ffffu64);
    c + 4 <= 0xffff_ffffu64
}

/// Whether the component is compiled to a server module.
pub open spec fn is_server(c: ComponentFile) -> bool {
    c.runs_on == Some(RunsOn::Server)
}

pub fn runs_on_server(c: &ComponentFile) -> (r: bool)
    ensures
        r == is_server(*c),
{
    match &c.runs_on {
        Some(RunsOn::Server) => true,
        _ => false,
    }
}

/// The module of a component: server code for `@runsOn server`, client
/// code otherwise.
pub open spec fn component_module(
    c: ComponentFile,
    env: Seq<(String, String)>,
    rel: Seq<char>,
    server_files: Seq<Seq<char>>,
    reads: Seq<SignalRead>,
) -> Result<Seq<char>, Seq<char>> {
    if is_server(c) {
        server_module(c, env, rel, server_files)
    } else {
        client_module(c, reads)
    }
}

/// Compiles a component emitted at root-relative path `rel`; `server_files`
/// lists the root-relative sources that are emitted under `_server/`, and
/// `reads` answers which expressions read a signal.
pub fn generate_with_server_files(
    component: &ComponentFile,
    env: &EnvMap,
    rel: &str,
    server_files: &Vec<String>,
    reads: &Vec<SignalRead>,
) -> (r: Result<String, String>)
    requires
        !is_server(*component) ==> (component.render_tree matches Some(t) ==> fits_counter(t)),
    ensures
        match component_module(*component, env@, rel@, views(server_files@), reads@) {
            Ok(text) => r matches Ok(s) && s@ == text,
            Err(e) => r matches Err(m) && m@ == e,
        },
{
    if runs_on_server(component) {
        generate_server(component, env, rel, server_files)
    } else {
        generate_client(component, reads)
    }
}

/// Compiles a component with no emission path and no server modules
/// around it.
pub fn generate(component: &ComponentFile, env: &EnvMap, reads: &Vec<SignalRead>) -> (r: Result<
    String,
    String,
>)
    requires
        !is_server(*component) ==> (component.render_tree matches Some(t) ==> fits_counter(t)),
    ensures
        match component_module(*component, env@, Seq::<char>::empty(), seq![], reads@) {
            Ok(text) => r matches Ok(s) && s@ == text,
            Err(e) => r matches Err(m) && m@ == e,
        },
{
    let none: Vec<String> = Vec::new();
    assert(views(none@) =~= Seq::<Seq<char>>::empty());
    proof {
        reveal_strlit("");
        assert(""@ =~= Seq::<char>::empty());
    }
    generate_with_server_files(component, env, "", &none, reads)
}

} // verus!
