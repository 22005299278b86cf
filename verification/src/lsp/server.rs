//! The decisions of the language server's message loop: which requests it
//! serves, and what it answers to a workspace-symbol request.

use vstd::prelude::*;

use crate::index::SymbolIndex;
use crate::lsp::handlers::{handle_workspace_symbol, workspace_symbols, LspSymbolInformation};
use crate::search::SearchEngine;

verus! {

/// The method name of the workspace-symbol request.
pub open spec fn workspace_symbol_method() -> Seq<char> {
    "workspace/symbol"@
}

/// What the server does with a request (other than `shutdown`, which the
/// connection itself answers).
#[derive(Debug, Clone, Copy, PartialEq, Eq, Structural)]
pub enum RequestRoute {
    /// A workspace-symbol request: decode its parameters and answer it.
    WorkspaceSymbol,
    /// A method the server does not serve.
    Unsupported,
}

/// The route of a request with `method`: only `workspace/symbol` is served.
pub fn route_request(method: &str) -> (r: RequestRoute)
    ensures
        (r == RequestRoute::WorkspaceSymbol) <==> (method@ == workspace_symbol_method()),
{
    let m = crate::paths::chars_of(method);
    let w = crate::paths::chars_of("workspace/symbol");
    proof {
        reveal_strlit("workspace/symbol");
    }
    let mut same = m.len() == w.len();
    let mut i: usize = 0;
    while same && i < m.len()
        invariant
            m@ == method@,
            w@ == workspace_symbol_method(),
            i <= m@.len(),
            same ==> m@.len() == w@.len(),
            same ==> m@.take(i as int) == w@.take(i as int),
            !same ==> m@ != w@,
        decreases m@.len() - i,
    {
        if m[i] != w[i] {
            same = false;
        } else {
            assert(m@.take(i + 1) =~= m@.take(i as int).push(m@[i as int]));
            assert(w@.take(i + 1) =~= w@.take(i as int).push(w@[i as int]));
        }
        i += 1;
    }
    if same {
        assert(m@ =~= m@.take(i as int));
        assert(w@ =~= w@.take(i as int));
        RequestRoute::WorkspaceSymbol
    } else {
        RequestRoute::Unsupported
    }
}

/// The answer to a request.
#[derive(Debug)]
pub enum Reply {
    /// A result: the symbol records.
    Symbols(Vec<LspSymbolInformation>),
    /// An internal-error answer, with its message.
    InternalError(String),
    /// An invalid-params answer, with its message.
    InvalidParams(String),
}

/// The message of an invalid-params answer for a decoding error `detail`.
pub open spec fn invalid_params_message(detail: Seq<char>) -> Seq<char> {
    "Invalid params: "@ + detail
}

/// The answer to a workspace-symbol request whose parameters decoded to the
/// query `Ok(query)`, or failed to decode with the error `Err(detail)`: the
/// records of `handle_workspace_symbol` for a query, an invalid-params
/// answer naming the error otherwise.
pub fn workspace_symbol_reply(params: Result<String, String>, index: &SymbolIndex, search_engine: &SearchEngine) -> (r: Reply)
    ensures
        match params {
            Ok(query) => r matches Reply::Symbols(v) && workspace_symbols(
                index@.all,
                query@,
                v@.map_values(|x: LspSymbolInformation| x@),
            ),
            Err(detail) => r matches Reply::InvalidParams(m) && m@ == invalid_params_message(detail@),
        },
{
    match params {
        Ok(query) => match handle_workspace_symbol(query.as_str(), index, search_engine) {
            Ok(v) => Reply::Symbols(v),
            Err(e) => {
                let m = String::from_str("Error: ").concat(e.message().as_str());
                Reply::InternalError(m)
            },
        },
        Err(detail) => {
            proof {
                reveal_strlit("Invalid params: ");
            }
            let m = String::from_str("Invalid params: ").concat(detail.as_str());
            Reply::InvalidParams(m)
        },
    }
}

} // verus!
