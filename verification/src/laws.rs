//! The laws the protocol engine obeys, stated and proved over the spec
//! functions that the public contracts use.

use vstd::prelude::*;
use crate::json::{JVal, enc};
use crate::codec::{ReqV, DecodeError, spec_decode, jval_get};
use crate::protocol::{McpServer, CallErr, err_message, error_jv, spec_call_tool,
    spec_handle_request};

verus! {

/// Every well-formed request that carries a correlation identifier gets
/// exactly one response, and that response echoes the identifier.
pub proof fn lemma_request_one_response(t: Seq<char>, rv: ReqV)
    requires
        spec_decode(t) == Ok::<ReqV, DecodeError>(rv),
        rv.id is Some,
    ensures
        McpServer::spec_handle_line(t) == Some(enc(spec_handle_request(rv))),
        jval_get(spec_handle_request(rv), "id"@) == Some(rv.id->0),
{
    let resp = spec_handle_request(rv);
    reveal_strlit("jsonrpc");
    reveal_strlit("id");
    reveal_strlit("result");
    reveal_strlit("error");
    assert(resp->Obj_0.len() == 3);
    assert("result"@.len() == 6 && "error"@.len() == 5 && "id"@.len() == 2);
    assert(resp->Obj_0[2].0 != "id"@);
    assert(resp->Obj_0[1] == ("id"@, rv.id->0));
    assert(crate::codec::obj_lookup_upto(resp->Obj_0, "id"@, 2) == Some(rv.id->0));
    assert(jval_get(resp, "id"@) == Some(rv.id->0));
}

/// A notification (no correlation identifier) never produces a response
/// line, whatever its method.
pub proof fn lemma_notification_no_response(t: Seq<char>, rv: ReqV)
    requires
        spec_decode(t) == Ok::<ReqV, DecodeError>(rv),
        rv.id is None,
    ensures
        McpServer::spec_handle_line(t) == None::<Seq<char>>,
{
}

/// A malformed line never produces a response line.
pub proof fn lemma_malformed_no_response(t: Seq<char>)
    requires
        spec_decode(t) is Err,
    ensures
        McpServer::spec_handle_line(t) == None::<Seq<char>>,
{
}

/// Session outputs from a position past `a` inside `a + b` are the outputs
/// of `b` from the corresponding position.
proof fn lemma_session_shift(a: Seq<Seq<char>>, b: Seq<Seq<char>>, j: int)
    requires
        0 <= j <= b.len(),
    ensures
        McpServer::session_outputs_from(a + b, a.len() + j) == McpServer::session_outputs_from(
            b,
            j,
        ),
    decreases b.len() - j,
{
    if j < b.len() {
        lemma_session_shift(a, b, j + 1);
        assert((a + b)[a.len() + j] == b[j]);
    }
}

/// Session outputs of `a + b` from a position inside `a`.
proof fn lemma_session_concat_from(a: Seq<Seq<char>>, b: Seq<Seq<char>>, i: int)
    requires
        0 <= i <= a.len(),
    ensures
        McpServer::session_outputs_from(a + b, i) == McpServer::session_outputs_from(a, i)
            + McpServer::session_outputs(b),
    decreases a.len() - i,
{
    if i < a.len() {
        lemma_session_concat_from(a, b, i + 1);
        assert((a + b)[i] == a[i]);
        assert((match McpServer::spec_handle_line(a[i]) {
            Some(o) => seq![o],
            None => Seq::<Seq<char>>::empty(),
        }) + (McpServer::session_outputs_from(a, i + 1) + McpServer::session_outputs(b)) =~= (
        match McpServer::spec_handle_line(a[i]) {
            Some(o) => seq![o],
            None => Seq::<Seq<char>>::empty(),
        }) + McpServer::session_outputs_from(a, i + 1) + McpServer::session_outputs(b));
    } else {
        lemma_session_shift(a, b, 0);
        assert(McpServer::session_outputs_from(a, i) =~= Seq::<Seq<char>>::empty());
        assert(McpServer::session_outputs_from(a + b, i) =~= Seq::<Seq<char>>::empty()
            + McpServer::session_outputs_from(a + b, i));
    }
}

/// A session over consecutive batches answers them batch by batch, in
/// order: outputs keep the arrival order of their requests.
pub proof fn lemma_session_order(a: Seq<Seq<char>>, b: Seq<Seq<char>>)
    ensures
        McpServer::session_outputs(a + b) == McpServer::session_outputs(a)
            + McpServer::session_outputs(b),
{
    lemma_session_concat_from(a, b, 0);
}

/// One line on its own produces its own output and nothing else.
pub proof fn lemma_session_single(t: Seq<char>)
    ensures
        McpServer::session_outputs(seq![t]) == match McpServer::spec_handle_line(t) {
            Some(o) => seq![o],
            None => Seq::<Seq<char>>::empty(),
        },
{
    assert(McpServer::session_outputs_from(seq![t], 1) =~= Seq::<Seq<char>>::empty());
    assert(McpServer::session_outputs(seq![t]) =~= (match McpServer::spec_handle_line(t) {
        Some(o) => seq![o],
        None => Seq::<Seq<char>>::empty(),
    }) + Seq::<Seq<char>>::empty());
}

/// A malformed line anywhere in a session changes nothing: the session does
/// not end, and every other line is answered as if the bad line were absent.
pub proof fn lemma_malformed_line_transparent(a: Seq<Seq<char>>, t: Seq<char>, b: Seq<Seq<char>>)
    requires
        spec_decode(t) is Err,
    ensures
        McpServer::session_outputs(a + seq![t] + b) == McpServer::session_outputs(a + b),
{
    lemma_session_order(a + seq![t], b);
    lemma_session_order(a, seq![t]);
    lemma_session_single(t);
    lemma_malformed_no_response(t);
    lemma_session_order(a, b);
    assert(McpServer::session_outputs(a) + Seq::<Seq<char>>::empty() =~= McpServer::session_outputs(
        a,
    ));
}

/// Invoking an unknown operation yields a protocol-level error response
/// with the fixed error code, not a domain-level success.
pub proof fn lemma_unknown_operation(rv: ReqV, p: JVal, nm: Seq<char>)
    requires
        rv.method == "tools/call"@,
        rv.params == Some(p),
        jval_get(p, "name"@) == Some(JVal::Str(nm)),
        nm != "list-sections"@,
        nm != "get-documentation"@,
        nm != "leptos-autofixer"@,
    ensures
        spec_call_tool(rv.params) == Err::<JVal, CallErr>(CallErr::Unknown(nm)),
        spec_handle_request(rv) == error_jv(
            match rv.id {
                Some(v) => v,
                None => JVal::Null,
            },
            -32600,
            "Unknown tool: "@ + nm,
        ),
        err_message(CallErr::Unknown(nm)) == "Unknown tool: "@ + nm,
{
    reveal_strlit("tools/call");
    reveal_strlit("initialize");
    reveal_strlit("tools/list");
    assert("tools/call"@[0] != "initialize"@[0]);
    assert("tools/call"@[6] != "tools/list"@[6]);
    assert(rv.method != "initialize"@);
    assert(rv.method != "tools/list"@);
}

} // verus!
