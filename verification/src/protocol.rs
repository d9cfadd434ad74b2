//! The protocol engine: capability table, dispatcher, and the per-line
//! session step.

use vstd::prelude::*;
use crate::json::{JVal, Json, enc, clone_json, jv_items, jv_fields, lemma_jv_items,
    lemma_jv_fields};
use crate::codec::{Request, ReqV, Response, RespBody, RespError, spec_decode, decode,
    encode_response, resp_jv, jval_get, get_field};
use crate::text::{str_eq, join_nl};
use crate::tools::{LeptosTools, section_lines, spec_documentation, spec_advice};
use crate::docs::spec_sections;

verus! {

/// One advertised operation: name, description, and argument schema.
pub struct ToolDescriptor {
    pub name: String,
    pub description: String,
    pub input_schema: Json,
}

impl ToolDescriptor {
    /// The mathematical content of a descriptor.
    pub open spec fn tv(self) -> (Seq<char>, Seq<char>, JVal) {
        (self.name@, self.description@, self.input_schema.jv())
    }
}

/// Schema of an operation that takes no arguments.
pub open spec fn spec_schema_noargs() -> JVal {
    JVal::Obj(
        seq![
            ("type"@, JVal::Str("object"@)),
            ("properties"@, JVal::Obj(Seq::empty())),
            ("required"@, JVal::Arr(Seq::empty())),
        ],
    )
}

/// Schema of an operation that takes one required string argument.
pub open spec fn spec_schema_one(arg: Seq<char>, desc: Seq<char>) -> JVal {
    JVal::Obj(
        seq![
            ("type"@, JVal::Str("object"@)),
            (
                "properties"@,
                JVal::Obj(
                    seq![
                        (
                            arg,
                            JVal::Obj(
                                seq![
                                    ("type"@, JVal::Str("string"@)),
                                    ("description"@, JVal::Str(desc)),
                                ],
                            ),
                        ),
                    ],
                ),
            ),
            ("required"@, JVal::Arr(seq![JVal::Str(arg)])),
        ],
    )
}

/// The advertised operations, in declaration order.
pub open spec fn spec_capabilities() -> Seq<(Seq<char>, Seq<char>, JVal)> {
    seq![
        (
            "list-sections"@,
            "List all available Leptos documentation sections with their use cases"@,
            spec_schema_noargs(),
        ),
        (
            "get-documentation"@,
            "Get Leptos documentation for a specific section. Pass section name like 'signals', 'components', 'routing'"@,
            spec_schema_one("section"@, "Section name or path to retrieve"@),
        ),
        (
            "leptos-autofixer"@,
            "Analyze Leptos code and suggest fixes for common issues"@,
            spec_schema_one("code"@, "Leptos code to analyze"@),
        ),
    ]
}

/// Schema of an operation that takes no arguments, executably.
fn schema_noargs() -> (r: Json)
    ensures
        r.jv() == spec_schema_noargs(),
{
    let mut f: Vec<(String, Json)> = Vec::new();
    f.push((String::from_str("type"), Json::Str(String::from_str("object"))));
    f.push((String::from_str("properties"), Json::Obj(Vec::new())));
    f.push((String::from_str("required"), Json::Arr(Vec::new())));
    let ghost fv = f@;
    let r = Json::Obj(f);
    proof {
        lemma_jv_fields(fv, 0);
        assert(jv_fields(fv, 0)[0] == (fv[0].0@, fv[0].1.jv()));
        assert(jv_fields(fv, 0)[1] == (fv[1].0@, fv[1].1.jv()));
        assert(jv_fields(fv, 0)[2] == (fv[2].0@, fv[2].1.jv()));
        assert(fv[1].1.jv() =~= JVal::Obj(Seq::empty()));
        assert(fv[2].1.jv() =~= JVal::Arr(Seq::empty()));
        assert(jv_fields(fv, 0) =~= spec_schema_noargs()->Obj_0);
    }
    r
}

/// Schema of an operation that takes one required string argument,
/// executably.
fn schema_one(arg: &str, desc: &str) -> (r: Json)
    ensures
        r.jv() == spec_schema_one(arg@, desc@),
{
    let mut inner: Vec<(String, Json)> = Vec::new();
    inner.push((String::from_str("type"), Json::Str(String::from_str("string"))));
    inner.push((String::from_str("description"), Json::Str(String::from_str(desc))));
    let ghost iv = inner@;
    let mut props: Vec<(String, Json)> = Vec::new();
    props.push((String::from_str(arg), Json::Obj(inner)));
    let ghost pv = props@;
    let mut reqd: Vec<Json> = Vec::new();
    reqd.push(Json::Str(String::from_str(arg)));
    let ghost qv = reqd@;
    let mut f: Vec<(String, Json)> = Vec::new();
    f.push((String::from_str("type"), Json::Str(String::from_str("object"))));
    f.push((String::from_str("properties"), Json::Obj(props)));
    f.push((String::from_str("required"), Json::Arr(reqd)));
    let ghost fv = f@;
    let r = Json::Obj(f);
    proof {
        lemma_jv_fields(iv, 0);
        assert(jv_fields(iv, 0)[0] == (iv[0].0@, iv[0].1.jv()));
        assert(jv_fields(iv, 0)[1] == (iv[1].0@, iv[1].1.jv()));
        assert(jv_fields(iv, 0) =~= seq![
            ("type"@, JVal::Str("string"@)),
            ("description"@, JVal::Str(desc@)),
        ]);
        lemma_jv_fields(pv, 0);
        assert(jv_fields(pv, 0)[0] == (pv[0].0@, pv[0].1.jv()));
        assert(jv_fields(pv, 0) =~= spec_schema_one(arg@, desc@)->Obj_0[1].1->Obj_0);
        lemma_jv_items(qv, 0);
        assert(jv_items(qv, 0)[0] == qv[0].jv());
        assert(jv_items(qv, 0) =~= seq![JVal::Str(arg@)]);
        lemma_jv_fields(fv, 0);
        assert(jv_fields(fv, 0)[0] == (fv[0].0@, fv[0].1.jv()));
        assert(jv_fields(fv, 0)[1] == (fv[1].0@, fv[1].1.jv()));
        assert(jv_fields(fv, 0)[2] == (fv[2].0@, fv[2].1.jv()));
        assert(jv_fields(fv, 0) =~= spec_schema_one(arg@, desc@)->Obj_0);
    }
    r
}

/// The capability table: computed once, read-only thereafter, in a stable
/// declaration order.
pub fn capabilities() -> (out: Vec<ToolDescriptor>)
    ensures
        out@.len() == spec_capabilities().len(),
        forall|i: int|
            0 <= i < out@.len() ==> (#[trigger] out@[i]).tv() == spec_capabilities()[i],
{
    let mut out: Vec<ToolDescriptor> = Vec::new();
    out.push(
        ToolDescriptor {
            name: String::from_str("list-sections"),
            description: String::from_str(
                "List all available Leptos documentation sections with their use cases",
            ),
            input_schema: schema_noargs(),
        },
    );
    out.push(
        ToolDescriptor {
            name: String::from_str("get-documentation"),
            description: String::from_str(
                "Get Leptos documentation for a specific section. Pass section name like 'signals', 'components', 'routing'",
            ),
            input_schema: schema_one("section", "Section name or path to retrieve"),
        },
    );
    out.push(
        ToolDescriptor {
            name: String::from_str("leptos-autofixer"),
            description: String::from_str("Analyze Leptos code and suggest fixes for common issues"),
            input_schema: schema_one("code", "Leptos code to analyze"),
        },
    );
    out
}

/// The wire object of one capability entry.
pub open spec fn spec_tool_jv(t: (Seq<char>, Seq<char>, JVal)) -> JVal {
    JVal::Obj(
        seq![
            ("name"@, JVal::Str(t.0)),
            ("description"@, JVal::Str(t.1)),
            ("inputSchema"@, t.2),
        ],
    )
}

/// The handshake payload.
pub open spec fn spec_initialize_jv() -> JVal {
    JVal::Obj(
        seq![
            ("protocolVersion"@, JVal::Str("2024-11-05"@)),
            ("capabilities"@, JVal::Obj(seq![("tools"@, JVal::Obj(Seq::empty()))])),
            (
                "serverInfo"@,
                JVal::Obj(
                    seq![
                        ("name"@, JVal::Str("leptos-mcp-server"@)),
                        ("version"@, JVal::Str("0.1.0"@)),
                    ],
                ),
            ),
        ],
    )
}

/// The capability-listing payload.
pub open spec fn spec_tools_list_jv() -> JVal {
    JVal::Obj(
        seq![
            (
                "tools"@,
                JVal::Arr(
                    Seq::new(
                        spec_capabilities().len(),
                        |i: int| spec_tool_jv(spec_capabilities()[i]),
                    ),
                ),
            ),
        ],
    )
}

/// The invocation-result envelope: one text content block.
pub open spec fn spec_tool_result(text: Seq<char>) -> JVal {
    JVal::Obj(
        seq![
            (
                "content"@,
                JVal::Arr(
                    seq![
                        JVal::Obj(
                            seq![("type"@, JVal::Str("text"@)), ("text"@, JVal::Str(text))],
                        ),
                    ],
                ),
            ),
        ],
    )
}

/// Spec-level protocol failure of an invocation request.
pub enum CallErr {
    MissingParams,
    MissingName,
    Unknown(Seq<char>),
}

/// Protocol-level failure of an invocation request: the payload is absent,
/// names no operation, or names an unknown one.
pub enum ProtoError {
    MissingParams,
    MissingName,
    UnknownTool(String),
}

/// The message a protocol failure carries.
pub open spec fn err_message(e: CallErr) -> Seq<char> {
    match e {
        CallErr::MissingParams => "Missing params"@,
        CallErr::MissingName => "Missing tool name"@,
        CallErr::Unknown(n) => "Unknown tool: "@ + n,
    }
}

impl ProtoError {
    /// The mathematical failure this value stands for.
    pub open spec fn ev(self) -> CallErr {
        match self {
            ProtoError::MissingParams => CallErr::MissingParams,
            ProtoError::MissingName => CallErr::MissingName,
            ProtoError::UnknownTool(n) => CallErr::Unknown(n@),
        }
    }

    /// The human-readable message of this failure.
    pub fn message(&self) -> (m: String)
        ensures
            m@ == err_message(self.ev()),
    {
        match self {
            ProtoError::MissingParams => String::from_str("Missing params"),
            ProtoError::MissingName => String::from_str("Missing tool name"),
            ProtoError::UnknownTool(n) => {
                let mut m = String::from_str("Unknown tool: ");
                m.append(n.as_str());
                m
            },
        }
    }
}

/// What invoking an operation means: which payloads fail with which error,
/// and what text a successful invocation wraps.
pub open spec fn spec_call_tool(p: Option<JVal>) -> Result<JVal, CallErr> {
    match p {
        None => Err(CallErr::MissingParams),
        Some(pv) => match jval_get(pv, "name"@) {
            Some(JVal::Str(nm)) => {
                let args = match jval_get(pv, "arguments"@) {
                    Some(a) => a,
                    None => JVal::Obj(Seq::empty()),
                };
                if nm == "list-sections"@ {
                    Ok(spec_tool_result(join_nl(section_lines(spec_sections()))))
                } else if nm == "get-documentation"@ {
                    let section = match jval_get(args, "section"@) {
                        Some(JVal::Str(s)) => s,
                        _ => Seq::empty(),
                    };
                    Ok(spec_tool_result(spec_documentation(section)))
                } else if nm == "leptos-autofixer"@ {
                    let code = match jval_get(args, "code"@) {
                        Some(JVal::Str(s)) => s,
                        _ => Seq::empty(),
                    };
                    Ok(spec_tool_result(spec_advice(code)))
                } else {
                    Err(CallErr::Unknown(nm))
                }
            },
            _ => Err(CallErr::MissingName),
        },
    }
}

/// A successful response object.
pub open spec fn success_jv(id: JVal, v: JVal) -> JVal {
    JVal::Obj(seq![("jsonrpc"@, JVal::Str("2.0"@)), ("id"@, id), ("result"@, v)])
}

/// A protocol-error response object.
pub open spec fn error_jv(id: JVal, code: int, msg: Seq<char>) -> JVal {
    JVal::Obj(
        seq![
            ("jsonrpc"@, JVal::Str("2.0"@)),
            ("id"@, id),
            (
                "error"@,
                JVal::Obj(seq![("code"@, JVal::Int(code)), ("message"@, JVal::Str(msg))]),
            ),
        ],
    )
}

/// What answering a request means, for every method. Unknown methods get an
/// empty success payload on purpose: probing clients must not hang, and
/// unknown notifications are silently accepted.
pub open spec fn spec_handle_request(rv: ReqV) -> JVal {
    let id = match rv.id {
        Some(v) => v,
        None => JVal::Null,
    };
    if rv.method == "initialize"@ {
        success_jv(id, spec_initialize_jv())
    } else if rv.method == "tools/list"@ {
        success_jv(id, spec_tools_list_jv())
    } else if rv.method == "tools/call"@ {
        match spec_call_tool(rv.params) {
            Ok(v) => success_jv(id, v),
            Err(e) => error_jv(id, -32600, err_message(e)),
        }
    } else {
        success_jv(id, JVal::Obj(Seq::empty()))
    }
}

/// The protocol server: the operation registry behind a dispatcher.
pub struct McpServer {
    tools: LeptosTools,
}

impl McpServer {
    /// A fresh server over a fresh registry.
    pub fn new() -> (r: McpServer) {
        McpServer { tools: LeptosTools::new() }
    }

    /// The handshake payload, executably.
    fn handle_initialize(&self) -> (r: Json)
        ensures
            r.jv() == spec_initialize_jv(),
    {
        let mut caps: Vec<(String, Json)> = Vec::new();
        caps.push((String::from_str("tools"), Json::Obj(Vec::new())));
        let ghost cv = caps@;
        let mut info: Vec<(String, Json)> = Vec::new();
        info.push((String::from_str("name"), Json::Str(String::from_str("leptos-mcp-server"))));
        info.push((String::from_str("version"), Json::Str(String::from_str("0.1.0"))));
        let ghost nv = info@;
        let mut f: Vec<(String, Json)> = Vec::new();
        f.push((String::from_str("protocolVersion"), Json::Str(String::from_str("2024-11-05"))));
        f.push((String::from_str("capabilities"), Json::Obj(caps)));
        f.push((String::from_str("serverInfo"), Json::Obj(info)));
        let ghost fv = f@;
        let r = Json::Obj(f);
        proof {
            lemma_jv_fields(cv, 0);
            assert(jv_fields(cv, 0)[0] == (cv[0].0@, cv[0].1.jv()));
            assert(cv[0].1.jv() =~= JVal::Obj(Seq::empty()));
            assert(jv_fields(cv, 0) =~= seq![("tools"@, JVal::Obj(Seq::empty()))]);
            lemma_jv_fields(nv, 0);
            assert(jv_fields(nv, 0)[0] == (nv[0].0@, nv[0].1.jv()));
            assert(jv_fields(nv, 0)[1] == (nv[1].0@, nv[1].1.jv()));
            assert(jv_fields(nv, 0) =~= spec_initialize_jv()->Obj_0[2].1->Obj_0);
            lemma_jv_fields(fv, 0);
            assert(jv_fields(fv, 0)[0] == (fv[0].0@, fv[0].1.jv()));
            assert(jv_fields(fv, 0)[1] == (fv[1].0@, fv[1].1.jv()));
            assert(jv_fields(fv, 0)[2] == (fv[2].0@, fv[2].1.jv()));
            assert(jv_fields(fv, 0) =~= spec_initialize_jv()->Obj_0);
        }
        r
    }

    /// The capability-listing payload, executably: the capability table
    /// rendered in its stable order.
    fn handle_list_tools(&self) -> (r: Json)
        ensures
            r.jv() == spec_tools_list_jv(),
    {
        let caps = capabilities();
        let ghost specs = spec_capabilities();
        let n = caps.len();
        let mut arr: Vec<Json> = Vec::new();
        let mut i: usize = 0;
        while i < n
            invariant
                n == caps@.len(),
                n == specs.len(),
                i <= n,
                specs == spec_capabilities(),
                forall|k: int| 0 <= k < n ==> (#[trigger] caps@[k]).tv() == specs[k],
                arr@.len() == i,
                forall|k: int| 0 <= k < i ==> (#[trigger] arr@[k]).jv() == spec_tool_jv(specs[k]),
            decreases n - i,
        {
            let d = &caps[i];
            let mut f: Vec<(String, Json)> = Vec::new();
            f.push((String::from_str("name"), Json::Str(d.name.clone())));
            f.push((String::from_str("description"), Json::Str(d.description.clone())));
            f.push((String::from_str("inputSchema"), clone_json(&d.input_schema)));
            let ghost fv = f@;
            let tool = Json::Obj(f);
            proof {
                lemma_jv_fields(fv, 0);
                assert(jv_fields(fv, 0)[0] == (fv[0].0@, fv[0].1.jv()));
                assert(jv_fields(fv, 0)[1] == (fv[1].0@, fv[1].1.jv()));
                assert(jv_fields(fv, 0)[2] == (fv[2].0@, fv[2].1.jv()));
                assert(jv_fields(fv, 0) =~= spec_tool_jv(specs[i as int])->Obj_0);
            }
            arr.push(tool);
            i = i + 1;
        }
        let ghost av = arr@;
        let mut out: Vec<(String, Json)> = Vec::new();
        out.push((String::from_str("tools"), Json::Arr(arr)));
        let ghost ov = out@;
        let r = Json::Obj(out);
        proof {
            lemma_jv_items(av, 0);
            assert forall|k: int| 0 <= k < n implies jv_items(av, 0)[k] == spec_tools_list_jv()
                ->Obj_0[0].1->Arr_0[k] by {
                assert(jv_items(av, 0)[k] == av[k].jv());
            }
            assert(jv_items(av, 0) =~= spec_tools_list_jv()->Obj_0[0].1->Arr_0);
            lemma_jv_fields(ov, 0);
            assert(jv_fields(ov, 0)[0] == (ov[0].0@, ov[0].1.jv()));
            assert(jv_fields(ov, 0) =~= spec_tools_list_jv()->Obj_0);
        }
        r
    }

    /// The invocation-result envelope, executably.
    fn tool_result(&self, text: String) -> (r: Json)
        ensures
            r.jv() == spec_tool_result(text@),
    {
        let ghost tv = text@;
        let mut block: Vec<(String, Json)> = Vec::new();
        block.push((String::from_str("type"), Json::Str(String::from_str("text"))));
        block.push((String::from_str("text"), Json::Str(text)));
        let ghost bv = block@;
        let mut arr: Vec<Json> = Vec::new();
        arr.push(Json::Obj(block));
        let ghost av = arr@;
        let mut f: Vec<(String, Json)> = Vec::new();
        f.push((String::from_str("content"), Json::Arr(arr)));
        let ghost fv = f@;
        let r = Json::Obj(f);
        proof {
            lemma_jv_fields(bv, 0);
            assert(jv_fields(bv, 0)[0] == (bv[0].0@, bv[0].1.jv()));
            assert(jv_fields(bv, 0)[1] == (bv[1].0@, bv[1].1.jv()));
            assert(jv_fields(bv, 0) =~= seq![
                ("type"@, JVal::Str("text"@)),
                ("text"@, JVal::Str(tv)),
            ]);
            lemma_jv_items(av, 0);
            assert(jv_items(av, 0)[0] == av[0].jv());
            assert(jv_items(av, 0) =~= spec_tool_result(tv)->Obj_0[0].1->Arr_0);
            lemma_jv_fields(fv, 0);
            assert(jv_fields(fv, 0)[0] == (fv[0].0@, fv[0].1.jv()));
            assert(jv_fields(fv, 0) =~= spec_tool_result(tv)->Obj_0);
        }
        r
    }

    /// Invoke one operation, or say which protocol failure the payload has.
    pub fn handle_call_tool(&self, params: Option<&Json>) -> (r: Result<Json, ProtoError>)
        ensures
            match (spec_call_tool(
                match params {
                    Some(p) => Some(p.jv()),
                    None => None,
                },
            ), r) {
                (Ok(v), Ok(j)) => j.jv() == v,
                (Err(e1), Err(e2)) => e2.ev() == e1,
                _ => false,
            },
    {
        let p = match params {
            None => {
                return Err(ProtoError::MissingParams);
            },
            Some(p) => p,
        };
        let name = match p {
            Json::Obj(fields) => match get_field(fields, "name") {
                Some(nj) => match nj {
                    Json::Str(ns) => ns.clone(),
                    _ => {
                        return Err(ProtoError::MissingName);
                    },
                },
                None => {
                    return Err(ProtoError::MissingName);
                },
            },
            _ => {
                return Err(ProtoError::MissingName);
            },
        };
        let empty_args = Json::Obj(Vec::new());
        let args: &Json = match p {
            Json::Obj(fields) => match get_field(fields, "arguments") {
                Some(a) => a,
                None => &empty_args,
            },
            _ => &empty_args,
        };
        proof {
            assert(empty_args.jv() =~= JVal::Obj(Seq::empty()));
        }
        if str_eq(name.as_str(), "list-sections") {
            let text = self.tools.list_sections();
            Ok(self.tool_result(text))
        } else if str_eq(name.as_str(), "get-documentation") {
            let section: String = match args {
                Json::Obj(fields) => match get_field(fields, "section") {
                    Some(sj) => match sj {
                        Json::Str(ss) => ss.clone(),
                        _ => String::new(),
                    },
                    None => String::new(),
                },
                _ => String::new(),
            };
            let text = self.tools.get_documentation(section.as_str());
            Ok(self.tool_result(text))
        } else if str_eq(name.as_str(), "leptos-autofixer") {
            let code: String = match args {
                Json::Obj(fields) => match get_field(fields, "code") {
                    Some(sj) => match sj {
                        Json::Str(ss) => ss.clone(),
                        _ => String::new(),
                    },
                    None => String::new(),
                },
                _ => String::new(),
            };
            let text = self.tools.leptos_autofixer(code.as_str());
            Ok(self.tool_result(text))
        } else {
            Err(ProtoError::UnknownTool(name))
        }
    }

    /// Answer one request: every request gets exactly one response, carrying
    /// the request's own identifier.
    pub fn handle_request(&self, req: &Request) -> (resp: Response)
        ensures
            resp_jv(resp) == spec_handle_request(req.rv()),
            req.rv().id is Some ==> resp.id.jv() == req.rv().id->0,
    {
        let id = match &req.id {
            Some(j) => clone_json(j),
            None => Json::Null,
        };
        let ghost idv = id.jv();
        if str_eq(req.method.as_str(), "initialize") {
            let v = self.handle_initialize();
            let resp = Response { id, body: RespBody::Value(v) };
            proof {
                assert(resp_jv(resp)->Obj_0 =~= spec_handle_request(req.rv())->Obj_0);
            }
            resp
        } else if str_eq(req.method.as_str(), "tools/list") {
            let v = self.handle_list_tools();
            let resp = Response { id, body: RespBody::Value(v) };
            proof {
                assert(resp_jv(resp)->Obj_0 =~= spec_handle_request(req.rv())->Obj_0);
            }
            resp
        } else if str_eq(req.method.as_str(), "tools/call") {
            match self.handle_call_tool(req.params.as_ref()) {
                Ok(v) => {
                    let resp = Response { id, body: RespBody::Value(v) };
                    proof {
                        assert(resp_jv(resp)->Obj_0 =~= spec_handle_request(req.rv())->Obj_0);
                    }
                    resp
                },
                Err(e) => {
                    let msg = e.message();
                    let resp = Response {
                        id,
                        body: RespBody::Failure(RespError { code: -32600, message: msg }),
                    };
                    proof {
                        assert(resp_jv(resp)->Obj_0[2].1->Obj_0 =~= spec_handle_request(
                            req.rv(),
                        )->Obj_0[2].1->Obj_0);
                        assert(resp_jv(resp)->Obj_0 =~= spec_handle_request(req.rv())->Obj_0);
                    }
                    resp
                },
            }
        } else {
            let v = Json::Obj(Vec::new());
            proof {
                assert(v.jv() =~= JVal::Obj(Seq::empty()));
            }
            let resp = Response { id, body: RespBody::Value(v) };
            proof {
                assert(resp_jv(resp)->Obj_0 =~= spec_handle_request(req.rv())->Obj_0);
            }
            resp
        }
    }

    /// What one input line produces on the output stream: nothing for blank,
    /// malformed, or notification lines; one encoded response for a request.
    pub open spec fn spec_handle_line(t: Seq<char>) -> Option<Seq<char>> {
        match spec_decode(t) {
            Err(_) => None,
            Ok(rv) => match rv.id {
                None => None,
                Some(_) => Some(enc(spec_handle_request(rv))),
            },
        }
    }

    /// Process one input line. A malformed or blank line is discarded and
    /// the session goes on; a notification gets no reply; a request gets
    /// exactly one reply.
    pub fn handle_line(&self, line: &str) -> (r: Option<String>)
        requires
            line@.len() < u64::MAX,
        ensures
            match (Self::spec_handle_line(line@), r) {
                (None, None) => true,
                (Some(t), Some(out)) => out@ == t,
                _ => false,
            },
    {
        match decode(line) {
            Err(_) => None,
            Ok(req) => {
                if req.id.is_some() {
                    let resp = self.handle_request(&req);
                    let out = encode_response(&resp);
                    Some(out)
                } else {
                    None
                }
            },
        }
    }

    /// The outputs of a whole session, line by line, from position `i` on.
    pub open spec fn session_outputs_from(ls: Seq<Seq<char>>, i: int) -> Seq<Seq<char>>
        decreases ls.len() - i,
    {
        if !(0 <= i < ls.len()) {
            Seq::empty()
        } else {
            (match Self::spec_handle_line(ls[i]) {
                Some(o) => seq![o],
                None => Seq::empty(),
            }) + Self::session_outputs_from(ls, i + 1)
        }
    }

    /// The outputs of a whole session, in arrival order.
    pub open spec fn session_outputs(ls: Seq<Seq<char>>) -> Seq<Seq<char>> {
        Self::session_outputs_from(ls, 0)
    }

    /// Run the whole sequential session over a batch of lines: each line is
    /// fully handled before the next, so responses keep arrival order.
    pub fn process_lines(&self, lines: &Vec<String>) -> (outs: Vec<String>)
        requires
            forall|k: int| 0 <= k < lines@.len() ==> (#[trigger] lines@[k])@.len() < u64::MAX,
        ensures
            Seq::new(outs@.len(), |i: int| outs@[i]@) == Self::session_outputs(
                Seq::new(lines@.len(), |i: int| lines@[i]@),
            ),
    {
        let ghost ls = Seq::new(lines@.len(), |i: int| lines@[i]@);
        let n = lines.len();
        let mut outs: Vec<String> = Vec::new();
        let mut i: usize = 0;
        while i < n
            invariant
                n == lines@.len(),
                n == ls.len(),
                i <= n,
                ls == Seq::new(lines@.len(), |k: int| lines@[k]@),
                forall|k: int| 0 <= k < n ==> (#[trigger] lines@[k])@.len() < u64::MAX,
                Seq::new(outs@.len(), |k: int| outs@[k]@) + Self::session_outputs_from(
                    ls,
                    i as int,
                ) == Self::session_outputs(ls),
            decreases n - i,
        {
            let ghost pre = Seq::new(outs@.len(), |k: int| outs@[k]@);
            match self.handle_line(lines[i].as_str()) {
                Some(out) => {
                    outs.push(out);
                    proof {
                        assert(Seq::new(outs@.len(), |k: int| outs@[k]@) =~= pre + seq![
                            outs@[outs@.len() - 1]@,
                        ]);
                        assert(Seq::new(outs@.len(), |k: int| outs@[k]@)
                            + Self::session_outputs_from(ls, i as int + 1) =~= Self::session_outputs(
                            ls,
                        ));
                    }
                },
                None => {
                    proof {
                        assert(Seq::new(outs@.len(), |k: int| outs@[k]@)
                            + Self::session_outputs_from(ls, i as int + 1) =~= Self::session_outputs(
                            ls,
                        ));
                    }
                },
            }
            i = i + 1;
        }
        proof {
            assert(Self::session_outputs_from(ls, n as int) =~= Seq::<Seq<char>>::empty());
            assert(Seq::new(outs@.len(), |k: int| outs@[k]@) =~= Self::session_outputs(ls));
        }
        outs
    }
}

} // verus!
