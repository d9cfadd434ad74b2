//! Documentation content: the sections the server can hand out.

use vstd::prelude::*;
use crate::text::{contains_seq, lower_seq, str_contains, to_lower};

verus! {

/// One documentation section.
#[derive(Debug)]
pub struct DocSection {
    pub title: String,
    pub path: String,
    pub use_cases: String,
    pub content: String,
}

/// The mathematical content of a section.
pub struct SectionV {
    pub title: Seq<char>,
    pub path: Seq<char>,
    pub use_cases: Seq<char>,
    pub content: Seq<char>,
}

impl DocSection {
    /// The mathematical content this section stands for.
    pub open spec fn sv(self) -> SectionV {
        SectionV {
            title: self.title@,
            path: self.path@,
            use_cases: self.use_cases@,
            content: self.content@,
        }
    }
}

/// The fixed table of sections, in declaration order.
pub open spec fn spec_sections() -> Seq<SectionV> {
    seq![
        SectionV {
            title: "Getting Started"@,
            path: "getting-started"@,
            use_cases: "new project, setup, installation, basics, hello world"@,
            content: "Install cargo-leptos, scaffold a project from a starter template, and run `cargo leptos watch` to serve it with live reload."@,
        },
        SectionV {
            title: "Components"@,
            path: "components"@,
            use_cases: "UI, view, component, props, children, #[component], always"@,
            content: "A component is a function annotated with #[component] that returns `impl IntoView`; props are its arguments and children arrive as a `Children` parameter."@,
        },
        SectionV {
            title: "Signals"@,
            path: "signals"@,
            use_cases: "state, reactivity, signals, derived, effects, get, set, read, write, update, always"@,
            content: "`signal(value)` returns a getter and a setter; read with `.get()` inside a reactive closure and write with `.set(..)` or `.update(..)`."@,
        },
        SectionV {
            title: "Views"@,
            path: "views"@,
            use_cases: "view macro, dynamic classes, dynamic styles, attributes, class:, style:, events, always"@,
            content: "The view! macro builds the UI tree; use `class:name=cond` and `style:prop=value` for dynamic styling and `on:event=handler` for events."@,
        },
        SectionV {
            title: "Resources"@,
            path: "resources"@,
            use_cases: "async, data loading, Resource, LocalResource, OnceResource, fetch, API"@,
            content: "A `Resource` ties an async loader to reactive inputs; it reruns when the inputs change and exposes its latest value through `.get()`."@,
        },
        SectionV {
            title: "Actions"@,
            path: "actions"@,
            use_cases: "mutations, POST, forms, ActionForm, ServerAction, submit, create, update, delete"@,
            content: "An `Action` runs an async mutation on demand; `ActionForm` wires an HTML form to a server action including progressive enhancement."@,
        },
        SectionV {
            title: "Server Functions"@,
            path: "server-functions"@,
            use_cases: "backend, API, database, server, SSR, #[server], extractors, Axum"@,
            content: "Functions annotated with #[server] run only on the server and should return `Result<T, ServerFnError>`; the client calls them through a generated endpoint."@,
        },
        SectionV {
            title: "Routing"@,
            path: "routing"@,
            use_cases: "navigation, pages, routes, params, nested routes, Router"@,
            content: "Wrap the app in a `Router`, declare `Route` entries with paths and components, and read path or query parameters with the params hooks."@,
        },
        SectionV {
            title: "Forms"@,
            path: "forms"@,
            use_cases: "form, input, validation, submit, controlled input, prop:value"@,
            content: "For controlled inputs bind the value with `prop:value=` and handle `on:input`; uncontrolled forms can read values on submit instead."@,
        },
        SectionV {
            title: "Error Handling"@,
            path: "error-handling"@,
            use_cases: "errors, ErrorBoundary, Result, ServerFnError, try"@,
            content: "Render fallible views inside an `ErrorBoundary` with a fallback; server functions report failures as `ServerFnError` values."@,
        },
        SectionV {
            title: "Suspense"@,
            path: "suspense"@,
            use_cases: "loading, async, Suspense, Transition, streaming, fallback"@,
            content: "`Suspense` shows a fallback while resources below it load; `Transition` keeps the previous view during refetches."@,
        },
    ]
}

/// Does a section match a lower-cased query, by path or by title?
pub open spec fn section_matches(s: SectionV, ql: Seq<char>) -> bool {
    contains_seq(lower_seq(s.path), ql) || contains_seq(lower_seq(s.title), ql)
}

/// The first matching section at or after position `i`.
pub open spec fn find_section(ss: Seq<SectionV>, ql: Seq<char>, i: int) -> Option<SectionV>
    decreases ss.len() - i,
{
    if !(0 <= i < ss.len()) {
        None
    } else if section_matches(ss[i], ql) {
        Some(ss[i])
    } else {
        find_section(ss, ql, i + 1)
    }
}

/// All available documentation sections, in declaration order.
pub fn list_sections() -> (out: Vec<DocSection>)
    ensures
        out@.len() == spec_sections().len(),
        forall|i: int| 0 <= i < out@.len() ==> (#[trigger] out@[i]).sv() == spec_sections()[i],
{
    let mut out: Vec<DocSection> = Vec::new();
    out.push(
        DocSection {
            title: String::from_str("Getting Started"),
            path: String::from_str("getting-started"),
            use_cases: String::from_str("new project, setup, installation, basics, hello world"),
            content: String::from_str(
                "Install cargo-leptos, scaffold a project from a starter template, and run `cargo leptos watch` to serve it with live reload.",
            ),
        },
    );
    out.push(
        DocSection {
            title: String::from_str("Components"),
            path: String::from_str("components"),
            use_cases: String::from_str("UI, view, component, props, children, #[component], always"),
            content: String::from_str(
                "A component is a function annotated with #[component] that returns `impl IntoView`; props are its arguments and children arrive as a `Children` parameter.",
            ),
        },
    );
    out.push(
        DocSection {
            title: String::from_str("Signals"),
            path: String::from_str("signals"),
            use_cases: String::from_str(
                "state, reactivity, signals, derived, effects, get, set, read, write, update, always",
            ),
            content: String::from_str(
                "`signal(value)` returns a getter and a setter; read with `.get()` inside a reactive closure and write with `.set(..)` or `.update(..)`.",
            ),
        },
    );
    out.push(
        DocSection {
            title: String::from_str("Views"),
            path: String::from_str("views"),
            use_cases: String::from_str(
                "view macro, dynamic classes, dynamic styles, attributes, class:, style:, events, always",
            ),
            content: String::from_str(
                "The view! macro builds the UI tree; use `class:name=cond` and `style:prop=value` for dynamic styling and `on:event=handler` for events.",
            ),
        },
    );
    out.push(
        DocSection {
            title: String::from_str("Resources"),
            path: String::from_str("resources"),
            use_cases: String::from_str(
                "async, data loading, Resource, LocalResource, OnceResource, fetch, API",
            ),
            content: String::from_str(
                "A `Resource` ties an async loader to reactive inputs; it reruns when the inputs change and exposes its latest value through `.get()`.",
            ),
        },
    );
    out.push(
        DocSection {
            title: String::from_str("Actions"),
            path: String::from_str("actions"),
            use_cases: String::from_str(
                "mutations, POST, forms, ActionForm, ServerAction, submit, create, update, delete",
            ),
            content: String::from_str(
                "An `Action` runs an async mutation on demand; `ActionForm` wires an HTML form to a server action including progressive enhancement.",
            ),
        },
    );
    out.push(
        DocSection {
            title: String::from_str("Server Functions"),
            path: String::from_str("server-functions"),
            use_cases: String::from_str(
                "backend, API, database, server, SSR, #[server], extractors, Axum",
            ),
            content: String::from_str(
                "Functions annotated with #[server] run only on the server and should return `Result<T, ServerFnError>`; the client calls them through a generated endpoint.",
            ),
        },
    );
    out.push(
        DocSection {
            title: String::from_str("Routing"),
            path: String::from_str("routing"),
            use_cases: String::from_str("navigation, pages, routes, params, nested routes, Router"),
            content: String::from_str(
                "Wrap the app in a `Router`, declare `Route` entries with paths and components, and read path or query parameters with the params hooks.",
            ),
        },
    );
    out.push(
        DocSection {
            title: String::from_str("Forms"),
            path: String::from_str("forms"),
            use_cases: String::from_str("form, input, validation, submit, controlled input, prop:value"),
            content: String::from_str(
                "For controlled inputs bind the value with `prop:value=` and handle `on:input`; uncontrolled forms can read values on submit instead.",
            ),
        },
    );
    out.push(
        DocSection {
            title: String::from_str("Error Handling"),
            path: String::from_str("error-handling"),
            use_cases: String::from_str("errors, ErrorBoundary, Result, ServerFnError, try"),
            content: String::from_str(
                "Render fallible views inside an `ErrorBoundary` with a fallback; server functions report failures as `ServerFnError` values.",
            ),
        },
    );
    out.push(
        DocSection {
            title: String::from_str("Suspense"),
            path: String::from_str("suspense"),
            use_cases: String::from_str("loading, async, Suspense, Transition, streaming, fallback"),
            content: String::from_str(
                "`Suspense` shows a fallback while resources below it load; `Transition` keeps the previous view during refetches.",
            ),
        },
    );
    proof {
        assert forall|i: int| 0 <= i < out@.len() implies (#[trigger] out@[i]).sv()
            == spec_sections()[i] by {
        }
    }
    out
}

/// The first section whose path or title contains the query, compared
/// without regard to ASCII case.
pub fn get_section(query: &str) -> (r: Option<DocSection>)
    ensures
        match (find_section(spec_sections(), lower_seq(query@), 0), r) {
            (None, None) => true,
            (Some(sv), Some(sec)) => sec.sv() == sv,
            _ => false,
        },
{
    let ql = to_lower(query);
    let sections = list_sections();
    let n = sections.len();
    let mut i: usize = 0;
    while i < n
        invariant
            n == sections@.len(),
            n == spec_sections().len(),
            i <= n,
            ql@ == lower_seq(query@),
            forall|k: int|
                0 <= k < n ==> (#[trigger] sections@[k]).sv() == spec_sections()[k],
            find_section(spec_sections(), ql@, i as int) == find_section(
                spec_sections(),
                ql@,
                0,
            ),
        decreases n - i,
    {
        let sec = &sections[i];
        let pl = to_lower(sec.path.as_str());
        let tl = to_lower(sec.title.as_str());
        let hit = {
            let a = str_contains(pl.as_str(), ql.as_str());
            if a {
                true
            } else {
                str_contains(tl.as_str(), ql.as_str())
            }
        };
        if hit {
            let found = DocSection {
                title: sec.title.clone(),
                path: sec.path.clone(),
                use_cases: sec.use_cases.clone(),
                content: sec.content.clone(),
            };
            return Some(found);
        }
        i = i + 1;
    }
    None
}

} // verus!
