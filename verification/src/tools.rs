//! The operations the server exposes: listing sections, fetching
//! documentation, and a small code advisor.

use vstd::prelude::*;
use crate::docs;
use crate::docs::{SectionV, find_section, spec_sections};
use crate::text::{contains_seq, join_nl, lemma_join_nl_push, lower_seq, str_contains};

verus! {

/// The operation registry.
pub struct LeptosTools {}

/// One line of the section listing.
pub open spec fn section_line(s: SectionV) -> Seq<char> {
    "* title: "@ + s.title + ", use_cases: "@ + s.use_cases + ", path: "@ + s.path
}

/// All section listing lines, in declaration order.
pub open spec fn section_lines(ss: Seq<SectionV>) -> Seq<Seq<char>> {
    Seq::new(ss.len(), |i: int| section_line(ss[i]))
}

/// What `get_documentation` answers for a query.
pub open spec fn spec_documentation(q: Seq<char>) -> Seq<char> {
    match find_section(spec_sections(), lower_seq(q), 0) {
        Some(s) => "# "@ + s.title + "\n\n"@ + s.content,
        None => "Section '"@ + q + "' not found. Use list-sections to see available sections."@,
    }
}

/// The advisory messages the code advisor raises, in a fixed order.
pub open spec fn advice_msgs(code: Seq<char>) -> Seq<Seq<char>> {
    (if contains_seq(code, ".get()"@) && !contains_seq(code, "move ||"@) && contains_seq(
        code,
        "view!"@,
    ) {
        seq![
            "ERROR: Found .get() in view without `move ||`. Reactive values should use `{move || value.get()}`"@,
        ]
    } else {
        Seq::empty()
    }) + (if contains_seq(code, "let signal ="@) || contains_seq(code, "create_signal"@) {
        seq![
            "WARNING: Consider using `let (getter, setter) = signal(value)` pattern for clarity"@,
        ]
    } else {
        Seq::empty()
    }) + (if contains_seq(code, "println!"@) {
        seq![
            "WARNING: Use tracing macros (tracing::info!, tracing::debug!) instead of println!"@,
        ]
    } else {
        Seq::empty()
    }) + (if contains_seq(code, "-> impl IntoView"@) && !contains_seq(code, "#[component]"@) {
        seq!["ERROR: Functions returning `impl IntoView` should have #[component] attribute"@]
    } else {
        Seq::empty()
    }) + (if contains_seq(code, "#[server"@) && !contains_seq(code, "ServerFnError"@) {
        seq!["INFO: Server functions should return Result<T, ServerFnError>"@]
    } else {
        Seq::empty()
    }) + (if contains_seq(code, "create_signal"@) {
        seq!["INFO: In Leptos 0.8+, use `signal()` instead of `create_signal()`"@]
    } else {
        Seq::empty()
    }) + (if contains_seq(code, "value="@) && !contains_seq(code, "prop:value="@) && contains_seq(
        code,
        "<input"@,
    ) {
        seq!["WARNING: For controlled inputs, use `prop:value=` instead of `value=`"@]
    } else {
        Seq::empty()
    })
}

/// What the code advisor answers.
pub open spec fn spec_advice(code: Seq<char>) -> Seq<char> {
    if advice_msgs(code).len() == 0 {
        "\u{e2}\u{153}\u{201c} No issues found. Code looks good!"@
    } else {
        join_nl(advice_msgs(code))
    }
}

impl LeptosTools {
    /// A fresh registry.
    pub fn new() -> (r: LeptosTools) {
        LeptosTools {  }
    }

    /// The section listing, one line per section.
    pub fn list_sections(&self) -> (out: String)
        ensures
            out@ == join_nl(section_lines(spec_sections())),
    {
        let sections = docs::list_sections();
        let ghost lines = section_lines(spec_sections());
        let n = sections.len();
        let mut out = String::new();
        let mut i: usize = 0;
        while i < n
            invariant
                n == sections@.len(),
                n == spec_sections().len(),
                i <= n,
                forall|k: int|
                    0 <= k < n ==> (#[trigger] sections@[k]).sv() == spec_sections()[k],
                lines == section_lines(spec_sections()),
                out@ == join_nl(lines.subrange(0, i as int)),
            decreases n - i,
        {
            proof {
                lemma_join_nl_push(lines.subrange(0, i as int), lines[i as int]);
                assert(lines.subrange(0, i as int).push(lines[i as int]) =~= lines.subrange(
                    0,
                    i as int + 1,
                ));
            }
            if i > 0 {
                out.append("\n");
                proof {
                    reveal_strlit("\n");
                }
            }
            let sec = &sections[i];
            out.append("* title: ");
            out.append(sec.title.as_str());
            out.append(", use_cases: ");
            out.append(sec.use_cases.as_str());
            out.append(", path: ");
            out.append(sec.path.as_str());
            proof {
                assert(out@ =~= join_nl(lines.subrange(0, i as int + 1)));
            }
            i = i + 1;
        }
        proof {
            assert(lines.subrange(0, n as int) =~= lines);
        }
        out
    }

    /// Documentation for one section, or a note that it was not found.
    pub fn get_documentation(&self, section: &str) -> (out: String)
        ensures
            out@ == spec_documentation(section@),
    {
        match docs::get_section(section) {
            Some(doc) => {
                let mut out = String::from_str("# ");
                out.append(doc.title.as_str());
                out.append("\n\n");
                out.append(doc.content.as_str());
                proof {
                    assert(out@ =~= spec_documentation(section@));
                }
                out
            },
            None => {
                let mut out = String::from_str("Section '");
                out.append(section);
                out.append("' not found. Use list-sections to see available sections.");
                proof {
                    assert(out@ =~= spec_documentation(section@));
                }
                out
            },
        }
    }

    /// Advice on a piece of code: the raised messages joined by newlines, or
    /// a note that nothing was found.
    #[verifier::rlimit(100)]
    pub fn leptos_autofixer(&self, code: &str) -> (out: String)
        ensures
            out@ == spec_advice(code@),
    {
        let mut picked: Vec<&'static str> = Vec::new();

        let c_get = str_contains(code, ".get()");
        let c_move = str_contains(code, "move ||");
        let c_view = str_contains(code, "view!");
        if c_get && !c_move && c_view {
            picked.push(
                "ERROR: Found .get() in view without `move ||`. Reactive values should use `{move || value.get()}`",
            );
        }
        let c_letsig = str_contains(code, "let signal =");
        let c_create = str_contains(code, "create_signal");
        if c_letsig || c_create {
            picked.push(
                "WARNING: Consider using `let (getter, setter) = signal(value)` pattern for clarity",
            );
        }
        if str_contains(code, "println!") {
            picked.push(
                "WARNING: Use tracing macros (tracing::info!, tracing::debug!) instead of println!",
            );
        }
        let c_intoview = str_contains(code, "-> impl IntoView");
        let c_component = str_contains(code, "#[component]");
        if c_intoview && !c_component {
            picked.push(
                "ERROR: Functions returning `impl IntoView` should have #[component] attribute",
            );
        }
        let c_server = str_contains(code, "#[server");
        let c_sfe = str_contains(code, "ServerFnError");
        if c_server && !c_sfe {
            picked.push("INFO: Server functions should return Result<T, ServerFnError>");
        }
        if c_create {
            picked.push("INFO: In Leptos 0.8+, use `signal()` instead of `create_signal()`");
        }
        let c_value = str_contains(code, "value=");
        let c_propvalue = str_contains(code, "prop:value=");
        let c_input = str_contains(code, "<input");
        if c_value && !c_propvalue && c_input {
            picked.push("WARNING: For controlled inputs, use `prop:value=` instead of `value=`");
        }
        proof {
            assert(picked@.len() == advice_msgs(code@).len() && forall|k: int|
                0 <= k < picked@.len() ==> (#[trigger] picked@[k])@ == advice_msgs(code@)[k]);
        }
        if picked.len() == 0 {
            let out = String::from_str("\u{e2}\u{153}\u{201c} No issues found. Code looks good!");
            return out;
        }
        let ghost msgs = advice_msgs(code@);
        let n = picked.len();
        let mut out = String::new();
        let mut i: usize = 0;
        while i < n
            invariant
                n == picked@.len(),
                n == msgs.len(),
                n > 0,
                i <= n,
                msgs == advice_msgs(code@),
                forall|k: int| 0 <= k < n ==> (#[trigger] picked@[k])@ == msgs[k],
                out@ == join_nl(msgs.subrange(0, i as int)),
            decreases n - i,
        {
            proof {
                lemma_join_nl_push(msgs.subrange(0, i as int), msgs[i as int]);
                assert(msgs.subrange(0, i as int).push(msgs[i as int]) =~= msgs.subrange(
                    0,
                    i as int + 1,
                ));
            }
            if i > 0 {
                out.append("\n");
                proof {
                    reveal_strlit("\n");
                }
            }
            out.append(picked[i]);
            proof {
                assert(out@ =~= join_nl(msgs.subrange(0, i as int + 1)));
            }
            i = i + 1;
        }
        proof {
            assert(msgs.subrange(0, n as int) =~= msgs);
        }
        out
    }
}

} // verus!
