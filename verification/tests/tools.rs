//! The operation registry: section listing, documentation lookup, and the
//! code advisor.

use leptos_mcp::docs::{get_section, list_sections};
use leptos_mcp::tools::LeptosTools;

#[test]
fn eleven_sections_in_declaration_order() {
    let sections = list_sections();
    assert_eq!(sections.len(), 11);
    assert_eq!(sections[0].title, "Getting Started");
    assert_eq!(sections[0].path, "getting-started");
    assert_eq!(sections[10].title, "Suspense");
}

#[test]
fn get_section_matches_case_insensitively_on_path_or_title() {
    assert_eq!(get_section("SIGNALS").unwrap().path, "signals");
    assert_eq!(get_section("Server Functions").unwrap().path, "server-functions");
    assert_eq!(get_section("rout").unwrap().path, "routing");
    assert!(get_section("no such thing").is_none());
}

#[test]
fn get_section_returns_the_first_match() {
    // "s" occurs in several paths; the first section in declaration order wins
    assert_eq!(get_section("s").unwrap().path, "getting-started");
}

#[test]
fn list_sections_renders_one_line_per_section() {
    let tools = LeptosTools::new();
    let out = tools.list_sections();
    let lines: Vec<&str> = out.split('\n').collect();
    assert_eq!(lines.len(), 11);
    assert_eq!(
        lines[0],
        "* title: Getting Started, use_cases: new project, setup, installation, basics, hello world, path: getting-started"
    );
}

#[test]
fn get_documentation_formats_a_found_section() {
    let tools = LeptosTools::new();
    let out = tools.get_documentation("signals");
    assert!(out.starts_with("# Signals\n\n"));
}

#[test]
fn get_documentation_reports_a_miss_verbatim() {
    let tools = LeptosTools::new();
    assert_eq!(
        tools.get_documentation("nope"),
        "Section 'nope' not found. Use list-sections to see available sections."
    );
}

#[test]
fn autofixer_reports_nothing_on_clean_code() {
    let tools = LeptosTools::new();
    assert_eq!(tools.leptos_autofixer("fn main() {}"), "\u{e2}\u{153}\u{201c} No issues found. Code looks good!");
}

#[test]
fn autofixer_flags_get_in_view_without_move() {
    let tools = LeptosTools::new();
    let code = "view! { <p>{count.get()}</p> }";
    assert_eq!(
        tools.leptos_autofixer(code),
        "ERROR: Found .get() in view without `move ||`. Reactive values should use `{move || value.get()}`"
    );
}

#[test]
fn autofixer_does_not_flag_get_when_move_is_present() {
    let tools = LeptosTools::new();
    let code = "view! { <p>{move || count.get()}</p> }";
    assert_eq!(tools.leptos_autofixer(code), "\u{e2}\u{153}\u{201c} No issues found. Code looks good!");
}

#[test]
fn autofixer_joins_messages_in_a_fixed_order() {
    let tools = LeptosTools::new();
    let code = "let (a, b) = create_signal(0); println!(\"x\");";
    let out = tools.leptos_autofixer(code);
    let lines: Vec<&str> = out.split('\n').collect();
    assert_eq!(lines, vec![
        "WARNING: Consider using `let (getter, setter) = signal(value)` pattern for clarity",
        "WARNING: Use tracing macros (tracing::info!, tracing::debug!) instead of println!",
        "INFO: In Leptos 0.8+, use `signal()` instead of `create_signal()`",
    ]);
}

#[test]
fn autofixer_flags_component_and_server_and_input_issues() {
    let tools = LeptosTools::new();
    assert_eq!(
        tools.leptos_autofixer("fn widget() -> impl IntoView { }"),
        "ERROR: Functions returning `impl IntoView` should have #[component] attribute"
    );
    assert_eq!(
        tools.leptos_autofixer("#[server] fn save() {}"),
        "INFO: Server functions should return Result<T, ServerFnError>"
    );
    assert_eq!(
        tools.leptos_autofixer("view! { <input value=name /> }"),
        "WARNING: For controlled inputs, use `prop:value=` instead of `value=`"
    );
}
