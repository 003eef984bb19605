use soroban_render_sdk::styles::StyleBuilder;
use soroban_sdk::testutils::EnvTestConfig;
use soroban_sdk::{Bytes, Env};

fn styles_env() -> Env {
    Env::new_with_config(EnvTestConfig {
        capture_snapshot_at_drop: false,
    })
}

fn styles_to_string(bytes: &Bytes) -> std::string::String {
    let mut s = std::string::String::new();
    for i in 0..bytes.len() {
        s.push(bytes.get(i).unwrap() as char);
    }
    s
}

#[test]
fn test_root_var() {
    let env = styles_env();
    let output = StyleBuilder::new(&env)
        .root_var("primary", "#0066cc")
        .build();
    let css = styles_to_string(&output);
    assert_eq!(css, ":root { --primary: #0066cc; }\n");
}

#[test]
fn test_root_vars_block() {
    let env = styles_env();
    let output = StyleBuilder::new(&env)
        .root_vars_start()
        .var("primary", "#0066cc")
        .var("bg", "#ffffff")
        .root_vars_end()
        .build();
    let css = styles_to_string(&output);
    assert!(css.contains(":root {\n"));
    assert!(css.contains("  --primary: #0066cc;\n"));
    assert!(css.contains("  --bg: #ffffff;\n"));
    assert!(css.ends_with("}\n"));
}

#[test]
fn test_rule() {
    let env = styles_env();
    let output = StyleBuilder::new(&env).rule("h1", "color: blue;").build();
    let css = styles_to_string(&output);
    assert_eq!(css, "h1 { color: blue; }\n");
}

#[test]
fn test_rule_block() {
    let env = styles_env();
    let output = StyleBuilder::new(&env)
        .rule_start("h1")
        .prop("color", "blue")
        .prop("font-size", "2rem")
        .rule_end()
        .build();
    let css = styles_to_string(&output);
    assert!(css.contains("h1 {\n"));
    assert!(css.contains("  color: blue;\n"));
    assert!(css.contains("  font-size: 2rem;\n"));
}

#[test]
fn test_dark_mode() {
    let env = styles_env();
    let output = StyleBuilder::new(&env)
        .dark_mode_start()
        .rule_start(":root")
        .prop("--bg", "#1a1a1a")
        .rule_end()
        .media_end()
        .build();
    let css = styles_to_string(&output);
    assert!(css.contains("@media (prefers-color-scheme: dark)"));
    assert!(css.contains("--bg: #1a1a1a;"));
}

#[test]
fn test_light_mode() {
    let env = styles_env();
    let output = StyleBuilder::new(&env)
        .light_mode_start()
        .rule(":root", "--bg: #ffffff;")
        .media_end()
        .build();
    let css = styles_to_string(&output);
    assert!(css.contains("@media (prefers-color-scheme: light)"));
    assert!(css.contains("--bg: #ffffff;"));
}

#[test]
fn test_breakpoint_min() {
    let env = styles_env();
    let output = StyleBuilder::new(&env)
        .breakpoint_min(768)
        .rule("h1", "font-size: 2rem;")
        .media_end()
        .build();
    let css = styles_to_string(&output);
    assert!(css.contains("@media (min-width: 768px)"));
    assert!(css.contains("font-size: 2rem;"));
}

#[test]
fn test_breakpoint_max() {
    let env = styles_env();
    let output = StyleBuilder::new(&env)
        .breakpoint_max(767)
        .rule("h1", "font-size: 1.5rem;")
        .media_end()
        .build();
    let css = styles_to_string(&output);
    assert!(css.contains("@media (max-width: 767px)"));
    assert!(css.contains("font-size: 1.5rem;"));
}

#[test]
fn test_comment() {
    let env = styles_env();
    let output = StyleBuilder::new(&env).comment("Theme styles").build();
    let css = styles_to_string(&output);
    assert_eq!(css, "/* Theme styles */\n");
}

#[test]
fn test_newline() {
    let env = styles_env();
    let output = StyleBuilder::new(&env)
        .comment("Section 1")
        .newline()
        .comment("Section 2")
        .build();
    let css = styles_to_string(&output);
    assert!(css.contains("*/\n\n/*"));
}

#[test]
fn test_raw() {
    let env = styles_env();
    let raw_css = ".complex > .selector:hover { opacity: 0.8; }";
    let output = StyleBuilder::new(&env).raw(raw_css).build();
    let css = styles_to_string(&output);
    assert_eq!(css, raw_css);
}

#[test]
fn styles_test_chaining() {
    let env = styles_env();
    let output = StyleBuilder::new(&env)
        .comment("Base theme")
        .root_vars_start()
        .var("primary", "#0066cc")
        .root_vars_end()
        .rule("h1", "color: var(--primary);")
        .build();
    let css = styles_to_string(&output);
    assert!(css.starts_with("/* Base theme */\n"));
    assert!(css.contains("--primary: #0066cc;"));
    assert!(css.contains("h1 { color: var(--primary); }"));
}

#[test]
fn test_complete_theme() {
    let env = styles_env();
    let output = StyleBuilder::new(&env)
        .root_vars_start()
        .var("primary", "#0066cc")
        .var("bg", "#ffffff")
        .root_vars_end()
        .rule("body", "background: var(--bg);")
        .dark_mode_start()
        .rule_start(":root")
        .prop("--bg", "#1a1a1a")
        .rule_end()
        .media_end()
        .build();
    let css = styles_to_string(&output);

    // Verify structure
    assert!(css.contains(":root {\n  --primary: #0066cc;"));
    assert!(css.contains("body { background: var(--bg); }"));
    assert!(css.contains("@media (prefers-color-scheme: dark)"));
    assert!(css.contains("--bg: #1a1a1a;"));
}

#[test]
fn styles_exact_output_of_every_method() {
    let env = styles_env();
    let output = StyleBuilder::new(&env)
        .root_var("a", "1")
        .root_vars_start()
        .var("b", "2")
        .root_vars_end()
        .rule("h1", "color: red;")
        .rule_start("p")
        .prop("margin", "0")
        .rule_end()
        .media_start("print")
        .media_end()
        .dark_mode_start()
        .media_end()
        .light_mode_start()
        .media_end()
        .breakpoint_min(768)
        .media_end()
        .breakpoint_max(0)
        .media_end()
        .raw("x{}")
        .comment("c")
        .newline()
        .build();
    let css = styles_to_string(&output);
    let expected = ":root { --a: 1; }\n\
:root {\n  --b: 2;\n}\n\
h1 { color: red; }\n\
p {\n  margin: 0;\n}\n\
@media print {\n}\n\
@media (prefers-color-scheme: dark) {\n}\n\
@media (prefers-color-scheme: light) {\n}\n\
@media (min-width: 768px) {\n}\n\
@media (max-width: 0px) {\n}\n\
x{}/* c */\n\n";
    assert_eq!(css, expected);
}

#[test]
fn styles_empty_builder_builds_nothing() {
    let env = styles_env();
    assert_eq!(StyleBuilder::new(&env).build().len(), 0);
}
