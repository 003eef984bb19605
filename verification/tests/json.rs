use soroban_render_sdk::json::JsonDocument;
use soroban_sdk::testutils::EnvTestConfig;
use soroban_sdk::{Bytes, Env, String};

fn json_env() -> Env {
    Env::new_with_config(EnvTestConfig {
        capture_snapshot_at_drop: false,
    })
}

#[test]
fn test_empty_document() {
    let env = json_env();
    let output = JsonDocument::new(&env, "Test").build();
    // Should contain format, title, and empty components array
    assert!(output.len() > 50);
}

#[test]
fn test_heading() {
    let env = json_env();
    let output = JsonDocument::new(&env, "Test").heading(1, "Hello").build();
    assert!(output.len() > 60);
}

#[test]
fn test_text() {
    let env = json_env();
    let output = JsonDocument::new(&env, "Test")
        .text("Hello, World!")
        .build();
    assert!(output.len() > 60);
}

#[test]
fn test_divider() {
    let env = json_env();
    let output = JsonDocument::new(&env, "Test").divider().build();
    assert!(output.len() > 50);
}

#[test]
fn test_multiple_components() {
    let env = json_env();
    let output = JsonDocument::new(&env, "Test")
        .heading(1, "Title")
        .text("Content")
        .divider()
        .build();
    // Should have commas between components
    assert!(output.len() > 100);
}

#[test]
fn test_form() {
    let env = json_env();
    let output = JsonDocument::new(&env, "Test")
        .form("add_item")
        .text_field("name", "Enter name", true)
        .submit("Add")
        .build();
    assert!(output.len() > 100);
}

#[test]
fn test_navigation() {
    let env = json_env();
    let output = JsonDocument::new(&env, "Test")
        .nav_start()
        .nav_item("Home", "/", true, true)
        .nav_item("About", "/about", false, false)
        .nav_end()
        .build();
    assert!(output.len() > 100);
}

#[test]
fn test_pie_chart() {
    let env = json_env();
    let output = JsonDocument::new(&env, "Test")
        .pie_chart_start("Status")
        .pie_slice("Done", 5, "#22c55e", true)
        .pie_slice("Pending", 3, "#eab308", false)
        .pie_chart_end()
        .build();
    assert!(output.len() > 100);
}

#[test]
fn test_gauge() {
    let env = json_env();
    let output = JsonDocument::new(&env, "Test")
        .gauge(75, 100, "Progress")
        .build();
    assert!(output.len() > 80);
}

#[test]
fn test_task() {
    let env = json_env();
    let output = JsonDocument::new(&env, "Test")
        .task(1, "My Task", false)
        .tx_action("complete", 1, "Done")
        .tx_action("delete", 1, "Delete")
        .end()
        .build();
    assert!(output.len() > 150);
}

fn json_to_string(bytes: &Bytes) -> std::string::String {
    let mut s = std::string::String::new();
    for i in 0..bytes.len() {
        s.push(bytes.get(i).unwrap() as char);
    }
    s
}

#[test]
fn json_empty_document_exact() {
    let env = json_env();
    let output = JsonDocument::new(&env, "Test").build();
    assert_eq!(
        json_to_string(&output),
        "{\"format\":\"soroban-render-json-v1\",\"title\":\"Test\",\"components\":[]}"
    );
}

#[test]
fn json_title_and_texts_are_escaped() {
    let env = json_env();
    let output = JsonDocument::new(&env, "A \"B\"")
        .text("line1\nline2\\")
        .text_string(&String::from_str(&env, "tab\there"))
        .build();
    assert_eq!(
        json_to_string(&output),
        "{\"format\":\"soroban-render-json-v1\",\"title\":\"A \\\"B\\\"\",\"components\":[\
{\"type\":\"text\",\"content\":\"line1\\nline2\\\\\"},\
{\"type\":\"text\",\"content\":\"tab\\there\"}]}"
    );
}

#[test]
fn json_components_exact() {
    let env = json_env();
    let output = JsonDocument::new(&env, "T")
        .heading(2, "H")
        .heading_string(3, &String::from_str(&env, "S"))
        .divider()
        .gauge(75, 100, "P")
        .build();
    assert_eq!(
        json_to_string(&output),
        "{\"format\":\"soroban-render-json-v1\",\"title\":\"T\",\"components\":[\
{\"type\":\"heading\",\"level\":2,\"text\":\"H\"},\
{\"type\":\"heading\",\"level\":3,\"text\":\"S\"},\
{\"type\":\"divider\"},\
{\"type\":\"chart\",\"chartType\":\"gauge\",\"value\":75,\"max\":100,\"label\":\"P\"}]}"
    );
}

#[test]
fn json_form_exact() {
    let env = json_env();
    let output = JsonDocument::new(&env, "T")
        .divider()
        .form("add")
        .text_field("name", "Enter", true)
        .text_field("nick", "", false)
        .textarea_field("bio", "About")
        .submit("Add")
        .divider()
        .build();
    assert_eq!(
        json_to_string(&output),
        "{\"format\":\"soroban-render-json-v1\",\"title\":\"T\",\"components\":[\
{\"type\":\"divider\"},\
{\"type\":\"form\",\"action\":\"add\",\"fields\":[\
{\"name\":\"name\",\"type\":\"text\",\"placeholder\":\"Enter\",\"required\":true},\
{\"name\":\"nick\",\"type\":\"text\",\"placeholder\":\"\"},\
{\"name\":\"bio\",\"type\":\"textarea\",\"placeholder\":\"About\"}],\
\"submitLabel\":\"Add\"},\
{\"type\":\"divider\"}]}"
    );
}

#[test]
fn json_navigation_and_pie_chart_exact() {
    let env = json_env();
    let output = JsonDocument::new(&env, "T")
        .nav_start()
        .nav_item("Home", "/", true, true)
        .nav_item("About", "/about", false, false)
        .nav_end()
        .pie_chart_start("Status")
        .pie_slice("Done", 5, "#22c55e", true)
        .pie_slice("Pending", 3, "#eab308", false)
        .pie_chart_end()
        .build();
    assert_eq!(
        json_to_string(&output),
        "{\"format\":\"soroban-render-json-v1\",\"title\":\"T\",\"components\":[\
{\"type\":\"navigation\",\"items\":[\
{\"label\":\"Home\",\"path\":\"/\",\"active\":true},\
{\"label\":\"About\",\"path\":\"/about\"}]},\
{\"type\":\"chart\",\"chartType\":\"pie\",\"title\":\"Status\",\"data\":[\
{\"label\":\"Done\",\"value\":5,\"color\":\"#22c55e\"},\
{\"label\":\"Pending\",\"value\":3,\"color\":\"#eab308\"}]}]}"
    );
}

#[test]
fn json_task_and_container_exact() {
    let env = json_env();
    let output = JsonDocument::new(&env, "T")
        .task(1, "My Task", false)
        .tx_action("complete", 1, "Done")
        .tx_action("delete", 1, "Delete")
        .end()
        .task_string(2, &String::from_str(&env, "Other"), true)
        .end()
        .container_start("box")
        .text("in")
        .text("side")
        .container_end()
        .text("after")
        .build();
    assert_eq!(
        json_to_string(&output),
        "{\"format\":\"soroban-render-json-v1\",\"title\":\"T\",\"components\":[\
{\"type\":\"task\",\"id\":1,\"text\":\"My Task\",\"completed\":false,\"actions\":[\
{\"type\":\"tx\",\"method\":\"complete\",\"args\":{\"id\":1},\"label\":\"Done\"},\
{\"type\":\"tx\",\"method\":\"delete\",\"args\":{\"id\":1},\"label\":\"Delete\"}]},\
{\"type\":\"task\",\"id\":2,\"text\":\"Other\",\"completed\":true,\"actions\":[]},\
{\"type\":\"container\",\"className\":\"box\",\"components\":[\
{\"type\":\"text\",\"content\":\"in\"},\
{\"type\":\"text\",\"content\":\"side\"}]},\
{\"type\":\"text\",\"content\":\"after\"}]}"
    );
}
