use soroban_render_sdk::markdown::MarkdownBuilder;
use soroban_sdk::testutils::EnvTestConfig;
use soroban_sdk::{Bytes, Env, String};

fn markdown_env() -> Env {
    Env::new_with_config(EnvTestConfig {
        capture_snapshot_at_drop: false,
    })
}

#[test]
fn test_h1() {
    let env = markdown_env();
    let output = MarkdownBuilder::new(&env).h1("Hello").build();
    // "# Hello\n\n" = 9 bytes (2 + 5 + 2)
    assert_eq!(output.len(), 9);
}

#[test]
fn test_paragraph() {
    let env = markdown_env();
    let output = MarkdownBuilder::new(&env).paragraph("Test").build();
    // "Test\n\n" = 6 bytes
    assert_eq!(output.len(), 6);
}

#[test]
fn test_render_link() {
    let env = markdown_env();
    let output = MarkdownBuilder::new(&env).render_link("Home", "/").build();
    // "[Home](render:/)" = 16 bytes
    assert_eq!(output.len(), 16);
}

#[test]
fn test_tx_link_id() {
    let env = markdown_env();
    let output = MarkdownBuilder::new(&env)
        .tx_link_id("Delete", "delete_task", 42)
        .build();
    // "[Delete](tx:delete_task {"id":42})" = 34 bytes
    assert_eq!(output.len(), 34);
}

#[test]
fn test_form_link() {
    let env = markdown_env();
    let output = MarkdownBuilder::new(&env)
        .form_link("Submit", "add_task")
        .build();
    // "[Submit](form:add_task)" = 23 bytes
    assert_eq!(output.len(), 23);
}

#[test]
fn test_tip_alert() {
    let env = markdown_env();
    let output = MarkdownBuilder::new(&env).tip("This is a tip").build();
    // "> [!TIP]\n> This is a tip\n\n" = 26 bytes
    assert_eq!(output.len(), 26);
}

#[test]
fn test_columns() {
    let env = markdown_env();
    let output = MarkdownBuilder::new(&env)
        .columns_start()
        .text("Col1")
        .column_separator()
        .text("Col2")
        .columns_end()
        .build();
    // ":::columns\nCol1|||\nCol2:::\n\n"
    assert!(output.len() > 0);
}

#[test]
fn test_include() {
    let env = markdown_env();
    let output = MarkdownBuilder::new(&env)
        .include_contract("CABCD123", "header")
        .build();
    // {{include contract=CABCD123 func="header"}}
    assert!(output.len() > 30);
}

#[test]
fn test_input() {
    let env = markdown_env();
    let output = MarkdownBuilder::new(&env)
        .input("name", "Enter name")
        .build();
    assert!(output.len() > 20);
}

#[test]
fn test_textarea_markdown() {
    let env = markdown_env();
    let output = MarkdownBuilder::new(&env)
        .textarea_markdown("content", 10, "Enter markdown...")
        .build();
    // <textarea name="content" data-editor="markdown" rows="10" placeholder="Enter markdown..."></textarea>\n
    // Should contain the data-editor attribute
    assert!(output.len() > 60);
}

#[test]
fn test_input_with_value() {
    let env = markdown_env();
    let output = MarkdownBuilder::new(&env)
        .input_with_value("name", "Enter name", "John Doe")
        .build();
    // <input name="name" placeholder="Enter name" value="John Doe" />\n
    assert!(output.len() > 40);
}

#[test]
fn test_textarea_with_value() {
    let env = markdown_env();
    let output = MarkdownBuilder::new(&env)
        .textarea_with_value("bio", 5, "Enter bio", "Hello world")
        .build();
    // <textarea name="bio" rows="5" placeholder="Enter bio">Hello world</textarea>\n
    assert!(output.len() > 50);
}

#[test]
fn test_textarea_markdown_with_value() {
    let env = markdown_env();
    let output = MarkdownBuilder::new(&env)
        .textarea_markdown_with_value("content", 10, "Enter markdown...", "# Hello")
        .build();
    // <textarea name="content" data-editor="markdown" rows="10" placeholder="Enter markdown..."># Hello</textarea>\n
    assert!(output.len() > 70);
}

#[test]
fn test_checkbox_checked() {
    let env = markdown_env();
    let output = MarkdownBuilder::new(&env)
        .checkbox(true, "Done task")
        .build();
    // "- [x] Done task\n" = 16 bytes
    assert_eq!(output.len(), 16);
}

#[test]
fn test_checkbox_unchecked() {
    let env = markdown_env();
    let output = MarkdownBuilder::new(&env)
        .checkbox(false, "Todo task")
        .build();
    // "- [ ] Todo task\n" = 16 bytes
    assert_eq!(output.len(), 16);
}

#[test]
fn markdown_test_chaining() {
    let env = markdown_env();
    let output = MarkdownBuilder::new(&env)
        .h1("Title")
        .paragraph("Content")
        .render_link("Home", "/")
        .build();
    assert!(output.len() > 30);
}

#[test]
fn test_blockquote() {
    let env = markdown_env();
    let output = MarkdownBuilder::new(&env).blockquote("Quote text").build();
    // "> Quote text\n\n" = 14 bytes
    assert_eq!(output.len(), 14);
}

#[test]
fn test_continuation() {
    let env = markdown_env();
    let output = MarkdownBuilder::new(&env)
        .continuation("comments", 5, Some(50))
        .build();
    // {{continue collection="comments" from=5 total=50}}
    assert!(output.len() > 40);
}

#[test]
fn test_continuation_no_total() {
    let env = markdown_env();
    let output = MarkdownBuilder::new(&env)
        .continuation("data", 10, None)
        .build();
    // {{continue collection="data" from=10}}
    assert!(output.len() > 30);
}

#[test]
fn test_chunk_ref() {
    let env = markdown_env();
    let output = MarkdownBuilder::new(&env).chunk_ref("chunks", 3).build();
    // {{chunk collection="chunks" index=3}}
    assert!(output.len() > 30);
}

#[test]
fn test_chunk_ref_placeholder() {
    let env = markdown_env();
    let output = MarkdownBuilder::new(&env)
        .chunk_ref_placeholder("content", 7, "Loading...")
        .build();
    // {{chunk collection="content" index=7 placeholder="Loading..."}}
    assert!(output.len() > 50);
}

#[test]
fn test_continue_page() {
    let env = markdown_env();
    let output = MarkdownBuilder::new(&env)
        .continue_page("items", 2, 10, 47)
        .build();
    // {{continue collection="items" page=2 per_page=10 total=47}}
    assert!(output.len() > 50);
}

#[test]
fn test_hidden_input() {
    let env = markdown_env();
    let output = MarkdownBuilder::new(&env)
        .hidden_input("board_id", "42")
        .build();
    // <input type="hidden" name="board_id" value="42" />\n
    assert!(output.len() > 40);
}

#[test]
fn test_redirect() {
    let env = markdown_env();
    let output = MarkdownBuilder::new(&env).redirect("/b/0").build();
    // <input type="hidden" name="_redirect" value="/b/0" />\n
    assert!(output.len() > 45);
}

#[test]
fn test_div_start_end() {
    let env = markdown_env();
    let output = MarkdownBuilder::new(&env)
        .div_start("reply reply-depth-1")
        .text("Content")
        .div_end()
        .build();
    // <div class="reply reply-depth-1">\nContent</div>\n
    assert!(output.len() > 30);
}

#[test]
fn test_div_start_styled() {
    let env = markdown_env();
    let output = MarkdownBuilder::new(&env)
        .div_start_styled("container", "margin-left: 24px;")
        .text("Indented")
        .div_end()
        .build();
    // <div class="container" style="margin-left: 24px;">\nIndented</div>\n
    assert!(output.len() > 50);
}

#[test]
fn test_span_start_end() {
    let env = markdown_env();
    let output = MarkdownBuilder::new(&env)
        .span_start("highlight")
        .text("Important")
        .span_end()
        .build();
    // <span class="highlight">Important</span>
    assert!(output.len() > 30);
}

#[test]
fn test_nested_divs() {
    let env = markdown_env();
    let output = MarkdownBuilder::new(&env)
        .div_start("parent")
        .text("Parent content")
        .div_start("child")
        .text("Child content")
        .div_end()
        .div_end()
        .build();
    assert!(output.len() > 50);
}

fn markdown_to_string(bytes: &Bytes) -> std::string::String {
    let mut s = std::string::String::new();
    for i in 0..bytes.len() {
        s.push(bytes.get(i).unwrap() as char);
    }
    s
}

#[test]
fn markdown_text_forms_exact() {
    let env = markdown_env();
    let output = MarkdownBuilder::new(&env)
        .h1("A")
        .h2("B")
        .h3("C")
        .heading(4, "D")
        .heading(0, "E")
        .heading(1, "F")
        .text("t")
        .paragraph("p")
        .bold("b")
        .italic("i")
        .code("c")
        .strikethrough("s")
        .newline()
        .hr()
        .text_string(&String::from_str(&env, "str"))
        .number(42)
        .raw(Bytes::from_slice(&env, b"raw"))
        .raw_str("rs")
        .list_item("li")
        .checkbox(true, "x")
        .checkbox(false, "y")
        .blockquote("q")
        .build();
    assert_eq!(
        markdown_to_string(&output),
        "# A\n\n## B\n\n### C\n\n#### D\n\n###### E\n\n# F\n\ntp\n\n**b***i*`c`~~s~~\n\n---\n\n\
str42rawrs- li\n- [x] x\n- [ ] y\n> q\n\n"
    );
}

#[test]
fn markdown_links_exact() {
    let env = markdown_env();
    let output = MarkdownBuilder::new(&env)
        .link("a", "http://x")
        .render_link("Home", "/")
        .tx_link("Go", "run", "")
        .tx_link("Go", "run", "{\"n\":1}")
        .tx_link_id("Delete", "delete_task", 42)
        .form_link("Submit", "add_task")
        .form_link_to("Send", "content", "post")
        .tx_link_to("Do", "admin", "ban", "")
        .tx_link_to("Do", "admin", "ban", "{}")
        .build();
    assert_eq!(
        markdown_to_string(&output),
        "[a](http://x)[Home](render:/)[Go](tx:run)[Go](tx:run {\"n\":1})\
[Delete](tx:delete_task {\"id\":42})[Submit](form:add_task)[Send](form:@content:post)\
[Do](tx:@admin:ban)[Do](tx:@admin:ban {})"
    );
}

#[test]
fn markdown_alerts_and_layout_exact() {
    let env = markdown_env();
    let output = MarkdownBuilder::new(&env)
        .tip("t")
        .note("n")
        .warning("w")
        .info("i")
        .caution("c")
        .alert("X", "y")
        .columns_start()
        .text("Col1")
        .column_separator()
        .text("Col2")
        .columns_end()
        .div_start("a b")
        .div_start_styled("c", "color: red")
        .div_end()
        .span_start("s")
        .span_end()
        .build();
    assert_eq!(
        markdown_to_string(&output),
        "> [!TIP]\n> t\n\n> [!NOTE]\n> n\n\n> [!WARNING]\n> w\n\n> [!INFO]\n> i\n\n\
> [!CAUTION]\n> c\n\n> [!X]\n> y\n\n:::columns\nCol1|||\nCol2:::\n\n\
<div class=\"a b\">\n<div class=\"c\" style=\"color: red\">\n</div>\n<span class=\"s\"></span>"
    );
}

#[test]
fn markdown_inputs_exact() {
    let env = markdown_env();
    let value = String::from_str(&env, "V");
    let output = MarkdownBuilder::new(&env)
        .input("name", "Enter name")
        .input_with_value("name", "Enter name", "John")
        .input_with_value_string("n", "p", &value)
        .hidden_input("id", "7")
        .redirect("/done")
        .textarea("bio", 5, "Bio")
        .textarea_with_value("bio", 5, "Bio", "Hi")
        .textarea_with_value_string("bio", 255, "Bio", &value)
        .textarea_markdown("c", 10, "md")
        .textarea_markdown_with_value("c", 10, "md", "# t")
        .textarea_markdown_with_value_string("c", 0, "md", &value)
        .build();
    assert_eq!(
        markdown_to_string(&output),
        "<input name=\"name\" placeholder=\"Enter name\" />\n\
<input name=\"name\" placeholder=\"Enter name\" value=\"John\" />\n\
<input name=\"n\" placeholder=\"p\" value=\"V\" />\n\
<input type=\"hidden\" name=\"id\" value=\"7\" />\n\
<input type=\"hidden\" name=\"_redirect\" value=\"/done\" />\n\
<textarea name=\"bio\" rows=\"5\" placeholder=\"Bio\"></textarea>\n\
<textarea name=\"bio\" rows=\"5\" placeholder=\"Bio\">Hi</textarea>\n\
<textarea name=\"bio\" rows=\"255\" placeholder=\"Bio\">V</textarea>\n\
<textarea name=\"c\" data-editor=\"markdown\" rows=\"10\" placeholder=\"md\"></textarea>\n\
<textarea name=\"c\" data-editor=\"markdown\" rows=\"10\" placeholder=\"md\"># t</textarea>\n\
<textarea name=\"c\" data-editor=\"markdown\" rows=\"0\" placeholder=\"md\">V</textarea>\n"
    );
}

#[test]
fn markdown_markers_exact() {
    let env = markdown_env();
    let output = MarkdownBuilder::new(&env)
        .include_contract("CABCD123", "header")
        .include_with_path("CABCD123", "header", "/x")
        .continuation("items", 10, Some(50))
        .continuation("items", 10, None)
        .chunk_ref("items", 3)
        .chunk_ref_placeholder("items", 3, "Loading")
        .continue_page("items", 2, 10, 47)
        .render_continue("/more")
        .build();
    assert_eq!(
        markdown_to_string(&output),
        "{{include contract=CABCD123 func=\"header\"}}\
{{include contract=CABCD123 func=\"header\" path=\"/x\"}}\
{{continue collection=\"items\" from=10 total=50}}\
{{continue collection=\"items\" from=10}}\
{{chunk collection=\"items\" index=3}}\
{{chunk collection=\"items\" index=3 placeholder=\"Loading\"}}\
{{continue collection=\"items\" page=2 per_page=10 total=47}}\
{{render path=\"/more\"}}"
    );
}

#[test]
fn markdown_empty_builder_builds_nothing() {
    let env = markdown_env();
    assert_eq!(MarkdownBuilder::new(&env).build().len(), 0);
}
