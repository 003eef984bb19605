//! A builder for markdown, with the extensions that render viewers read:
//! links that send transactions or submit forms, callouts, columns, includes,
//! input fields and markers for content that goes on elsewhere.
//!
//! Texts that come from the caller are written as they are; nothing is
//! escaped.

use vstd::prelude::*;
use soroban_sdk::{Bytes, Env};
use crate::bytes::{concat_bytes, joined, string_bytes, string_to_bytes, u32_to_bytes};
use crate::decimal::dec_text;
use crate::host::{bytes_seq, parts_are_bytes, parts_new, parts_seq, string_seq};
use crate::parts::{push_bytes, push_text, utf8};

verus! {

/// The marks that open a heading of a level: as many `#` as the level says,
/// six for a level outside 1 to 5, and a space.
pub open spec fn heading_prefix(level: u8) -> Seq<u8> {
    if level == 1 {
        utf8("# ")
    } else if level == 2 {
        utf8("## ")
    } else if level == 3 {
        utf8("### ")
    } else if level == 4 {
        utf8("#### ")
    } else if level == 5 {
        utf8("##### ")
    } else {
        utf8("###### ")
    }
}

fn heading_marks(level: u8) -> (marks: &'static str)
    ensures
        utf8(marks) == heading_prefix(level),
{
    match level {
        1 => "# ",
        2 => "## ",
        3 => "### ",
        4 => "#### ",
        5 => "##### ",
        _ => "###### ",
    }
}

/// The start of an item of a task list.
pub open spec fn checkbox_mark(checked: bool) -> Seq<u8> {
    if checked {
        utf8("- [x] ")
    } else {
        utf8("- [ ] ")
    }
}

fn checkbox_text(checked: bool) -> (mark: &'static str)
    ensures
        utf8(mark) == checkbox_mark(checked),
{
    if checked {
        "- [x] "
    } else {
        "- [ ] "
    }
}

/// The arguments of a transaction link with the space before them; nothing
/// where there are none.
pub open spec fn optional_args(args: &str) -> Seq<u8> {
    if args@.len() == 0 {
        Seq::empty()
    } else {
        utf8(" ") + utf8(args)
    }
}

fn push_optional_args(env: &Env, parts: &mut soroban_sdk::Vec<Bytes>, args: &str)
    requires
        parts_are_bytes(*old(parts)),
    ensures
        parts_are_bytes(*final(parts)),
        joined(parts_seq(*final(parts))) == joined(parts_seq(*old(parts))) + optional_args(args),
{
    let ghost before = joined(parts_seq(*parts));
    if !args.is_empty() {
        push_text(env, parts, " ");
        push_text(env, parts, args);
        assert(before + utf8(" ") + utf8(args) =~= before + (utf8(" ") + utf8(args)));
    } else {
        assert(before =~= before + Seq::<u8>::empty());
    }
}

/// The total of a continuation marker; nothing where it is not known.
pub open spec fn optional_total(total: Option<u32>) -> Seq<u8> {
    match total {
        Some(t) => utf8(" total=") + dec_text(t as nat),
        None => Seq::empty(),
    }
}

fn push_optional_total(env: &Env, parts: &mut soroban_sdk::Vec<Bytes>, total: Option<u32>)
    requires
        parts_are_bytes(*old(parts)),
    ensures
        parts_are_bytes(*final(parts)),
        joined(parts_seq(*final(parts))) == joined(parts_seq(*old(parts))) + optional_total(total),
{
    let ghost before = joined(parts_seq(*parts));
    if let Some(t) = total {
        push_text(env, parts, " total=");
        push_bytes(parts, u32_to_bytes(env, t));
        assert(before + utf8(" total=") + dec_text(t as nat) =~= before + (utf8(" total=")
            + dec_text(t as nat)));
    } else {
        assert(before =~= before + Seq::<u8>::empty());
    }
}

/// Builds markdown piece by piece. Every method appends to what was built
/// before; `build` hands out the whole.
pub struct MarkdownBuilder<'a> {
    env: &'a Env,
    parts: soroban_sdk::Vec<Bytes>,
}

impl<'a> MarkdownBuilder<'a> {
    #[verifier::type_invariant]
    spec fn wf(self) -> bool {
        parts_are_bytes(self.parts)
    }

    /// The markdown built so far.
    pub closed spec fn markdown(&self) -> Seq<u8> {
        joined(parts_seq(self.parts))
    }

    /// A builder that has built nothing yet.
    pub fn new(env: &'a Env) -> (b: Self)
        ensures
            b.markdown() == Seq::<u8>::empty(),
    {
        Self { env, parts: parts_new(env) }
    }

    /// A level 1 heading, with a blank line after it.
    pub fn h1(self, text: &str) -> (b: Self)
        ensures
            b.markdown() == self.markdown() + utf8("# ") + utf8(text) + utf8("\n\n"),
    {
        proof {
            use_type_invariant(&self);
        }
        let Self { env, mut parts } = self;
        push_text(env, &mut parts, "# ");
        push_text(env, &mut parts, text);
        push_text(env, &mut parts, "\n\n");
        Self { env, parts }
    }

    /// A level 2 heading, with a blank line after it.
    pub fn h2(self, text: &str) -> (b: Self)
        ensures
            b.markdown() == self.markdown() + utf8("## ") + utf8(text) + utf8("\n\n"),
    {
        proof {
            use_type_invariant(&self);
        }
        let Self { env, mut parts } = self;
        push_text(env, &mut parts, "## ");
        push_text(env, &mut parts, text);
        push_text(env, &mut parts, "\n\n");
        Self { env, parts }
    }

    /// A level 3 heading, with a blank line after it.
    pub fn h3(self, text: &str) -> (b: Self)
        ensures
            b.markdown() == self.markdown() + utf8("### ") + utf8(text) + utf8("\n\n"),
    {
        proof {
            use_type_invariant(&self);
        }
        let Self { env, mut parts } = self;
        push_text(env, &mut parts, "### ");
        push_text(env, &mut parts, text);
        push_text(env, &mut parts, "\n\n");
        Self { env, parts }
    }

    /// A heading of the given level, with a blank line after it. Levels
    /// below 1 and above 6 count as 6.
    pub fn heading(self, level: u8, text: &str) -> (b: Self)
        ensures
            b.markdown() == self.markdown() + heading_prefix(level) + utf8(text) + utf8("\n\n"),
    {
        proof {
            use_type_invariant(&self);
        }
        let Self { env, mut parts } = self;
        push_text(env, &mut parts, heading_marks(level));
        push_text(env, &mut parts, text);
        push_text(env, &mut parts, "\n\n");
        Self { env, parts }
    }

    /// Text as it is, with nothing after it.
    pub fn text(self, text: &str) -> (b: Self)
        ensures
            b.markdown() == self.markdown() + utf8(text),
    {
        proof {
            use_type_invariant(&self);
        }
        let Self { env, mut parts } = self;
        push_text(env, &mut parts, text);
        Self { env, parts }
    }

    /// Text with a blank line after it.
    pub fn paragraph(self, text: &str) -> (b: Self)
        ensures
            b.markdown() == self.markdown() + utf8(text) + utf8("\n\n"),
    {
        proof {
            use_type_invariant(&self);
        }
        let Self { env, mut parts } = self;
        push_text(env, &mut parts, text);
        push_text(env, &mut parts, "\n\n");
        Self { env, parts }
    }

    /// Bold text: `**text**`.
    pub fn bold(self, text: &str) -> (b: Self)
        ensures
            b.markdown() == self.markdown() + utf8("**") + utf8(text) + utf8("**"),
    {
        proof {
            use_type_invariant(&self);
        }
        let Self { env, mut parts } = self;
        push_text(env, &mut parts, "**");
        push_text(env, &mut parts, text);
        push_text(env, &mut parts, "**");
        Self { env, parts }
    }

    /// Italic text: `*text*`.
    pub fn italic(self, text: &str) -> (b: Self)
        ensures
            b.markdown() == self.markdown() + utf8("*") + utf8(text) + utf8("*"),
    {
        proof {
            use_type_invariant(&self);
        }
        let Self { env, mut parts } = self;
        push_text(env, &mut parts, "*");
        push_text(env, &mut parts, text);
        push_text(env, &mut parts, "*");
        Self { env, parts }
    }

    /// Inline code: the text between backquotes.
    pub fn code(self, text: &str) -> (b: Self)
        ensures
            b.markdown() == self.markdown() + utf8("`") + utf8(text) + utf8("`"),
    {
        proof {
            use_type_invariant(&self);
        }
        let Self { env, mut parts } = self;
        push_text(env, &mut parts, "`");
        push_text(env, &mut parts, text);
        push_text(env, &mut parts, "`");
        Self { env, parts }
    }

    /// Struck-through text: `~~text~~`.
    pub fn strikethrough(self, text: &str) -> (b: Self)
        ensures
            b.markdown() == self.markdown() + utf8("~~") + utf8(text) + utf8("~~"),
    {
        proof {
            use_type_invariant(&self);
        }
        let Self { env, mut parts } = self;
        push_text(env, &mut parts, "~~");
        push_text(env, &mut parts, text);
        push_text(env, &mut parts, "~~");
        Self { env, parts }
    }

    /// A line feed.
    pub fn newline(self) -> (b: Self)
        ensures
            b.markdown() == self.markdown() + utf8("\n"),
    {
        proof {
            use_type_invariant(&self);
        }
        let Self { env, mut parts } = self;
        push_text(env, &mut parts, "\n");
        Self { env, parts }
    }

    /// A horizontal rule, with blank lines around it.
    pub fn hr(self) -> (b: Self)
        ensures
            b.markdown() == self.markdown() + utf8("\n---\n\n"),
    {
        proof {
            use_type_invariant(&self);
        }
        let Self { env, mut parts } = self;
        push_text(env, &mut parts, "\n---\n\n");
        Self { env, parts }
    }

    /// The text of a host string, converted as `string_to_bytes` does.
    pub fn text_string(self, s: &soroban_sdk::String) -> (b: Self)
        ensures
            b.markdown() == self.markdown() + string_bytes(string_seq(*s)),
    {
        proof {
            use_type_invariant(&self);
        }
        let Self { env, mut parts } = self;
        push_bytes(&mut parts, string_to_bytes(env, s));
        Self { env, parts }
    }

    /// A number in decimal.
    pub fn number(self, n: u32) -> (b: Self)
        ensures
            b.markdown() == self.markdown() + dec_text(n as nat),
    {
        proof {
            use_type_invariant(&self);
        }
        let Self { env, mut parts } = self;
        push_bytes(&mut parts, u32_to_bytes(env, n));
        Self { env, parts }
    }

    /// Bytes as they are.
    pub fn raw(self, bytes: Bytes) -> (b: Self)
        ensures
            b.markdown() == self.markdown() + bytes_seq(bytes),
    {
        proof {
            use_type_invariant(&self);
        }
        let Self { env, mut parts } = self;
        push_bytes(&mut parts, bytes);
        Self { env, parts }
    }

    /// Text as it is.
    pub fn raw_str(self, s: &str) -> (b: Self)
        ensures
            b.markdown() == self.markdown() + utf8(s),
    {
        proof {
            use_type_invariant(&self);
        }
        let Self { env, mut parts } = self;
        push_text(env, &mut parts, s);
        Self { env, parts }
    }

    /// A link: `[text](href)`.
    pub fn link(self, text: &str, href: &str) -> (b: Self)
        ensures
            b.markdown() == self.markdown() + utf8("[") + utf8(text) + utf8("](") + utf8(href)
                + utf8(")"),
    {
        proof {
            use_type_invariant(&self);
        }
        let Self { env, mut parts } = self;
        push_text(env, &mut parts, "[");
        push_text(env, &mut parts, text);
        push_text(env, &mut parts, "](");
        push_text(env, &mut parts, href);
        push_text(env, &mut parts, ")");
        Self { env, parts }
    }

    /// A link to another path of the same contract: `[text](render:path)`.
    pub fn render_link(self, text: &str, path: &str) -> (b: Self)
        ensures
            b.markdown() == self.markdown() + utf8("[") + utf8(text) + utf8("](render:")
                + utf8(path) + utf8(")"),
    {
        proof {
            use_type_invariant(&self);
        }
        let Self { env, mut parts } = self;
        push_text(env, &mut parts, "[");
        push_text(env, &mut parts, text);
        push_text(env, &mut parts, "](render:");
        push_text(env, &mut parts, path);
        push_text(env, &mut parts, ")");
        Self { env, parts }
    }

    /// A link that sends a transaction: `[text](tx:method args)`, where
    /// `args` is JSON text; empty `args` and the space before them are left
    /// out.
    pub fn tx_link(self, text: &str, method: &str, args: &str) -> (b: Self)
        ensures
            b.markdown() == self.markdown() + utf8("[") + utf8(text) + utf8("](tx:")
                + utf8(method) + optional_args(args) + utf8(")"),
    {
        proof {
            use_type_invariant(&self);
        }
        let Self { env, mut parts } = self;
        push_text(env, &mut parts, "[");
        push_text(env, &mut parts, text);
        push_text(env, &mut parts, "](tx:");
        push_text(env, &mut parts, method);
        push_optional_args(env, &mut parts, args);
        push_text(env, &mut parts, ")");
        Self { env, parts }
    }

    /// A link that sends a transaction with an id as its only argument:
    /// `[text](tx:method {"id":N})`.
    pub fn tx_link_id(self, text: &str, method: &str, id: u32) -> (b: Self)
        ensures
            b.markdown() == self.markdown() + utf8("[") + utf8(text) + utf8("](tx:")
                + utf8(method) + utf8(" {\"id\":") + dec_text(id as nat) + utf8("})"),
    {
        proof {
            use_type_invariant(&self);
        }
        let Self { env, mut parts } = self;
        push_text(env, &mut parts, "[");
        push_text(env, &mut parts, text);
        push_text(env, &mut parts, "](tx:");
        push_text(env, &mut parts, method);
        push_text(env, &mut parts, " {\"id\":");
        push_bytes(&mut parts, u32_to_bytes(env, id));
        push_text(env, &mut parts, "})");
        Self { env, parts }
    }

    /// A link that submits the form: `[text](form:action)`.
    pub fn form_link(self, text: &str, action: &str) -> (b: Self)
        ensures
            b.markdown() == self.markdown() + utf8("[") + utf8(text) + utf8("](form:")
                + utf8(action) + utf8(")"),
    {
        proof {
            use_type_invariant(&self);
        }
        let Self { env, mut parts } = self;
        push_text(env, &mut parts, "[");
        push_text(env, &mut parts, text);
        push_text(env, &mut parts, "](form:");
        push_text(env, &mut parts, action);
        push_text(env, &mut parts, ")");
        Self { env, parts }
    }

    /// A link that submits the form to a contract of the registry:
    /// `[text](form:@alias:method)`.
    pub fn form_link_to(self, text: &str, alias: &str, method: &str) -> (b: Self)
        ensures
            b.markdown() == self.markdown() + utf8("[") + utf8(text) + utf8("](form:@")
                + utf8(alias) + utf8(":") + utf8(method) + utf8(")"),
    {
        proof {
            use_type_invariant(&self);
        }
        let Self { env, mut parts } = self;
        push_text(env, &mut parts, "[");
        push_text(env, &mut parts, text);
        push_text(env, &mut parts, "](form:@");
        push_text(env, &mut parts, alias);
        push_text(env, &mut parts, ":");
        push_text(env, &mut parts, method);
        push_text(env, &mut parts, ")");
        Self { env, parts }
    }

    /// A link that sends a transaction to a contract of the registry:
    /// `[text](tx:@alias:method args)`; empty `args` and the space before
    /// them are left out.
    pub fn tx_link_to(self, text: &str, alias: &str, method: &str, args: &str) -> (b: Self)
        ensures
            b.markdown() == self.markdown() + utf8("[") + utf8(text) + utf8("](tx:@")
                + utf8(alias) + utf8(":") + utf8(method) + optional_args(args) + utf8(")"),
    {
        proof {
            use_type_invariant(&self);
        }
        let Self { env, mut parts } = self;
        push_text(env, &mut parts, "[");
        push_text(env, &mut parts, text);
        push_text(env, &mut parts, "](tx:@");
        push_text(env, &mut parts, alias);
        push_text(env, &mut parts, ":");
        push_text(env, &mut parts, method);
        push_optional_args(env, &mut parts, args);
        push_text(env, &mut parts, ")");
        Self { env, parts }
    }

    /// A callout of type `TIP`.
    pub fn tip(self, content: &str) -> (b: Self)
        ensures
            b.markdown() == self.markdown() + utf8("> [!") + utf8("TIP") + utf8("]\n> ")
                + utf8(content) + utf8("\n\n"),
    {
        self.alert("TIP", content)
    }

    /// A callout of type `NOTE`.
    pub fn note(self, content: &str) -> (b: Self)
        ensures
            b.markdown() == self.markdown() + utf8("> [!") + utf8("NOTE") + utf8("]\n> ")
                + utf8(content) + utf8("\n\n"),
    {
        self.alert("NOTE", content)
    }

    /// A callout of type `WARNING`.
    pub fn warning(self, content: &str) -> (b: Self)
        ensures
            b.markdown() == self.markdown() + utf8("> [!") + utf8("WARNING") + utf8("]\n> ")
                + utf8(content) + utf8("\n\n"),
    {
        self.alert("WARNING", content)
    }

    /// A callout of type `INFO`.
    pub fn info(self, content: &str) -> (b: Self)
        ensures
            b.markdown() == self.markdown() + utf8("> [!") + utf8("INFO") + utf8("]\n> ")
                + utf8(content) + utf8("\n\n"),
    {
        self.alert("INFO", content)
    }

    /// A callout of type `CAUTION`.
    pub fn caution(self, content: &str) -> (b: Self)
        ensures
            b.markdown() == self.markdown() + utf8("> [!") + utf8("CAUTION") + utf8("]\n> ")
                + utf8(content) + utf8("\n\n"),
    {
        self.alert("CAUTION", content)
    }

    /// A callout of the given type: `> [!TYPE]`, and the content on the
    /// next quoted line.
    pub fn alert(self, alert_type: &str, content: &str) -> (b: Self)
        ensures
            b.markdown() == self.markdown() + utf8("> [!") + utf8(alert_type) + utf8("]\n> ")
                + utf8(content) + utf8("\n\n"),
    {
        proof {
            use_type_invariant(&self);
        }
        let Self { env, mut parts } = self;
        push_text(env, &mut parts, "> [!");
        push_text(env, &mut parts, alert_type);
        push_text(env, &mut parts, "]\n> ");
        push_text(env, &mut parts, content);
        push_text(env, &mut parts, "\n\n");
        Self { env, parts }
    }

    /// Opens a layout of columns.
    pub fn columns_start(self) -> (b: Self)
        ensures
            b.markdown() == self.markdown() + utf8(":::columns\n"),
    {
        proof {
            use_type_invariant(&self);
        }
        let Self { env, mut parts } = self;
        push_text(env, &mut parts, ":::columns\n");
        Self { env, parts }
    }

    /// Ends a column and begins the next.
    pub fn column_separator(self) -> (b: Self)
        ensures
            b.markdown() == self.markdown() + utf8("|||\n"),
    {
        proof {
            use_type_invariant(&self);
        }
        let Self { env, mut parts } = self;
        push_text(env, &mut parts, "|||\n");
        Self { env, parts }
    }

    /// Closes the layout of columns.
    pub fn columns_end(self) -> (b: Self)
        ensures
            b.markdown() == self.markdown() + utf8(":::\n\n"),
    {
        proof {
            use_type_invariant(&self);
        }
        let Self { env, mut parts } = self;
        push_text(env, &mut parts, ":::\n\n");
        Self { env, parts }
    }

    /// Includes what a function of another contract renders.
    pub fn include_contract(self, contract_id: &str, func: &str) -> (b: Self)
        ensures
            b.markdown() == self.markdown() + utf8("{{include contract=") + utf8(contract_id)
                + utf8(" func=\"") + utf8(func) + utf8("\"}}"),
    {
        proof {
            use_type_invariant(&self);
        }
        let Self { env, mut parts } = self;
        push_text(env, &mut parts, "{{include contract=");
        push_text(env, &mut parts, contract_id);
        push_text(env, &mut parts, " func=\"");
        push_text(env, &mut parts, func);
        push_text(env, &mut parts, "\"}}");
        Self { env, parts }
    }

    /// Includes what a function of another contract renders for a path.
    pub fn include_with_path(self, contract_id: &str, func: &str, path: &str) -> (b: Self)
        ensures
            b.markdown() == self.markdown() + utf8("{{include contract=") + utf8(contract_id)
                + utf8(" func=\"") + utf8(func) + utf8("\" path=\"") + utf8(path) + utf8("\"}}"),
    {
        proof {
            use_type_invariant(&self);
        }
        let Self { env, mut parts } = self;
        push_text(env, &mut parts, "{{include contract=");
        push_text(env, &mut parts, contract_id);
        push_text(env, &mut parts, " func=\"");
        push_text(env, &mut parts, func);
        push_text(env, &mut parts, "\" path=\"");
        push_text(env, &mut parts, path);
        push_text(env, &mut parts, "\"}}");
        Self { env, parts }
    }

    /// A one-line input field.
    pub fn input(self, name: &str, placeholder: &str) -> (b: Self)
        ensures
            b.markdown() == self.markdown() + utf8("<input name=\"") + utf8(name)
                + utf8("\" placeholder=\"") + utf8(placeholder) + utf8("\" />\n"),
    {
        proof {
            use_type_invariant(&self);
        }
        let Self { env, mut parts } = self;
        push_text(env, &mut parts, "<input name=\"");
        push_text(env, &mut parts, name);
        push_text(env, &mut parts, "\" placeholder=\"");
        push_text(env, &mut parts, placeholder);
        push_text(env, &mut parts, "\" />\n");
        Self { env, parts }
    }

    /// A one-line input field with a value filled in.
    pub fn input_with_value(self, name: &str, placeholder: &str, value: &str) -> (b: Self)
        ensures
            b.markdown() == self.markdown() + utf8("<input name=\"") + utf8(name)
                + utf8("\" placeholder=\"") + utf8(placeholder) + utf8("\" value=\"")
                + utf8(value) + utf8("\" />\n"),
    {
        proof {
            use_type_invariant(&self);
        }
        let Self { env, mut parts } = self;
        push_text(env, &mut parts, "<input name=\"");
        push_text(env, &mut parts, name);
        push_text(env, &mut parts, "\" placeholder=\"");
        push_text(env, &mut parts, placeholder);
        push_text(env, &mut parts, "\" value=\"");
        push_text(env, &mut parts, value);
        push_text(env, &mut parts, "\" />\n");
        Self { env, parts }
    }

    /// A one-line input field with a host string as its value.
    pub fn input_with_value_string(self, name: &str, placeholder: &str, value: &soroban_sdk::String) -> (b: Self)
        ensures
            b.markdown() == self.markdown() + utf8("<input name=\"") + utf8(name)
                + utf8("\" placeholder=\"") + utf8(placeholder) + utf8("\" value=\"")
                + string_bytes(string_seq(*value)) + utf8("\" />\n"),
    {
        proof {
            use_type_invariant(&self);
        }
        let Self { env, mut parts } = self;
        push_text(env, &mut parts, "<input name=\"");
        push_text(env, &mut parts, name);
        push_text(env, &mut parts, "\" placeholder=\"");
        push_text(env, &mut parts, placeholder);
        push_text(env, &mut parts, "\" value=\"");
        push_bytes(&mut parts, string_to_bytes(env, value));
        push_text(env, &mut parts, "\" />\n");
        Self { env, parts }
    }

    /// A hidden input field.
    pub fn hidden_input(self, name: &str, value: &str) -> (b: Self)
        ensures
            b.markdown() == self.markdown() + utf8("<input type=\"hidden\" name=\"") + utf8(name)
                + utf8("\" value=\"") + utf8(value) + utf8("\" />\n"),
    {
        proof {
            use_type_invariant(&self);
        }
        let Self { env, mut parts } = self;
        push_text(env, &mut parts, "<input type=\"hidden\" name=\"");
        push_text(env, &mut parts, name);
        push_text(env, &mut parts, "\" value=\"");
        push_text(env, &mut parts, value);
        push_text(env, &mut parts, "\" />\n");
        Self { env, parts }
    }

    /// A hidden field named `_redirect`: where to go after the form was
    /// submitted.
    pub fn redirect(self, path: &str) -> (b: Self)
        ensures
            b.markdown() == self.markdown() + utf8("<input type=\"hidden\" name=\"")
                + utf8("_redirect") + utf8("\" value=\"") + utf8(path) + utf8("\" />\n"),
    {
        self.hidden_input("_redirect", path)
    }

    /// An input field of several lines.
    pub fn textarea(self, name: &str, rows: u8, placeholder: &str) -> (b: Self)
        ensures
            b.markdown() == self.markdown() + utf8("<textarea name=\"") + utf8(name)
                + utf8("\" rows=\"") + dec_text(rows as nat) + utf8("\" placeholder=\"")
                + utf8(placeholder) + utf8("\"></textarea>\n"),
    {
        proof {
            use_type_invariant(&self);
        }
        let Self { env, mut parts } = self;
        push_text(env, &mut parts, "<textarea name=\"");
        push_text(env, &mut parts, name);
        push_text(env, &mut parts, "\" rows=\"");
        push_bytes(&mut parts, u32_to_bytes(env, rows as u32));
        push_text(env, &mut parts, "\" placeholder=\"");
        push_text(env, &mut parts, placeholder);
        push_text(env, &mut parts, "\"></textarea>\n");
        Self { env, parts }
    }

    /// An input field of several lines with a value filled in.
    pub fn textarea_with_value(self, name: &str, rows: u8, placeholder: &str, value: &str) -> (b: Self)
        ensures
            b.markdown() == self.markdown() + utf8("<textarea name=\"") + utf8(name)
                + utf8("\" rows=\"") + dec_text(rows as nat) + utf8("\" placeholder=\"")
                + utf8(placeholder) + utf8("\">") + utf8(value) + utf8("</textarea>\n"),
    {
        proof {
            use_type_invariant(&self);
        }
        let Self { env, mut parts } = self;
        push_text(env, &mut parts, "<textarea name=\"");
        push_text(env, &mut parts, name);
        push_text(env, &mut parts, "\" rows=\"");
        push_bytes(&mut parts, u32_to_bytes(env, rows as u32));
        push_text(env, &mut parts, "\" placeholder=\"");
        push_text(env, &mut parts, placeholder);
        push_text(env, &mut parts, "\">");
        push_text(env, &mut parts, value);
        push_text(env, &mut parts, "</textarea>\n");
        Self { env, parts }
    }

    /// An input field of several lines with a host string as its value.
    pub fn textarea_with_value_string(self, name: &str, rows: u8, placeholder: &str, value: &soroban_sdk::String) -> (b: Self)
        ensures
            b.markdown() == self.markdown() + utf8("<textarea name=\"") + utf8(name)
                + utf8("\" rows=\"") + dec_text(rows as nat) + utf8("\" placeholder=\"")
                + utf8(placeholder) + utf8("\">") + string_bytes(string_seq(*value))
                + utf8("</textarea>\n"),
    {
        proof {
            use_type_invariant(&self);
        }
        let Self { env, mut parts } = self;
        push_text(env, &mut parts, "<textarea name=\"");
        push_text(env, &mut parts, name);
        push_text(env, &mut parts, "\" rows=\"");
        push_bytes(&mut parts, u32_to_bytes(env, rows as u32));
        push_text(env, &mut parts, "\" placeholder=\"");
        push_text(env, &mut parts, placeholder);
        push_text(env, &mut parts, "\">");
        push_bytes(&mut parts, string_to_bytes(env, value));
        push_text(env, &mut parts, "</textarea>\n");
        Self { env, parts }
    }

    /// An input field of several lines with a markdown editor.
    pub fn textarea_markdown(self, name: &str, rows: u8, placeholder: &str) -> (b: Self)
        ensures
            b.markdown() == self.markdown() + utf8("<textarea name=\"") + utf8(name)
                + utf8("\" data-editor=\"markdown\" rows=\"") + dec_text(rows as nat)
                + utf8("\" placeholder=\"") + utf8(placeholder) + utf8("\"></textarea>\n"),
    {
        proof {
            use_type_invariant(&self);
        }
        let Self { env, mut parts } = self;
        push_text(env, &mut parts, "<textarea name=\"");
        push_text(env, &mut parts, name);
        push_text(env, &mut parts, "\" data-editor=\"markdown\" rows=\"");
        push_bytes(&mut parts, u32_to_bytes(env, rows as u32));
        push_text(env, &mut parts, "\" placeholder=\"");
        push_text(env, &mut parts, placeholder);
        push_text(env, &mut parts, "\"></textarea>\n");
        Self { env, parts }
    }

    /// An input field with a markdown editor and a value filled in.
    pub fn textarea_markdown_with_value(self, name: &str, rows: u8, placeholder: &str, value: &str) -> (b: Self)
        ensures
            b.markdown() == self.markdown() + utf8("<textarea name=\"") + utf8(name)
                + utf8("\" data-editor=\"markdown\" rows=\"") + dec_text(rows as nat)
                + utf8("\" placeholder=\"") + utf8(placeholder) + utf8("\">") + utf8(value)
                + utf8("</textarea>\n"),
    {
        proof {
            use_type_invariant(&self);
        }
        let Self { env, mut parts } = self;
        push_text(env, &mut parts, "<textarea name=\"");
        push_text(env, &mut parts, name);
        push_text(env, &mut parts, "\" data-editor=\"markdown\" rows=\"");
        push_bytes(&mut parts, u32_to_bytes(env, rows as u32));
        push_text(env, &mut parts, "\" placeholder=\"");
        push_text(env, &mut parts, placeholder);
        push_text(env, &mut parts, "\">");
        push_text(env, &mut parts, value);
        push_text(env, &mut parts, "</textarea>\n");
        Self { env, parts }
    }

    /// An input field with a markdown editor and a host string as its
    /// value.
    pub fn textarea_markdown_with_value_string(self, name: &str, rows: u8, placeholder: &str, value: &soroban_sdk::String) -> (b: Self)
        ensures
            b.markdown() == self.markdown() + utf8("<textarea name=\"") + utf8(name)
                + utf8("\" data-editor=\"markdown\" rows=\"") + dec_text(rows as nat)
                + utf8("\" placeholder=\"") + utf8(placeholder) + utf8("\">")
                + string_bytes(string_seq(*value)) + utf8("</textarea>\n"),
    {
        proof {
            use_type_invariant(&self);
        }
        let Self { env, mut parts } = self;
        push_text(env, &mut parts, "<textarea name=\"");
        push_text(env, &mut parts, name);
        push_text(env, &mut parts, "\" data-editor=\"markdown\" rows=\"");
        push_bytes(&mut parts, u32_to_bytes(env, rows as u32));
        push_text(env, &mut parts, "\" placeholder=\"");
        push_text(env, &mut parts, placeholder);
        push_text(env, &mut parts, "\">");
        push_bytes(&mut parts, string_to_bytes(env, value));
        push_text(env, &mut parts, "</textarea>\n");
        Self { env, parts }
    }

    /// An item of a list.
    pub fn list_item(self, text: &str) -> (b: Self)
        ensures
            b.markdown() == self.markdown() + utf8("- ") + utf8(text) + utf8("\n"),
    {
        proof {
            use_type_invariant(&self);
        }
        let Self { env, mut parts } = self;
        push_text(env, &mut parts, "- ");
        push_text(env, &mut parts, text);
        push_text(env, &mut parts, "\n");
        Self { env, parts }
    }

    /// An item of a task list, checked or not.
    pub fn checkbox(self, checked: bool, text: &str) -> (b: Self)
        ensures
            b.markdown() == self.markdown() + checkbox_mark(checked) + utf8(text) + utf8("\n"),
    {
        proof {
            use_type_invariant(&self);
        }
        let Self { env, mut parts } = self;
        push_text(env, &mut parts, checkbox_text(checked));
        push_text(env, &mut parts, text);
        push_text(env, &mut parts, "\n");
        Self { env, parts }
    }

    /// A quoted line, with a blank line after it.
    pub fn blockquote(self, text: &str) -> (b: Self)
        ensures
            b.markdown() == self.markdown() + utf8("> ") + utf8(text) + utf8("\n\n"),
    {
        proof {
            use_type_invariant(&self);
        }
        let Self { env, mut parts } = self;
        push_text(env, &mut parts, "> ");
        push_text(env, &mut parts, text);
        push_text(env, &mut parts, "\n\n");
        Self { env, parts }
    }

    /// Opens a `div` with the given classes.
    pub fn div_start(self, classes: &str) -> (b: Self)
        ensures
            b.markdown() == self.markdown() + utf8("<div class=\"") + utf8(classes)
                + utf8("\">\n"),
    {
        proof {
            use_type_invariant(&self);
        }
        let Self { env, mut parts } = self;
        push_text(env, &mut parts, "<div class=\"");
        push_text(env, &mut parts, classes);
        push_text(env, &mut parts, "\">\n");
        Self { env, parts }
    }

    /// Opens a `div` with the given classes and inline style.
    pub fn div_start_styled(self, classes: &str, style: &str) -> (b: Self)
        ensures
            b.markdown() == self.markdown() + utf8("<div class=\"") + utf8(classes)
                + utf8("\" style=\"") + utf8(style) + utf8("\">\n"),
    {
        proof {
            use_type_invariant(&self);
        }
        let Self { env, mut parts } = self;
        push_text(env, &mut parts, "<div class=\"");
        push_text(env, &mut parts, classes);
        push_text(env, &mut parts, "\" style=\"");
        push_text(env, &mut parts, style);
        push_text(env, &mut parts, "\">\n");
        Self { env, parts }
    }

    /// Closes a `div`.
    pub fn div_end(self) -> (b: Self)
        ensures
            b.markdown() == self.markdown() + utf8("</div>\n"),
    {
        proof {
            use_type_invariant(&self);
        }
        let Self { env, mut parts } = self;
        push_text(env, &mut parts, "</div>\n");
        Self { env, parts }
    }

    /// Opens a `span` with the given classes.
    pub fn span_start(self, classes: &str) -> (b: Self)
        ensures
            b.markdown() == self.markdown() + utf8("<span class=\"") + utf8(classes) + utf8("\">"),
    {
        proof {
            use_type_invariant(&self);
        }
        let Self { env, mut parts } = self;
        push_text(env, &mut parts, "<span class=\"");
        push_text(env, &mut parts, classes);
        push_text(env, &mut parts, "\">");
        Self { env, parts }
    }

    /// Closes a `span`.
    pub fn span_end(self) -> (b: Self)
        ensures
            b.markdown() == self.markdown() + utf8("</span>"),
    {
        proof {
            use_type_invariant(&self);
        }
        let Self { env, mut parts } = self;
        push_text(env, &mut parts, "</span>");
        Self { env, parts }
    }

    /// Marks that the items of a collection go on from an index, of so
    /// many in all where the total is known.
    pub fn continuation(self, collection: &str, from_index: u32, total: Option<u32>) -> (b: Self)
        ensures
            b.markdown() == self.markdown() + utf8("{{continue collection=\"") + utf8(collection)
                + utf8("\" from=") + dec_text(from_index as nat) + optional_total(total)
                + utf8("}}"),
    {
        proof {
            use_type_invariant(&self);
        }
        let Self { env, mut parts } = self;
        push_text(env, &mut parts, "{{continue collection=\"");
        push_text(env, &mut parts, collection);
        push_text(env, &mut parts, "\" from=");
        push_bytes(&mut parts, u32_to_bytes(env, from_index));
        push_optional_total(env, &mut parts, total);
        push_text(env, &mut parts, "}}");
        Self { env, parts }
    }

    /// Refers to one chunk of a collection.
    pub fn chunk_ref(self, collection: &str, index: u32) -> (b: Self)
        ensures
            b.markdown() == self.markdown() + utf8("{{chunk collection=\"") + utf8(collection)
                + utf8("\" index=") + dec_text(index as nat) + utf8("}}"),
    {
        proof {
            use_type_invariant(&self);
        }
        let Self { env, mut parts } = self;
        push_text(env, &mut parts, "{{chunk collection=\"");
        push_text(env, &mut parts, collection);
        push_text(env, &mut parts, "\" index=");
        push_bytes(&mut parts, u32_to_bytes(env, index));
        push_text(env, &mut parts, "}}");
        Self { env, parts }
    }

    /// Refers to one chunk of a collection, with a text to show until it
    /// has come.
    pub fn chunk_ref_placeholder(self, collection: &str, index: u32, placeholder: &str) -> (b: Self)
        ensures
            b.markdown() == self.markdown() + utf8("{{chunk collection=\"") + utf8(collection)
                + utf8("\" index=") + dec_text(index as nat) + utf8(" placeholder=\"")
                + utf8(placeholder) + utf8("\"}}"),
    {
        proof {
            use_type_invariant(&self);
        }
        let Self { env, mut parts } = self;
        push_text(env, &mut parts, "{{chunk collection=\"");
        push_text(env, &mut parts, collection);
        push_text(env, &mut parts, "\" index=");
        push_bytes(&mut parts, u32_to_bytes(env, index));
        push_text(env, &mut parts, " placeholder=\"");
        push_text(env, &mut parts, placeholder);
        push_text(env, &mut parts, "\"}}");
        Self { env, parts }
    }

    /// Marks that a collection goes on with a page of so many items, of so
    /// many in all.
    pub fn continue_page(self, collection: &str, page: u32, per_page: u32, total: u32) -> (b: Self)
        ensures
            b.markdown() == self.markdown() + utf8("{{continue collection=\"") + utf8(collection)
                + utf8("\" page=") + dec_text(page as nat) + utf8(" per_page=")
                + dec_text(per_page as nat) + utf8(" total=") + dec_text(total as nat)
                + utf8("}}"),
    {
        proof {
            use_type_invariant(&self);
        }
        let Self { env, mut parts } = self;
        push_text(env, &mut parts, "{{continue collection=\"");
        push_text(env, &mut parts, collection);
        push_text(env, &mut parts, "\" page=");
        push_bytes(&mut parts, u32_to_bytes(env, page));
        push_text(env, &mut parts, " per_page=");
        push_bytes(&mut parts, u32_to_bytes(env, per_page));
        push_text(env, &mut parts, " total=");
        push_bytes(&mut parts, u32_to_bytes(env, total));
        push_text(env, &mut parts, "}}");
        Self { env, parts }
    }

    /// Marks that the content goes on with what a path renders.
    pub fn render_continue(self, path: &str) -> (b: Self)
        ensures
            b.markdown() == self.markdown() + utf8("{{render path=\"") + utf8(path) + utf8("\"}}"),
    {
        proof {
            use_type_invariant(&self);
        }
        let Self { env, mut parts } = self;
        push_text(env, &mut parts, "{{render path=\"");
        push_text(env, &mut parts, path);
        push_text(env, &mut parts, "\"}}");
        Self { env, parts }
    }

    /// The markdown as `Bytes`.
    pub fn build(self) -> (out: Bytes)
        ensures
            bytes_seq(out) == self.markdown(),
    {
        proof {
            use_type_invariant(&self);
        }
        concat_bytes(self.env, &self.parts)
    }
}

} // verus!
