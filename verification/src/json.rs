//! A builder for JSON documents in the `soroban-render-json-v1` format.
//!
//! A document is a title and a list of components. The builder writes the
//! JSON text as it goes: every method appends the text of one component, or
//! of a part of one, with a comma before it where the list needs one. Texts
//! that come from the caller are escaped for JSON strings.

use vstd::prelude::*;
use soroban_sdk::{Bytes, Env};
use crate::bytes::{
    concat_bytes, escape_json_bytes, escape_json_string, joined, json_escaped, string_bytes,
    u32_to_bytes,
};
use crate::decimal::dec_text;
use crate::host::{bytes_seq, parts_are_bytes, parts_new, parts_seq, string_seq};
use crate::parts::{push_bytes, push_text, utf8};

verus! {

/// The comma that goes before an item of a list in which `count` items
/// stand already.
pub open spec fn separator(count: u32) -> Seq<u8> {
    if count > 0 {
        utf8(",")
    } else {
        Seq::empty()
    }
}

/// The count after one more item. It stops at the largest `u32`; all that
/// is ever asked of it is whether it is zero.
pub open spec fn bumped(count: u32) -> u32 {
    if count < u32::MAX {
        (count + 1) as u32
    } else {
        count
    }
}

/// Appends a comma where the list has items already, and counts one more.
fn maybe_comma(env: &Env, parts: &mut soroban_sdk::Vec<Bytes>, count: &mut u32)
    requires
        parts_are_bytes(*old(parts)),
    ensures
        parts_are_bytes(*final(parts)),
        joined(parts_seq(*final(parts))) == joined(parts_seq(*old(parts))) + separator(
            *old(count),
        ),
        *final(count) == bumped(*old(count)),
{
    if *count > 0 {
        push_text(env, parts, ",");
    } else {
        assert(joined(parts_seq(*parts)) =~= joined(parts_seq(*parts)) + Seq::<u8>::empty());
    }
    if *count < u32::MAX {
        *count = *count + 1;
    }
}

/// Appends a text, escaped for a JSON string.
fn push_escaped_text(env: &Env, parts: &mut soroban_sdk::Vec<Bytes>, s: &str)
    requires
        parts_are_bytes(*old(parts)),
    ensures
        parts_are_bytes(*final(parts)),
        joined(parts_seq(*final(parts))) == joined(parts_seq(*old(parts))) + json_escaped(utf8(s)),
{
    push_bytes(parts, escape_json_bytes(env, s.as_bytes()));
}

/// The text of the JSON literal for a boolean.
pub open spec fn bool_text(value: bool) -> Seq<u8> {
    if value {
        utf8("true")
    } else {
        utf8("false")
    }
}

/// A JSON document under construction.
pub struct JsonDocument<'a> {
    env: &'a Env,
    parts: soroban_sdk::Vec<Bytes>,
    component_count: u32,
}

/// The fields of a form under construction, inside a document.
pub struct FormBuilder<'a> {
    doc: JsonDocument<'a>,
    field_count: u32,
}

/// The actions of a task under construction, inside a document.
pub struct TaskBuilder<'a> {
    doc: JsonDocument<'a>,
    action_count: u32,
}

impl<'a> JsonDocument<'a> {
    #[verifier::type_invariant]
    spec fn wf(self) -> bool {
        parts_are_bytes(self.parts)
    }

    /// The JSON text written so far.
    pub closed spec fn json(&self) -> Seq<u8> {
        joined(parts_seq(self.parts))
    }

    /// The number of components in the list that is open.
    pub closed spec fn count(&self) -> u32 {
        self.component_count
    }

    /// A document with a title and, so far, no components.
    pub fn new(env: &'a Env, title: &str) -> (doc: Self)
        ensures
            doc.json() == utf8("{\"format\":\"soroban-render-json-v1\",\"title\":\"")
                + json_escaped(utf8(title)) + utf8("\",\"components\":["),
            doc.count() == 0,
    {
        let mut parts = parts_new(env);
        push_text(env, &mut parts, "{\"format\":\"soroban-render-json-v1\",\"title\":\"");
        assert(joined(parts_seq(parts)) =~= utf8(
            "{\"format\":\"soroban-render-json-v1\",\"title\":\"",
        ));
        push_escaped_text(env, &mut parts, title);
        push_text(env, &mut parts, "\",\"components\":[");
        Self { env, parts, component_count: 0 }
    }

    /// A heading component.
    pub fn heading(self, level: u8, text: &str) -> (doc: Self)
        ensures
            doc.json() == self.json() + separator(self.count()) + utf8(
                "{\"type\":\"heading\",\"level\":",
            ) + dec_text(level as nat) + utf8(",\"text\":\"") + json_escaped(utf8(text)) + utf8(
                "\"}",
            ),
            doc.count() == bumped(self.count()),
    {
        proof {
            use_type_invariant(&self);
        }
        let Self { env, mut parts, mut component_count } = self;
        maybe_comma(env, &mut parts, &mut component_count);
        push_text(env, &mut parts, "{\"type\":\"heading\",\"level\":");
        push_bytes(&mut parts, u32_to_bytes(env, level as u32));
        push_text(env, &mut parts, ",\"text\":\"");
        push_escaped_text(env, &mut parts, text);
        push_text(env, &mut parts, "\"}");
        Self { env, parts, component_count }
    }

    /// A heading component whose text is a host string.
    pub fn heading_string(self, level: u8, text: &soroban_sdk::String) -> (doc: Self)
        ensures
            doc.json() == self.json() + separator(self.count()) + utf8(
                "{\"type\":\"heading\",\"level\":",
            ) + dec_text(level as nat) + utf8(",\"text\":\"") + json_escaped(
                string_bytes(string_seq(*text)),
            ) + utf8("\"}"),
            doc.count() == bumped(self.count()),
    {
        proof {
            use_type_invariant(&self);
        }
        let Self { env, mut parts, mut component_count } = self;
        maybe_comma(env, &mut parts, &mut component_count);
        push_text(env, &mut parts, "{\"type\":\"heading\",\"level\":");
        push_bytes(&mut parts, u32_to_bytes(env, level as u32));
        push_text(env, &mut parts, ",\"text\":\"");
        push_bytes(&mut parts, escape_json_string(env, text));
        push_text(env, &mut parts, "\"}");
        Self { env, parts, component_count }
    }

    /// A text component.
    pub fn text(self, content: &str) -> (doc: Self)
        ensures
            doc.json() == self.json() + separator(self.count()) + utf8(
                "{\"type\":\"text\",\"content\":\"",
            ) + json_escaped(utf8(content)) + utf8("\"}"),
            doc.count() == bumped(self.count()),
    {
        proof {
            use_type_invariant(&self);
        }
        let Self { env, mut parts, mut component_count } = self;
        maybe_comma(env, &mut parts, &mut component_count);
        push_text(env, &mut parts, "{\"type\":\"text\",\"content\":\"");
        push_escaped_text(env, &mut parts, content);
        push_text(env, &mut parts, "\"}");
        Self { env, parts, component_count }
    }

    /// A text component whose content is a host string.
    pub fn text_string(self, content: &soroban_sdk::String) -> (doc: Self)
        ensures
            doc.json() == self.json() + separator(self.count()) + utf8(
                "{\"type\":\"text\",\"content\":\"",
            ) + json_escaped(string_bytes(string_seq(*content))) + utf8("\"}"),
            doc.count() == bumped(self.count()),
    {
        proof {
            use_type_invariant(&self);
        }
        let Self { env, mut parts, mut component_count } = self;
        maybe_comma(env, &mut parts, &mut component_count);
        push_text(env, &mut parts, "{\"type\":\"text\",\"content\":\"");
        push_bytes(&mut parts, escape_json_string(env, content));
        push_text(env, &mut parts, "\"}");
        Self { env, parts, component_count }
    }

    /// A divider component.
    pub fn divider(self) -> (doc: Self)
        ensures
            doc.json() == self.json() + separator(self.count()) + utf8("{\"type\":\"divider\"}"),
            doc.count() == bumped(self.count()),
    {
        proof {
            use_type_invariant(&self);
        }
        let Self { env, mut parts, mut component_count } = self;
        maybe_comma(env, &mut parts, &mut component_count);
        push_text(env, &mut parts, "{\"type\":\"divider\"}");
        Self { env, parts, component_count }
    }

    /// Opens a form component; its fields are added through the builder
    /// that is returned, and `submit` closes it.
    pub fn form(self, action: &str) -> (form: FormBuilder<'a>)
        ensures
            form.json() == self.json() + separator(self.count()) + utf8(
                "{\"type\":\"form\",\"action\":\"",
            ) + json_escaped(utf8(action)) + utf8("\",\"fields\":["),
            form.doc_count() == bumped(self.count()),
            form.count() == 0,
    {
        proof {
            use_type_invariant(&self);
        }
        let Self { env, mut parts, mut component_count } = self;
        maybe_comma(env, &mut parts, &mut component_count);
        push_text(env, &mut parts, "{\"type\":\"form\",\"action\":\"");
        push_escaped_text(env, &mut parts, action);
        push_text(env, &mut parts, "\",\"fields\":[");
        FormBuilder { doc: Self { env, parts, component_count }, field_count: 0 }
    }

    /// Opens a navigation component.
    pub fn nav_start(self) -> (doc: Self)
        ensures
            doc.json() == self.json() + separator(self.count()) + utf8(
                "{\"type\":\"navigation\",\"items\":[",
            ),
            doc.count() == bumped(self.count()),
    {
        proof {
            use_type_invariant(&self);
        }
        let Self { env, mut parts, mut component_count } = self;
        maybe_comma(env, &mut parts, &mut component_count);
        push_text(env, &mut parts, "{\"type\":\"navigation\",\"items\":[");
        Self { env, parts, component_count }
    }

    /// An item of the navigation component that is open. `first` says that
    /// no item stands before it, so that no comma is written.
    pub fn nav_item(self, label: &str, path: &str, active: bool, first: bool) -> (doc: Self)
        ensures
            doc.json() == self.json() + (if first {
                Seq::<u8>::empty()
            } else {
                utf8(",")
            }) + utf8("{\"label\":\"") + json_escaped(utf8(label)) + utf8("\",\"path\":\"")
                + json_escaped(utf8(path)) + utf8("\"") + (if active {
                utf8(",\"active\":true")
            } else {
                Seq::<u8>::empty()
            }) + utf8("}"),
            doc.count() == self.count(),
    {
        proof {
            use_type_invariant(&self);
        }
        let Self { env, mut parts, component_count } = self;
        if !first {
            push_text(env, &mut parts, ",");
        } else {
            assert(joined(parts_seq(parts)) =~= joined(parts_seq(parts)) + Seq::<u8>::empty());
        }
        push_text(env, &mut parts, "{\"label\":\"");
        push_escaped_text(env, &mut parts, label);
        push_text(env, &mut parts, "\",\"path\":\"");
        push_escaped_text(env, &mut parts, path);
        push_text(env, &mut parts, "\"");
        if active {
            push_text(env, &mut parts, ",\"active\":true");
        } else {
            assert(joined(parts_seq(parts)) =~= joined(parts_seq(parts)) + Seq::<u8>::empty());
        }
        push_text(env, &mut parts, "}");
        Self { env, parts, component_count }
    }

    /// Closes the navigation component.
    pub fn nav_end(self) -> (doc: Self)
        ensures
            doc.json() == self.json() + utf8("]}"),
            doc.count() == self.count(),
    {
        proof {
            use_type_invariant(&self);
        }
        let Self { env, mut parts, component_count } = self;
        push_text(env, &mut parts, "]}");
        Self { env, parts, component_count }
    }

    /// Opens a pie chart component.
    pub fn pie_chart_start(self, title: &str) -> (doc: Self)
        ensures
            doc.json() == self.json() + separator(self.count()) + utf8(
                "{\"type\":\"chart\",\"chartType\":\"pie\",\"title\":\"",
            ) + json_escaped(utf8(title)) + utf8("\",\"data\":["),
            doc.count() == bumped(self.count()),
    {
        proof {
            use_type_invariant(&self);
        }
        let Self { env, mut parts, mut component_count } = self;
        maybe_comma(env, &mut parts, &mut component_count);
        push_text(env, &mut parts, "{\"type\":\"chart\",\"chartType\":\"pie\",\"title\":\"");
        push_escaped_text(env, &mut parts, title);
        push_text(env, &mut parts, "\",\"data\":[");
        Self { env, parts, component_count }
    }

    /// A slice of the pie chart that is open. `first` says that no slice
    /// stands before it, so that no comma is written.
    pub fn pie_slice(self, label: &str, value: u32, color: &str, first: bool) -> (doc: Self)
        ensures
            doc.json() == self.json() + (if first {
                Seq::<u8>::empty()
            } else {
                utf8(",")
            }) + utf8("{\"label\":\"") + json_escaped(utf8(label)) + utf8("\",\"value\":")
                + dec_text(value as nat) + utf8(",\"color\":\"") + json_escaped(utf8(color))
                + utf8("\"}"),
            doc.count() == self.count(),
    {
        proof {
            use_type_invariant(&self);
        }
        let Self { env, mut parts, component_count } = self;
        if !first {
            push_text(env, &mut parts, ",");
        } else {
            assert(joined(parts_seq(parts)) =~= joined(parts_seq(parts)) + Seq::<u8>::empty());
        }
        push_text(env, &mut parts, "{\"label\":\"");
        push_escaped_text(env, &mut parts, label);
        push_text(env, &mut parts, "\",\"value\":");
        push_bytes(&mut parts, u32_to_bytes(env, value));
        push_text(env, &mut parts, ",\"color\":\"");
        push_escaped_text(env, &mut parts, color);
        push_text(env, &mut parts, "\"}");
        Self { env, parts, component_count }
    }

    /// Closes the pie chart component.
    pub fn pie_chart_end(self) -> (doc: Self)
        ensures
            doc.json() == self.json() + utf8("]}"),
            doc.count() == self.count(),
    {
        proof {
            use_type_invariant(&self);
        }
        let Self { env, mut parts, component_count } = self;
        push_text(env, &mut parts, "]}");
        Self { env, parts, component_count }
    }

    /// A gauge chart component.
    pub fn gauge(self, value: u32, max: u32, label: &str) -> (doc: Self)
        ensures
            doc.json() == self.json() + separator(self.count()) + utf8(
                "{\"type\":\"chart\",\"chartType\":\"gauge\",\"value\":",
            ) + dec_text(value as nat) + utf8(",\"max\":") + dec_text(max as nat) + utf8(
                ",\"label\":\"",
            ) + json_escaped(utf8(label)) + utf8("\"}"),
            doc.count() == bumped(self.count()),
    {
        proof {
            use_type_invariant(&self);
        }
        let Self { env, mut parts, mut component_count } = self;
        maybe_comma(env, &mut parts, &mut component_count);
        push_text(env, &mut parts, "{\"type\":\"chart\",\"chartType\":\"gauge\",\"value\":");
        push_bytes(&mut parts, u32_to_bytes(env, value));
        push_text(env, &mut parts, ",\"max\":");
        push_bytes(&mut parts, u32_to_bytes(env, max));
        push_text(env, &mut parts, ",\"label\":\"");
        push_escaped_text(env, &mut parts, label);
        push_text(env, &mut parts, "\"}");
        Self { env, parts, component_count }
    }

    /// Opens a container component. The components that follow go into its
    /// own list, which starts empty.
    pub fn container_start(self, class_name: &str) -> (doc: Self)
        ensures
            doc.json() == self.json() + separator(self.count()) + utf8(
                "{\"type\":\"container\",\"className\":\"",
            ) + json_escaped(utf8(class_name)) + utf8("\",\"components\":["),
            doc.count() == 0,
    {
        proof {
            use_type_invariant(&self);
        }
        let Self { env, mut parts, mut component_count } = self;
        maybe_comma(env, &mut parts, &mut component_count);
        push_text(env, &mut parts, "{\"type\":\"container\",\"className\":\"");
        push_escaped_text(env, &mut parts, class_name);
        push_text(env, &mut parts, "\",\"components\":[");
        Self { env, parts, component_count: 0 }
    }

    /// Closes the container component. The list around it then counts as not
    /// empty.
    pub fn container_end(self) -> (doc: Self)
        ensures
            doc.json() == self.json() + utf8("]}"),
            doc.count() == 1,
    {
        proof {
            use_type_invariant(&self);
        }
        let Self { env, mut parts, component_count } = self;
        push_text(env, &mut parts, "]}");
        Self { env, parts, component_count: 1 }
    }

    /// Opens a task component; its actions are added through the builder
    /// that is returned, and `end` closes it.
    pub fn task(self, id: u32, text: &str, completed: bool) -> (task: TaskBuilder<'a>)
        ensures
            task.json() == self.json() + separator(self.count()) + utf8("{\"type\":\"task\",\"id\":")
                + dec_text(id as nat) + utf8(",\"text\":\"") + json_escaped(utf8(text)) + utf8(
                "\",\"completed\":",
            ) + bool_text(completed) + utf8(",\"actions\":["),
            task.doc_count() == bumped(self.count()),
            task.count() == 0,
    {
        proof {
            use_type_invariant(&self);
        }
        let Self { env, mut parts, mut component_count } = self;
        maybe_comma(env, &mut parts, &mut component_count);
        push_text(env, &mut parts, "{\"type\":\"task\",\"id\":");
        push_bytes(&mut parts, u32_to_bytes(env, id));
        push_text(env, &mut parts, ",\"text\":\"");
        push_escaped_text(env, &mut parts, text);
        push_text(env, &mut parts, "\",\"completed\":");
        if completed {
            push_text(env, &mut parts, "true");
        } else {
            push_text(env, &mut parts, "false");
        }
        push_text(env, &mut parts, ",\"actions\":[");
        TaskBuilder { doc: Self { env, parts, component_count }, action_count: 0 }
    }

    /// Opens a task component whose text is a host string.
    pub fn task_string(self, id: u32, text: &soroban_sdk::String, completed: bool) -> (task:
        TaskBuilder<'a>)
        ensures
            task.json() == self.json() + separator(self.count()) + utf8("{\"type\":\"task\",\"id\":")
                + dec_text(id as nat) + utf8(",\"text\":\"") + json_escaped(
                string_bytes(string_seq(*text)),
            ) + utf8("\",\"completed\":") + bool_text(completed) + utf8(",\"actions\":["),
            task.doc_count() == bumped(self.count()),
            task.count() == 0,
    {
        proof {
            use_type_invariant(&self);
        }
        let Self { env, mut parts, mut component_count } = self;
        maybe_comma(env, &mut parts, &mut component_count);
        push_text(env, &mut parts, "{\"type\":\"task\",\"id\":");
        push_bytes(&mut parts, u32_to_bytes(env, id));
        push_text(env, &mut parts, ",\"text\":\"");
        push_bytes(&mut parts, escape_json_string(env, text));
        push_text(env, &mut parts, "\",\"completed\":");
        if completed {
            push_text(env, &mut parts, "true");
        } else {
            push_text(env, &mut parts, "false");
        }
        push_text(env, &mut parts, ",\"actions\":[");
        TaskBuilder { doc: Self { env, parts, component_count }, action_count: 0 }
    }

    /// Closes the list of components and the document, and hands out the
    /// JSON text.
    pub fn build(self) -> (out: Bytes)
        ensures
            bytes_seq(out) == self.json() + utf8("]}"),
    {
        proof {
            use_type_invariant(&self);
        }
        let Self { env, mut parts, component_count } = self;
        push_text(env, &mut parts, "]}");
        concat_bytes(env, &parts)
    }
}

impl<'a> FormBuilder<'a> {
    /// The JSON text written so far, the document's and the form's.
    pub closed spec fn json(&self) -> Seq<u8> {
        self.doc.json()
    }

    /// The number of fields of the form.
    pub closed spec fn count(&self) -> u32 {
        self.field_count
    }

    /// The number of components of the document, the form among them.
    pub closed spec fn doc_count(&self) -> u32 {
        self.doc.count()
    }

    /// A one-line text field.
    pub fn text_field(self, name: &str, placeholder: &str, required: bool) -> (form: Self)
        ensures
            form.json() == self.json() + separator(self.count()) + utf8("{\"name\":\"")
                + json_escaped(utf8(name)) + utf8("\",\"type\":\"text\",\"placeholder\":\"")
                + json_escaped(utf8(placeholder)) + utf8("\"") + (if required {
                utf8(",\"required\":true")
            } else {
                Seq::<u8>::empty()
            }) + utf8("}"),
            form.count() == bumped(self.count()),
            form.doc_count() == self.doc_count(),
    {
        let FormBuilder { doc, mut field_count } = self;
        proof {
            use_type_invariant(&doc);
        }
        let JsonDocument { env, mut parts, component_count } = doc;
        maybe_comma(env, &mut parts, &mut field_count);
        push_text(env, &mut parts, "{\"name\":\"");
        push_escaped_text(env, &mut parts, name);
        push_text(env, &mut parts, "\",\"type\":\"text\",\"placeholder\":\"");
        push_escaped_text(env, &mut parts, placeholder);
        push_text(env, &mut parts, "\"");
        if required {
            push_text(env, &mut parts, ",\"required\":true");
        } else {
            assert(joined(parts_seq(parts)) =~= joined(parts_seq(parts)) + Seq::<u8>::empty());
        }
        push_text(env, &mut parts, "}");
        FormBuilder { doc: JsonDocument { env, parts, component_count }, field_count }
    }

    /// A text field of several lines.
    pub fn textarea_field(self, name: &str, placeholder: &str) -> (form: Self)
        ensures
            form.json() == self.json() + separator(self.count()) + utf8("{\"name\":\"")
                + json_escaped(utf8(name)) + utf8("\",\"type\":\"textarea\",\"placeholder\":\"")
                + json_escaped(utf8(placeholder)) + utf8("\"}"),
            form.count() == bumped(self.count()),
            form.doc_count() == self.doc_count(),
    {
        let FormBuilder { doc, mut field_count } = self;
        proof {
            use_type_invariant(&doc);
        }
        let JsonDocument { env, mut parts, component_count } = doc;
        maybe_comma(env, &mut parts, &mut field_count);
        push_text(env, &mut parts, "{\"name\":\"");
        push_escaped_text(env, &mut parts, name);
        push_text(env, &mut parts, "\",\"type\":\"textarea\",\"placeholder\":\"");
        push_escaped_text(env, &mut parts, placeholder);
        push_text(env, &mut parts, "\"}");
        FormBuilder { doc: JsonDocument { env, parts, component_count }, field_count }
    }

    /// Closes the form with the label of its submit button and gives the
    /// document back.
    pub fn submit(self, label: &str) -> (doc: JsonDocument<'a>)
        ensures
            doc.json() == self.json() + utf8("],\"submitLabel\":\"") + json_escaped(utf8(label))
                + utf8("\"}"),
            doc.count() == self.doc_count(),
    {
        let FormBuilder { doc, field_count } = self;
        proof {
            use_type_invariant(&doc);
        }
        let JsonDocument { env, mut parts, component_count } = doc;
        push_text(env, &mut parts, "],\"submitLabel\":\"");
        push_escaped_text(env, &mut parts, label);
        push_text(env, &mut parts, "\"}");
        JsonDocument { env, parts, component_count }
    }
}

impl<'a> TaskBuilder<'a> {
    /// The JSON text written so far, the document's and the task's.
    pub closed spec fn json(&self) -> Seq<u8> {
        self.doc.json()
    }

    /// The number of actions of the task.
    pub closed spec fn count(&self) -> u32 {
        self.action_count
    }

    /// The number of components of the document, the task among them.
    pub closed spec fn doc_count(&self) -> u32 {
        self.doc.count()
    }

    /// An action that sends a transaction: the contract method to call, the
    /// id that it gets as argument, and the label of the button.
    pub fn tx_action(self, method: &str, id: u32, label: &str) -> (task: Self)
        ensures
            task.json() == self.json() + separator(self.count()) + utf8(
                "{\"type\":\"tx\",\"method\":\"",
            ) + json_escaped(utf8(method)) + utf8("\",\"args\":{\"id\":") + dec_text(id as nat)
                + utf8("},\"label\":\"") + json_escaped(utf8(label)) + utf8("\"}"),
            task.count() == bumped(self.count()),
            task.doc_count() == self.doc_count(),
    {
        let TaskBuilder { doc, mut action_count } = self;
        proof {
            use_type_invariant(&doc);
        }
        let JsonDocument { env, mut parts, component_count } = doc;
        maybe_comma(env, &mut parts, &mut action_count);
        push_text(env, &mut parts, "{\"type\":\"tx\",\"method\":\"");
        push_escaped_text(env, &mut parts, method);
        push_text(env, &mut parts, "\",\"args\":{\"id\":");
        push_bytes(&mut parts, u32_to_bytes(env, id));
        push_text(env, &mut parts, "},\"label\":\"");
        push_escaped_text(env, &mut parts, label);
        push_text(env, &mut parts, "\"}");
        TaskBuilder { doc: JsonDocument { env, parts, component_count }, action_count }
    }

    /// Closes the task and gives the document back.
    pub fn end(self) -> (doc: JsonDocument<'a>)
        ensures
            doc.json() == self.json() + utf8("]}"),
            doc.count() == self.doc_count(),
    {
        let TaskBuilder { doc, action_count } = self;
        proof {
            use_type_invariant(&doc);
        }
        let JsonDocument { env, mut parts, component_count } = doc;
        push_text(env, &mut parts, "]}");
        JsonDocument { env, parts, component_count }
    }
}

} // verus!
