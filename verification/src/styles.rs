//! A builder for CSS stylesheets.

use vstd::prelude::*;
use soroban_sdk::{Bytes, Env};
use crate::bytes::{concat_bytes, joined, u32_to_bytes};
use crate::decimal::dec_text;
use crate::host::{bytes_seq, parts_are_bytes, parts_new, parts_seq};
use crate::parts::{push_bytes, push_text, utf8};

verus! {

/// Appends an indented property line: two spaces, the prefix, the name,
/// `: `, the value, `;` and a line feed.
fn indented_property(
    env: &Env,
    parts: &mut soroban_sdk::Vec<Bytes>,
    prefix: &str,
    name: &str,
    value: &str,
)
    requires
        parts_are_bytes(*old(parts)),
    ensures
        parts_are_bytes(*final(parts)),
        joined(parts_seq(*final(parts))) == joined(parts_seq(*old(parts))) + utf8("  ") + utf8(
            prefix,
        ) + utf8(name) + utf8(": ") + utf8(value) + utf8(";\n"),
{
    push_text(env, parts, "  ");
    push_text(env, parts, prefix);
    push_text(env, parts, name);
    push_text(env, parts, ": ");
    push_text(env, parts, value);
    push_text(env, parts, ";\n");
}

/// Appends `}` and a line feed.
fn close_block(env: &Env, parts: &mut soroban_sdk::Vec<Bytes>)
    requires
        parts_are_bytes(*old(parts)),
    ensures
        parts_are_bytes(*final(parts)),
        joined(parts_seq(*final(parts))) == joined(parts_seq(*old(parts))) + utf8("}\n"),
{
    push_text(env, parts, "}\n");
}

/// Builds a stylesheet piece by piece. Every method appends to what was
/// built before; `build` hands out the whole.
pub struct StyleBuilder<'a> {
    env: &'a Env,
    parts: soroban_sdk::Vec<Bytes>,
}

impl<'a> StyleBuilder<'a> {
    #[verifier::type_invariant]
    spec fn wf(self) -> bool {
        parts_are_bytes(self.parts)
    }

    /// The stylesheet built so far.
    pub closed spec fn css(&self) -> Seq<u8> {
        joined(parts_seq(self.parts))
    }

    /// An empty stylesheet.
    pub fn new(env: &'a Env) -> (b: Self)
        ensures
            b.css() == Seq::<u8>::empty(),
    {
        Self { env, parts: parts_new(env) }
    }

    /// A custom property on `:root`, on a line of its own:
    /// `:root { --name: value; }`.
    pub fn root_var(self, name: &str, value: &str) -> (b: Self)
        ensures
            b.css() == self.css() + utf8(":root { --") + utf8(name) + utf8(": ") + utf8(value)
                + utf8("; }\n"),
    {
        proof {
            use_type_invariant(&self);
        }
        let Self { env, mut parts } = self;
        push_text(env, &mut parts, ":root { --");
        push_text(env, &mut parts, name);
        push_text(env, &mut parts, ": ");
        push_text(env, &mut parts, value);
        push_text(env, &mut parts, "; }\n");
        Self { env, parts }
    }

    /// Opens a `:root` block for several custom properties.
    pub fn root_vars_start(self) -> (b: Self)
        ensures
            b.css() == self.css() + utf8(":root {\n"),
    {
        proof {
            use_type_invariant(&self);
        }
        let Self { env, mut parts } = self;
        push_text(env, &mut parts, ":root {\n");
        Self { env, parts }
    }

    /// A custom property inside a `:root` block: `  --name: value;`.
    pub fn var(self, name: &str, value: &str) -> (b: Self)
        ensures
            b.css() == self.css() + utf8("  ") + utf8("--") + utf8(name) + utf8(": ") + utf8(value)
                + utf8(";\n"),
    {
        proof {
            use_type_invariant(&self);
        }
        let Self { env, mut parts } = self;
        indented_property(env, &mut parts, "--", name, value);
        Self { env, parts }
    }

    /// Closes a `:root` block.
    pub fn root_vars_end(self) -> (b: Self)
        ensures
            b.css() == self.css() + utf8("}\n"),
    {
        proof {
            use_type_invariant(&self);
        }
        let Self { env, mut parts } = self;
        close_block(env, &mut parts);
        Self { env, parts }
    }

    /// A rule on one line: `selector { properties }`.
    pub fn rule(self, selector: &str, properties: &str) -> (b: Self)
        ensures
            b.css() == self.css() + utf8(selector) + utf8(" { ") + utf8(properties) + utf8(" }\n"),
    {
        proof {
            use_type_invariant(&self);
        }
        let Self { env, mut parts } = self;
        push_text(env, &mut parts, selector);
        push_text(env, &mut parts, " { ");
        push_text(env, &mut parts, properties);
        push_text(env, &mut parts, " }\n");
        Self { env, parts }
    }

    /// Opens a rule block: `selector {`.
    pub fn rule_start(self, selector: &str) -> (b: Self)
        ensures
            b.css() == self.css() + utf8(selector) + utf8(" {\n"),
    {
        proof {
            use_type_invariant(&self);
        }
        let Self { env, mut parts } = self;
        push_text(env, &mut parts, selector);
        push_text(env, &mut parts, " {\n");
        Self { env, parts }
    }

    /// A property inside a rule block: `  property: value;`.
    pub fn prop(self, property: &str, value: &str) -> (b: Self)
        ensures
            b.css() == self.css() + utf8("  ") + utf8("") + utf8(property) + utf8(": ") + utf8(
                value,
            ) + utf8(";\n"),
    {
        proof {
            use_type_invariant(&self);
        }
        let Self { env, mut parts } = self;
        indented_property(env, &mut parts, "", property, value);
        Self { env, parts }
    }

    /// Closes a rule block.
    pub fn rule_end(self) -> (b: Self)
        ensures
            b.css() == self.css() + utf8("}\n"),
    {
        proof {
            use_type_invariant(&self);
        }
        let Self { env, mut parts } = self;
        close_block(env, &mut parts);
        Self { env, parts }
    }

    /// Opens a media query block: `@media condition {`.
    pub fn media_start(self, condition: &str) -> (b: Self)
        ensures
            b.css() == self.css() + utf8("@media ") + utf8(condition) + utf8(" {\n"),
    {
        proof {
            use_type_invariant(&self);
        }
        let Self { env, mut parts } = self;
        push_text(env, &mut parts, "@media ");
        push_text(env, &mut parts, condition);
        push_text(env, &mut parts, " {\n");
        Self { env, parts }
    }

    /// Closes a media query block.
    pub fn media_end(self) -> (b: Self)
        ensures
            b.css() == self.css() + utf8("}\n"),
    {
        proof {
            use_type_invariant(&self);
        }
        let Self { env, mut parts } = self;
        close_block(env, &mut parts);
        Self { env, parts }
    }

    /// Opens a media query block for the dark colour scheme.
    pub fn dark_mode_start(self) -> (b: Self)
        ensures
            b.css() == self.css() + utf8("@media ") + utf8("(prefers-color-scheme: dark)") + utf8(
                " {\n",
            ),
    {
        self.media_start("(prefers-color-scheme: dark)")
    }

    /// Opens a media query block for the light colour scheme.
    pub fn light_mode_start(self) -> (b: Self)
        ensures
            b.css() == self.css() + utf8("@media ") + utf8("(prefers-color-scheme: light)") + utf8(
                " {\n",
            ),
    {
        self.media_start("(prefers-color-scheme: light)")
    }

    /// Opens a media query block for widths from `min_width` pixels up.
    pub fn breakpoint_min(self, min_width: u32) -> (b: Self)
        ensures
            b.css() == self.css() + utf8("@media (min-width: ") + dec_text(min_width as nat)
                + utf8("px) {\n"),
    {
        proof {
            use_type_invariant(&self);
        }
        let Self { env, mut parts } = self;
        push_text(env, &mut parts, "@media (min-width: ");
        push_bytes(&mut parts, u32_to_bytes(env, min_width));
        push_text(env, &mut parts, "px) {\n");
        Self { env, parts }
    }

    /// Opens a media query block for widths up to `max_width` pixels.
    pub fn breakpoint_max(self, max_width: u32) -> (b: Self)
        ensures
            b.css() == self.css() + utf8("@media (max-width: ") + dec_text(max_width as nat)
                + utf8("px) {\n"),
    {
        proof {
            use_type_invariant(&self);
        }
        let Self { env, mut parts } = self;
        push_text(env, &mut parts, "@media (max-width: ");
        push_bytes(&mut parts, u32_to_bytes(env, max_width));
        push_text(env, &mut parts, "px) {\n");
        Self { env, parts }
    }

    /// Appends CSS as it is given.
    pub fn raw(self, css: &str) -> (b: Self)
        ensures
            b.css() == self.css() + utf8(css),
    {
        proof {
            use_type_invariant(&self);
        }
        let Self { env, mut parts } = self;
        push_text(env, &mut parts, css);
        Self { env, parts }
    }

    /// A comment on a line of its own: `/* text */`.
    pub fn comment(self, content: &str) -> (b: Self)
        ensures
            b.css() == self.css() + utf8("/* ") + utf8(content) + utf8(" */\n"),
    {
        proof {
            use_type_invariant(&self);
        }
        let Self { env, mut parts } = self;
        push_text(env, &mut parts, "/* ");
        push_text(env, &mut parts, content);
        push_text(env, &mut parts, " */\n");
        Self { env, parts }
    }

    /// A line feed.
    pub fn newline(self) -> (b: Self)
        ensures
            b.css() == self.css() + utf8("\n"),
    {
        proof {
            use_type_invariant(&self);
        }
        let Self { env, mut parts } = self;
        push_text(env, &mut parts, "\n");
        Self { env, parts }
    }

    /// The stylesheet as `Bytes`.
    pub fn build(self) -> (out: Bytes)
        ensures
            bytes_seq(out) == self.css(),
    {
        proof {
            use_type_invariant(&self);
        }
        concat_bytes(self.env, &self.parts)
    }
}

} // verus!
