//! The in-memory user record and its textual rendering.
//!
//! The record is immutable once constructed and rendering it cannot fail:
//! both rendering modes produce one fixed multi-line text, stated exactly
//! by `spec_render`.

use vstd::prelude::*;

use crate::text::{chars_to_string, dec_digits, u64_digits};

verus! {

/// A fixed-shape record: a flag, two text fields and a counter.
pub struct User {
    pub active: bool,
    pub username: String,
    pub email: String,
    pub sign_in_count: u64,
}

/// The text of a boolean, as it is rendered.
pub open spec fn bool_text(b: bool) -> Seq<char> {
    if b {
        "true"@
    } else {
        "false"@
    }
}

impl User {
    /// The one rendering of a record: each field after its name, in the
    /// fixed order `active`, `username`, `email`, `sign_in_count`.
    pub open spec fn spec_render(self) -> Seq<char> {
        "User {\n active: "@ + bool_text(self.active) + ",\n  username: "@ + self.username@
            + "\n  email: "@ + self.email@ + ",\n  sign_in_count: "@
            + dec_digits(self.sign_in_count as nat) + ",\n }"@
    }

    /// The pretty rendering mode is the same text as the plain one.
    pub open spec fn spec_render_pretty(self) -> Seq<char> {
        self.spec_render()
    }

    /// Renders the record in the plain mode.
    pub fn render(&self) -> (r: String)
        ensures
            r@ == self.spec_render(),
    {
        let mut r = String::new();
        r.append("User {\n active: ");
        if self.active {
            r.append("true");
        } else {
            r.append("false");
        }
        r.append(",\n  username: ");
        r.append(self.username.as_str());
        r.append("\n  email: ");
        r.append(self.email.as_str());
        r.append(",\n  sign_in_count: ");
        let digits = u64_digits(self.sign_in_count);
        let digits_str = chars_to_string(&digits);
        r.append(digits_str.as_str());
        r.append(",\n }");
        proof {
            assert(r@ =~= self.spec_render());
        }
        r
    }

    /// Renders the record in the pretty mode; the text is the same.
    pub fn render_pretty(&self) -> (r: String)
        ensures
            r@ == self.spec_render_pretty(),
    {
        self.render()
    }
}

/// Rendering is deterministic across the two modes: for any record, the
/// pretty rendering is byte-identical to the plain one.
pub proof fn lemma_render_modes_agree(u: User)
    ensures
        u.spec_render_pretty() == u.spec_render(),
{
}

} // verus!
