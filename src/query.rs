use vstd::prelude::*;
use vstd::string::StringExecFns;

verus! {

/// The fixed query text; the identifier is bound to its single `?`.
pub const LOOKUP_TEMPLATE: &'static str = "SELECT * FROM users WHERE name = ?";

/// The characters of the fixed query text.
pub open spec fn lookup_template() -> Seq<char> {
    LOOKUP_TEMPLATE@
}

/// True when `needle` occurs as a contiguous run of characters in `hay`.
pub open spec fn occurs_in(needle: Seq<char>, hay: Seq<char>) -> bool {
    exists|i: int| 0 <= i && i + needle.len() <= hay.len()
        && #[trigger] hay.subrange(i, i + needle.len()) == needle
}

/// A lookup query: a fixed template and, carried apart from it, the
/// identifier to bind. No text is ever spliced into the template.
#[derive(Debug, PartialEq, Eq)]
pub struct LookupQuery {
    template: String,
    parameter: String,
}

impl LookupQuery {
    /// The query that looks a user up by `username`.
    pub(crate) fn new(username: &str) -> (r: LookupQuery)
        ensures
            r.template_text() == lookup_template(),
            r.parameter_text() == username@,
    {
        LookupQuery { template: String::from_str(LOOKUP_TEMPLATE), parameter: username.to_owned() }
    }

    /// The characters of the query text.
    pub closed spec fn template_text(&self) -> Seq<char> {
        self.template@
    }

    /// The characters of the bound identifier.
    pub closed spec fn parameter_text(&self) -> Seq<char> {
        self.parameter@
    }

    /// The query text, with a `?` where the identifier is bound.
    pub fn template(&self) -> (r: &str)
        ensures
            r@ == self.template_text(),
    {
        self.template.as_str()
    }

    /// The identifier bound to the template's placeholder.
    pub fn parameter(&self) -> (r: &str)
        ensures
            r@ == self.parameter_text(),
    {
        self.parameter.as_str()
    }
}

/// The template holds no single quote, so no identifier that holds one, as
/// an attempt to break out of a quoted literal must, can be found in it.
pub proof fn lemma_quoted_identifier_not_in_template(ident: Seq<char>)
    requires
        ident.contains('\''),
    ensures
        !occurs_in(ident, lookup_template()),
{
    reveal_strlit("SELECT * FROM users WHERE name = ?");
    let t = lookup_template();
    assert(forall|k: int| 0 <= k < t.len() ==> t[k] != '\'');
    let j = choose|j: int| 0 <= j < ident.len() && ident[j] == '\'';
    if occurs_in(ident, t) {
        let i = choose|i: int| 0 <= i && i + ident.len() <= t.len()
            && #[trigger] t.subrange(i, i + ident.len()) == ident;
        assert(t.subrange(i, i + ident.len())[j] == t[i + j]);
    }
}

} // verus!
