//! JSON values, kept as text.

use crate::text;
use vstd::prelude::*;

verus! {

broadcast use vstd::string::group_string_axioms;

/// A JSON value, as its compact text.
///
/// Whoever makes a value answers for the text: it is not read again, so that the order of members
/// and the digits of numbers stay as they were written.
#[derive(Debug, Clone, PartialEq, Eq)]
pub struct JsonValue {
    /// The text.
    pub text: String,
}

impl View for JsonValue {
    type V = Seq<char>;

    open spec fn view(&self) -> Seq<char> {
        self.text@
    }
}

/// The text of a value that may be absent.
pub open spec fn opt_json(o: Option<JsonValue>) -> Option<Seq<char>> {
    match o {
        Some(v) => Some(v@),
        None => None,
    }
}

/// Whether the compact text of a value is that of an object.
pub open spec fn object_text(s: Seq<char>) -> bool {
    s.len() > 0 && s[0] == '{'
}

impl JsonValue {
    /// The value with this compact text, which is taken as it is.
    pub fn from_text(s: &str) -> (r: JsonValue)
        ensures
            r@ == s@,
    {
        JsonValue { text: s.to_owned() }
    }

    /// The object without members.
    pub fn empty_object() -> (r: JsonValue)
        ensures
            r@ == "{}"@,
            object_text(r@),
    {
        proof {
            reveal_strlit("{}");
        }
        JsonValue { text: "{}".to_owned() }
    }

    /// Whether the value is an object, which the first character of a compact text tells.
    pub fn is_object(&self) -> (r: bool)
        ensures
            r == object_text(self@),
    {
        let cs = text::chars_of(self.text.as_str());
        cs.len() > 0 && cs[0] == '{'
    }
}

/// The compact text of the JSON value that bytes encode, if they encode one.
pub uninterp spec fn json_text(bytes: Seq<u8>) -> Option<Seq<char>>;

/// `serde_json::from_slice`, which reads a JSON value, and the compact text that
/// `serde_json::Value` writes for it.
///
/// The result depends on the bytes alone. It is nothing where they are not one JSON value.
#[verifier::external_body]
pub(crate) fn parse_json(bytes: &[u8]) -> (r: Option<JsonValue>)
    ensures
        opt_json(r) == json_text(bytes@),
{
    serde_json::from_slice::<serde_json::Value>(bytes).ok().map(
        |value| JsonValue { text: value.to_string() },
    )
}

/// The text of an object begins with a brace, and no other text is that of an object.
pub proof fn law_objects_begin_with_a_brace(rest: Seq<char>, s: Seq<char>)
    ensures
        object_text(seq!['{'] + rest),
        object_text(s) ==> exists|rest: Seq<char>| s == #[trigger] (seq!['{'] + rest),
{
    if object_text(s) {
        assert(s =~= seq!['{'] + s.drop_first());
    }
}

/// A value is its text, and a value that is absent has none.
pub proof fn law_values_are_their_text(v: JsonValue)
    ensures
        v@ == v.text@,
        opt_json(Some(v)) == Some(v.text@),
        opt_json(None) is None,
{
}

} // verus!
