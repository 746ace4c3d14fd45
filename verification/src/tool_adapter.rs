//! Per-tool adapters that adjust a tool's JSON Schema before it is forwarded.

use crate::json::{field, fields_model, find_field, with_field, Json, JsonModel};
use crate::text::{contains, has_substring};
use vstd::prelude::*;

verus! {

/// A strategy for the schemas of one family of tools.
///
/// `pre_process` runs before the universal cleanup and `post_process` after
/// it. Both report a failure as a message. What each makes of a schema is
/// given by `pre_model` and `post_model`: `None` stands for a failure.
pub trait ToolAdapter {
    /// The tool names this adapter is for. Unless an adapter says
    /// otherwise, none.
    open spec fn accepts(&self, tool_name: Seq<char>) -> bool {
        false
    }

    /// The schema that `pre_process` leaves, or `None` where it fails.
    /// Unless an adapter says otherwise, the schema as it was.
    open spec fn pre_model(&self, schema: JsonModel) -> Option<JsonModel> {
        Some(schema)
    }

    /// The schema that `post_process` leaves, or `None` where it fails.
    /// Unless an adapter says otherwise, the schema as it was.
    open spec fn post_model(&self, schema: JsonModel) -> Option<JsonModel> {
        Some(schema)
    }

    /// Whether this adapter is for the tool named `tool_name`.
    fn matches(&self, tool_name: &str) -> (r: bool)
        ensures
            r == self.accepts(tool_name@),
    ;

    /// Adjusts `schema` before the universal cleanup.
    fn pre_process(&self, schema: &mut Json) -> (r: Result<(), String>)
        ensures
            match self.pre_model(old(schema)@) {
                Some(after) => r is Ok && final(schema)@ == after,
                None => r is Err,
            },
    ;

    /// Adjusts `schema` after the universal cleanup.
    fn post_process(&self, schema: &mut Json) -> (r: Result<(), String>)
        ensures
            match self.post_model(old(schema)@) {
                Some(after) => r is Ok && final(schema)@ == after,
                None => r is Err,
            },
    ;
}

/// The description that results from adding `hint` to the description `s`:
/// the hint alone when `s` is empty, `s` unchanged when it already holds the
/// hint, else `s`, a space and the hint.
pub open spec fn hinted_text(s: Seq<char>, hint: Seq<char>) -> Seq<char> {
    if s.len() == 0 {
        hint
    } else if has_substring(s, hint) {
        s
    } else {
        s + seq![' '] + hint
    }
}

/// The schema with `hint` added to its `description`.
///
/// Only an object changes. A missing description becomes the hint; a
/// description that is not a string is left alone.
pub open spec fn with_hint(schema: JsonModel, hint: Seq<char>) -> JsonModel {
    match schema {
        JsonModel::Object(fields) => match field(fields, "description"@) {
            None => JsonModel::Object(fields.push(("description"@, JsonModel::Text(hint)))),
            Some(JsonModel::Text(s)) => JsonModel::Object(
                with_field(fields, "description"@, JsonModel::Text(hinted_text(s, hint))),
            ),
            Some(_) => schema,
        },
        _ => schema,
    }
}

/// Adds `hint` to the `description` of `schema`.
pub fn append_hint_to_schema(schema: &mut Json, hint: &str)
    ensures
        final(schema)@ == with_hint(old(schema)@, hint@),
{
    match schema {
        Json::Object(fields) => {
            let ghost before = fields_model(fields@);
            let at = find_field(fields, "description");
            if at == fields.len() {
                fields.push((String::from_str("description"), Json::text_of(hint)));
                assert(fields_model(fields@) =~= before.push(
                    ("description"@, JsonModel::Text(hint@)),
                ));
            } else {
                let ghost key = fields@[at as int].0;
                proof {
                    crate::json::lemma_position_found(before, "description"@);
                    assert(before[at as int].0 == key@);
                }
                match &mut fields[at].1 {
                    Json::Text(s) => {
                        let ghost was = s@;
                        if s.as_str().unicode_len() == 0 {
                            *s = String::from_str(hint);
                        } else if !contains(s.as_str(), hint) {
                            s.append(" ");
                            s.append(hint);
                            proof {
                                reveal_strlit(" ");
                                assert(" "@ =~= seq![' ']);
                            }
                        }
                        assert(s@ == hinted_text(was, hint@));
                    },
                    _ => {},
                }
                proof {
                    let after = fields_model(fields@);
                    match before[at as int].1 {
                        JsonModel::Text(was) => {
                            assert(after =~= before.update(
                                at as int,
                                ("description"@, JsonModel::Text(hinted_text(was, hint@))),
                            ));
                        },
                        _ => {
                            assert(after =~= before);
                        },
                    }
                }
            }
        },
        _ => {},
    }
}

} // verus!
