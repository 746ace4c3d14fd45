//! Adapter for the schemas of the Pencil drawing tools.
//!
//! It annotates, under the schema's `properties`, the parameters that carry a
//! visual property and those that carry a file path.

use crate::json::{field, fields_model, find_field, position, with_field, Fields, Json, JsonModel};
use crate::sanitizer::{adapted, clean, clean_props, is_kept};
use crate::text::{
    contains, contains_ignoring_case, has_substring, has_substring_ignoring_case,
    lemma_held_after, lemma_held_in_any_case, lemma_lowered_concat, lowered_text, occurs_at,
    same_text, starts_with,
};
use crate::tool_adapter::ToolAdapter;
use vstd::prelude::*;

verus! {

/// The two kinds of parameter that the adapter annotates.
#[derive(Clone, Copy, Debug, PartialEq, Eq, Structural)]
pub enum Aspect {
    Visual,
    Path,
}

/// Prefix of the names of the Pencil tools.
pub open spec fn pencil_prefix() -> Seq<char> {
    "mcp__pencil__"@
}

/// The parameter names that carry a visual property.
pub open spec fn is_visual_key(key: Seq<char>) -> bool {
    ||| key == "cornerRadius"@
    ||| key == "strokeWidth"@
    ||| key == "opacity"@
    ||| key == "rotation"@
}

/// The parameter names that carry a file path.
pub open spec fn is_path_key(key: Seq<char>) -> bool {
    ||| has_substring(key, "path"@)
    ||| has_substring(key, "file"@)
    ||| has_substring(key, "File"@)
    ||| has_substring(key, "Path"@)
}

impl Aspect {
    /// Whether a parameter named `key` is of this kind.
    pub open spec fn covers(self, key: Seq<char>) -> bool {
        match self {
            Aspect::Visual => is_visual_key(key),
            Aspect::Path => is_path_key(key),
        }
    }

    /// The words that mark a description as already annotated.
    pub open spec fn marker(self) -> Seq<char> {
        match self {
            Aspect::Visual => "visual property"@,
            Aspect::Path => "absolute path"@,
        }
    }

    /// Whether a description is already annotated: it holds the marker,
    /// whatever the case of its letters. Every description that the adapter
    /// writes is one.
    pub open spec fn marked(self, description: Seq<char>) -> bool {
        has_substring_ignoring_case(description, self.marker())
    }

    /// What is appended to a description that lacks the marker.
    pub open spec fn suffix(self) -> Seq<char> {
        match self {
            Aspect::Visual => " (visual property for UI elements)"@,
            Aspect::Path => " (use absolute path, e.g., /path/to/file.pen)"@,
        }
    }

    /// The description given to a parameter that has none.
    pub open spec fn fallback(self) -> Seq<char> {
        match self {
            Aspect::Visual => "Visual property for UI elements"@,
            Aspect::Path => "File path (use absolute path)"@,
        }
    }

    /// The schema of one parameter of this kind, annotated.
    ///
    /// Only an object changes: a missing description becomes the fallback, a
    /// string description that is not marked gets the suffix, and any other
    /// description stays.
    pub open spec fn annotated(self, value: JsonModel) -> JsonModel {
        match value {
            JsonModel::Object(fields) => match field(fields, "description"@) {
                None => JsonModel::Object(
                    fields.push(("description"@, JsonModel::Text(self.fallback()))),
                ),
                Some(JsonModel::Text(s)) => if self.marked(s) {
                    value
                } else {
                    JsonModel::Object(
                        with_field(fields, "description"@, JsonModel::Text(s + self.suffix())),
                    )
                },
                Some(_) => value,
            },
            _ => value,
        }
    }

    /// The parameters with each one of this kind annotated.
    pub open spec fn annotated_all(self, props: Fields) -> Fields {
        Seq::new(
            props.len(),
            |i: int|
                if self.covers(props[i].0) {
                    (props[i].0, self.annotated(props[i].1))
                } else {
                    props[i]
                },
        )
    }

    /// The fields of a schema with the parameters of this kind annotated: the
    /// first field named `properties`, where it is an object, is rewritten.
    pub open spec fn applied(self, schema: Fields) -> Fields {
        match field(schema, "properties"@) {
            Some(JsonModel::Object(props)) => with_field(
                schema,
                "properties"@,
                JsonModel::Object(self.annotated_all(props)),
            ),
            _ => schema,
        }
    }

    fn covers_key(self, key: &str) -> (r: bool)
        ensures
            r == self.covers(key@),
    {
        match self {
            Aspect::Visual => same_text(key, "cornerRadius") || same_text(key, "strokeWidth")
                || same_text(key, "opacity") || same_text(key, "rotation"),
            Aspect::Path => contains(key, "path") || contains(key, "file") || contains(key, "File")
                || contains(key, "Path"),
        }
    }

    fn marker_text(self) -> (r: &'static str)
        ensures
            r@ == self.marker(),
    {
        match self {
            Aspect::Visual => "visual property",
            Aspect::Path => "absolute path",
        }
    }

    fn suffix_text(self) -> (r: &'static str)
        ensures
            r@ == self.suffix(),
    {
        match self {
            Aspect::Visual => " (visual property for UI elements)",
            Aspect::Path => " (use absolute path, e.g., /path/to/file.pen)",
        }
    }

    fn fallback_text(self) -> (r: &'static str)
        ensures
            r@ == self.fallback(),
    {
        match self {
            Aspect::Visual => "Visual property for UI elements",
            Aspect::Path => "File path (use absolute path)",
        }
    }

    /// Annotates the schema of one parameter.
    fn annotate(self, value: &mut Json)
        ensures
            final(value)@ == self.annotated(old(value)@),
    {
        match value {
            Json::Object(fields) => {
                let ghost before = fields_model(fields@);
                let at = find_field(fields, "description");
                if at == fields.len() {
                    fields.push(
                        (String::from_str("description"), Json::text_of(self.fallback_text())),
                    );
                    assert(fields_model(fields@) =~= before.push(
                        ("description"@, JsonModel::Text(self.fallback())),
                    ));
                } else {
                    proof {
                        crate::json::lemma_position_found(before, "description"@);
                    }
                    match &mut fields[at].1 {
                        Json::Text(s) => {
                            if !contains_ignoring_case(s.as_str(), self.marker_text()) {
                                s.append(self.suffix_text());
                            }
                        },
                        _ => {},
                    }
                    proof {
                        let after = fields_model(fields@);
                        match before[at as int].1 {
                            JsonModel::Text(was) => {
                                if self.marked(was) {
                                    assert(after =~= before);
                                } else {
                                    assert(after =~= before.update(
                                        at as int,
                                        ("description"@, JsonModel::Text(was + self.suffix())),
                                    ));
                                }
                            },
                            _ => {
                                assert(after =~= before);
                            },
                        }
                    }
                }
            },
            _ => {},
        }
    }

    /// Annotates every parameter of this kind.
    fn annotate_all(self, props: &mut Vec<(String, Json)>)
        ensures
            fields_model(final(props)@) == self.annotated_all(fields_model(old(props)@)),
    {
        let ghost before = fields_model(props@);
        let mut i: usize = 0;
        while i < props.len()
            invariant
                i <= props.len(),
                props.len() == before.len(),
                forall|k: int|
                    0 <= k < i ==> (#[trigger] fields_model(props@)[k]) == self.annotated_all(
                        before,
                    )[k],
                forall|k: int|
                    i <= k < props.len() ==> (#[trigger] fields_model(props@)[k]) == before[k],
            decreases props.len() - i,
        {
            let ghost mid = fields_model(props@);
            if self.covers_key(props[i].0.as_str()) {
                self.annotate(&mut props[i].1);
            }
            proof {
                let now = fields_model(props@);
                assert(mid[i as int] == before[i as int]);
                assert(now[i as int].0 == mid[i as int].0);
                assert(now[i as int].1 == if self.covers(mid[i as int].0) {
                    self.annotated(mid[i as int].1)
                } else {
                    mid[i as int].1
                });
                assert(now[i as int] == self.annotated_all(before)[i as int]);
                assert forall|k: int| 0 <= k < i + 1 implies (#[trigger] now[k])
                    == self.annotated_all(before)[k] by {
                    if k < i {
                        assert(now[k] == mid[k]);
                    }
                }
                assert forall|k: int| i + 1 <= k < props.len() implies (#[trigger] now[k])
                    == before[k] by {
                    assert(now[k] == mid[k]);
                }
            }
            i += 1;
        }
        assert(fields_model(props@) =~= self.annotated_all(before));
    }

    /// Annotates the parameters of this kind under the schema's `properties`.
    fn apply(self, schema: &mut Vec<(String, Json)>)
        ensures
            fields_model(final(schema)@) == self.applied(fields_model(old(schema)@)),
    {
        let ghost before = fields_model(schema@);
        let at = find_field(schema, "properties");
        if at < schema.len() {
            proof {
                crate::json::lemma_position_found(before, "properties"@);
            }
            match &mut schema[at].1 {
                Json::Object(props) => {
                    self.annotate_all(props);
                },
                _ => {},
            }
            proof {
                let after = fields_model(schema@);
                match before[at as int].1 {
                    JsonModel::Object(props) => {
                        assert(after =~= before.update(
                            at as int,
                            ("properties"@, JsonModel::Object(self.annotated_all(props))),
                        ));
                    },
                    _ => {
                        assert(after =~= before);
                    },
                }
            }
        }
    }
}

/// What the Pencil adapter makes of a schema before the universal cleanup:
/// visual properties are annotated first, then path parameters.
pub open spec fn pencil_pre(schema: JsonModel) -> JsonModel {
    match schema {
        JsonModel::Object(fields) => JsonModel::Object(
            Aspect::Path.applied(Aspect::Visual.applied(fields)),
        ),
        _ => schema,
    }
}

/// The adapter for tools whose name begins with `mcp__pencil__`.
#[derive(Clone, Copy, Debug)]
pub struct PencilAdapter;

impl PencilAdapter {
    /// Annotates the parameters that carry a visual property.
    pub fn handle_visual_properties(&self, map: &mut Vec<(String, Json)>)
        ensures
            fields_model(final(map)@) == Aspect::Visual.applied(fields_model(old(map)@)),
    {
        Aspect::Visual.apply(map);
    }

    /// Annotates the parameters that carry a file path.
    pub fn optimize_path_parameters(&self, map: &mut Vec<(String, Json)>)
        ensures
            fields_model(final(map)@) == Aspect::Path.applied(fields_model(old(map)@)),
    {
        Aspect::Path.apply(map);
    }
}

impl ToolAdapter for PencilAdapter {
    open spec fn accepts(&self, tool_name: Seq<char>) -> bool {
        pencil_prefix().is_prefix_of(tool_name)
    }

    open spec fn pre_model(&self, schema: JsonModel) -> Option<JsonModel> {
        Some(pencil_pre(schema))
    }

    fn matches(&self, tool_name: &str) -> (r: bool) {
        starts_with(tool_name, "mcp__pencil__")
    }

    fn pre_process(&self, schema: &mut Json) -> (r: Result<(), String>) {
        match schema {
            Json::Object(map) => {
                self.handle_visual_properties(map);
                self.optimize_path_parameters(map);
            },
            _ => {},
        }
        Ok(())
    }

    fn post_process(&self, schema: &mut Json) -> (r: Result<(), String>) {
        Ok(())
    }
}

impl Aspect {
    /// A parameter's schema that the annotation leaves as it is: anything
    /// but an object, or an object whose description is a marked string or
    /// is no string at all.
    pub open spec fn settled(self, value: JsonModel) -> bool {
        match value {
            JsonModel::Object(fields) => match field(fields, "description"@) {
                Some(JsonModel::Text(s)) => self.marked(s),
                Some(_) => true,
                None => false,
            },
            _ => true,
        }
    }
}

/// Every parameter that the adapter looks at is settled.
pub open spec fn props_settled(props: Fields) -> bool {
    forall|i: int|
        0 <= i < props.len() ==> {
            let entry = #[trigger] props[i];
            &&& is_visual_key(entry.0) ==> Aspect::Visual.settled(entry.1)
            &&& is_path_key(entry.0) ==> Aspect::Path.settled(entry.1)
        }
}

/// A schema that the adapter leaves as it is.
pub open spec fn schema_settled(schema: JsonModel) -> bool {
    match schema {
        JsonModel::Object(fields) => match field(fields, "properties"@) {
            Some(JsonModel::Object(props)) => props_settled(props),
            _ => true,
        },
        _ => true,
    }
}

/// A text that begins none of its characters with the first of `needle`
/// does not hold `needle`.
proof fn lemma_lacks(key: Seq<char>, needle: Seq<char>)
    requires
        needle.len() > 0,
        forall|i: int| 0 <= i < key.len() ==> #[trigger] key[i] != needle[0],
    ensures
        !has_substring(key, needle),
{
    assert forall|at: int| !occurs_at(key, needle, at) by {
        if occurs_at(key, needle, at) {
            assert(key.subrange(at, at + needle.len())[0] == needle[0]);
            assert(key[at] == needle[0]);
        }
    }
}

/// No visual parameter name is a path parameter name.
pub proof fn lemma_kinds_apart(key: Seq<char>)
    requires
        is_visual_key(key),
    ensures
        !is_path_key(key),
{
    reveal_strlit("cornerRadius");
    reveal_strlit("strokeWidth");
    reveal_strlit("opacity");
    reveal_strlit("rotation");
    reveal_strlit("path");
    reveal_strlit("file");
    reveal_strlit("File");
    reveal_strlit("Path");
    let p = "path"@;
    let f = "file"@;
    let cf = "File"@;
    let cp = "Path"@;
    assert(p[0] == 'p' && f[0] == 'f' && cf[0] == 'F' && cp[0] == 'P');
    if key == "opacity"@ {
        assert forall|i: int| 0 <= i < key.len() implies #[trigger] key[i] != 'f' && key[i] != 'F'
            && key[i] != 'P' by {
            assert(i == 0 || i == 1 || i == 2 || i == 3 || i == 4 || i == 5 || i == 6);
        }
        lemma_lacks(key, f);
        lemma_lacks(key, cf);
        lemma_lacks(key, cp);
        assert forall|at: int| !occurs_at(key, p, at) by {
            if occurs_at(key, p, at) {
                let part = key.subrange(at, at + 4);
                assert(part[0] == 'p' && part[2] == 't');
                assert(key[at] == 'p' && key[at + 2] == 't');
                assert(at == 0 || at == 1 || at == 2 || at == 3);
            }
        }
    } else {
        assert forall|i: int| 0 <= i < key.len() implies #[trigger] key[i] != 'p' && key[i] != 'f'
            && key[i] != 'F' && key[i] != 'P' by {
            assert(i == 0 || i == 1 || i == 2 || i == 3 || i == 4 || i == 5 || i == 6 || i == 7
                || i == 8 || i == 9 || i == 10 || i == 11);
        }
        lemma_lacks(key, p);
        lemma_lacks(key, f);
        lemma_lacks(key, cf);
        lemma_lacks(key, cp);
    }
}

/// Every description that the adapter writes is marked: both fallbacks,
/// and every text that ends in a suffix.
pub proof fn lemma_markers(aspect: Aspect, before: Seq<char>)
    ensures
        aspect.marked(aspect.fallback()),
        aspect.marked(before + aspect.suffix()),
{
    reveal_strlit(" (visual property for UI elements)");
    reveal_strlit("visual property");
    reveal_strlit("Visual property for UI elements");
    reveal_strlit(" (use absolute path, e.g., /path/to/file.pen)");
    reveal_strlit("absolute path");
    reveal_strlit("File path (use absolute path)");
    let marker = aspect.marker();
    let suffix = aspect.suffix();
    let fallback = aspect.fallback();
    match aspect {
        Aspect::Visual => {
            assert(suffix.subrange(2, 17) =~= marker);
            assert(occurs_at(suffix, marker, 2));
            assert(lowered_text(fallback).subrange(0, 15) =~= lowered_text(marker));
            assert(occurs_at(lowered_text(fallback), lowered_text(marker), 0));
        },
        Aspect::Path => {
            assert(suffix.subrange(6, 19) =~= marker);
            assert(occurs_at(suffix, marker, 6));
            assert(fallback.subrange(15, 28) =~= marker);
            assert(occurs_at(fallback, marker, 15));
            lemma_held_in_any_case(fallback, marker);
        },
    }
    lemma_held_in_any_case(suffix, marker);
    lemma_lowered_concat(before, suffix);
    lemma_held_after(lowered_text(before), lowered_text(suffix), lowered_text(marker));
}

/// The names that the proofs tell apart.
proof fn lemma_names()
    ensures
        "description"@ != "items"@,
        "description"@ != "properties"@,
        "description"@ != "type"@,
        "properties"@ != "type"@,
        "properties"@ != "items"@,
        is_kept("description"@),
        is_kept("properties"@),
{
    reveal_strlit("description");
    reveal_strlit("items");
    reveal_strlit("properties");
    reveal_strlit("type");
    assert("description"@.len() == 11 && "items"@.len() == 5 && "properties"@.len() == 10
        && "type"@.len() == 4);
}

/// The first field of a name, once set, is what was set.
proof fn lemma_field_set(fields: Fields, key: Seq<char>, value: JsonModel)
    ensures
        field(with_field(fields, key, value), key) == Some(value),
        field(fields, key) is None ==> field(fields.push((key, value)), key) == Some(value),
{
    crate::json::lemma_position_found(fields, key);
    let at = position(fields, key);
    let set = with_field(fields, key, value);
    assert forall|j: int| 0 <= j < at implies (#[trigger] set[j]).0 != key by {
        assert(set[j] == fields[j]);
    }
    crate::json::lemma_position(set, key, at);
}

impl Aspect {
    /// The annotation settles a schema.
    pub proof fn lemma_annotated_settles(self, value: JsonModel)
        ensures
            self.settled(self.annotated(value)),
    {
        match value {
            JsonModel::Object(fields) => {
                match field(fields, "description"@) {
                    None => {
                        lemma_markers(self, Seq::empty());
                        lemma_field_set(
                            fields,
                            "description"@,
                            JsonModel::Text(self.fallback()),
                        );
                    },
                    Some(JsonModel::Text(s)) => {
                        if !self.marked(s) {
                            lemma_markers(self, s);
                            lemma_field_set(
                                fields,
                                "description"@,
                                JsonModel::Text(s + self.suffix()),
                            );
                        }
                    },
                    Some(_) => {},
                }
            },
            _ => {},
        }
    }

    /// Where every parameter of this kind is settled, the annotation leaves
    /// the schema's fields as they are.
    pub proof fn lemma_applied_stays(self, schema: Fields)
        requires
            field(schema, "properties"@) matches Some(JsonModel::Object(props)) ==> forall|
                i: int,
            |
                0 <= i < props.len() && self.covers((#[trigger] props[i]).0) ==> self.settled(
                    props[i].1,
                ),
        ensures
            self.applied(schema) == schema,
    {
        match field(schema, "properties"@) {
            Some(JsonModel::Object(props)) => {
                assert(self.annotated_all(props) =~= props);
                crate::json::lemma_position_found(schema, "properties"@);
                let at = position(schema, "properties"@);
                assert(schema.update(at, ("properties"@, JsonModel::Object(props))) =~= schema);
            },
            _ => {},
        }
    }
}

/// The adapter leaves a settled schema as it is.
pub proof fn lemma_pre_stays(schema: JsonModel)
    requires
        schema_settled(schema),
    ensures
        pencil_pre(schema) == schema,
{
    match schema {
        JsonModel::Object(fields) => {
            Aspect::Visual.lemma_applied_stays(fields);
            Aspect::Path.lemma_applied_stays(fields);
        },
        _ => {},
    }
}

/// One pass of the adapter settles a schema.
pub proof fn lemma_pre_settles(schema: JsonModel)
    ensures
        schema_settled(pencil_pre(schema)),
{
    match schema {
        JsonModel::Object(fields) => {
            match field(fields, "properties"@) {
                Some(JsonModel::Object(props)) => {
                    let props1 = Aspect::Visual.annotated_all(props);
                    let fields1 = Aspect::Visual.applied(fields);
                    lemma_field_set(fields, "properties"@, JsonModel::Object(props1));
                    let props2 = Aspect::Path.annotated_all(props1);
                    let fields2 = Aspect::Path.applied(fields1);
                    lemma_field_set(fields1, "properties"@, JsonModel::Object(props2));
                    assert forall|i: int| 0 <= i < props2.len() implies {
                        let entry = #[trigger] props2[i];
                        &&& is_visual_key(entry.0) ==> Aspect::Visual.settled(entry.1)
                        &&& is_path_key(entry.0) ==> Aspect::Path.settled(entry.1)
                    } by {
                        let key = props[i].0;
                        assert(props1[i].0 == key && props2[i].0 == key);
                        if is_visual_key(key) {
                            lemma_kinds_apart(key);
                            Aspect::Visual.lemma_annotated_settles(props[i].1);
                        }
                        if is_path_key(key) {
                            if is_visual_key(key) {
                                lemma_kinds_apart(key);
                            }
                            Aspect::Path.lemma_annotated_settles(props1[i].1);
                        }
                    }
                },
                _ => {},
            }
        },
        _ => {},
    }
}

/// The cleanup keeps a settled schema settled.
pub proof fn lemma_clean_keeps_settled(schema: JsonModel)
    requires
        schema_settled(schema),
    ensures
        schema_settled(clean(schema)),
{
    lemma_names();
    match schema {
        JsonModel::Object(fields) => {
            crate::sanitizer::lemma_cleaned_field(fields, "properties"@);
            match field(fields, "properties"@) {
                Some(JsonModel::Object(props)) => {
                    let after = clean_props(props);
                    assert forall|i: int| 0 <= i < after.len() implies {
                        let entry = #[trigger] after[i];
                        &&& is_visual_key(entry.0) ==> Aspect::Visual.settled(entry.1)
                        &&& is_path_key(entry.0) ==> Aspect::Path.settled(entry.1)
                    } by {
                        let before = props[i];
                        assert(after[i] == (before.0, clean(before.1)));
                        match before.1 {
                            JsonModel::Object(inner) => {
                                crate::sanitizer::lemma_cleaned_field(inner, "description"@);
                            },
                            _ => {},
                        }
                    }
                },
                _ => {},
            }
        },
        _ => {},
    }
}

/// A second pass of the adapter changes nothing.
pub proof fn lemma_pencil_pre_idempotent(schema: JsonModel)
    ensures
        pencil_pre(pencil_pre(schema)) == pencil_pre(schema),
{
    lemma_pre_settles(schema);
    lemma_pre_stays(pencil_pre(schema));
}

/// Sanitizing a Pencil tool's schema twice is sanitizing it once.
pub proof fn lemma_pencil_sanitize_idempotent(schema: JsonModel)
    ensures
        adapted(PencilAdapter, schema) matches Some(once) && adapted(PencilAdapter, once) == Some(
            once,
        ),
{
    let pre = pencil_pre(schema);
    lemma_pre_settles(schema);
    lemma_clean_keeps_settled(pre);
    lemma_pre_stays(clean(pre));
    crate::sanitizer::lemma_sanitize_idempotent(PencilAdapter, schema);
}

} // verus!
