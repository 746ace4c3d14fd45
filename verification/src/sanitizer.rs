//! The tool-schema sanitizer.
//!
//! A tool's JSON Schema is adjusted by the first adapter that is for the
//! tool, then cleaned of what the upstream rejects, then adjusted by the
//! adapter once more.
//!
//! The universal cleanup keeps, at every schema level, only the keywords of
//! a fixed list; so `$defs`, `$ref` and every custom keyword go. A `oneOf`,
//! `anyOf` or `allOf` is lowered to a `type` that names the types of its
//! alternatives, where the schema has no `type` of its own. The cleanup goes
//! into the schemas under `properties` and `items`.

use crate::json::{
    field, fields_model, find_field, items_model, lookup, Fields, Json, JsonModel,
};
use crate::text::{contains_text, same_text, texts};
use crate::tool_adapter::ToolAdapter;
use vstd::prelude::*;

verus! {

/// The keywords that the cleanup keeps.
pub open spec fn is_kept(key: Seq<char>) -> bool {
    ||| key == "type"@
    ||| key == "format"@
    ||| key == "title"@
    ||| key == "description"@
    ||| key == "nullable"@
    ||| key == "enum"@
    ||| key == "properties"@
    ||| key == "required"@
    ||| key == "items"@
    ||| key == "minItems"@
    ||| key == "maxItems"@
    ||| key == "minimum"@
    ||| key == "maximum"@
    ||| key == "minLength"@
    ||| key == "maxLength"@
    ||| key == "pattern"@
    ||| key == "default"@
}

/// The fields whose key is kept, in order.
pub open spec fn kept_only(fields: Fields) -> Fields
    decreases fields.len(),
{
    if fields.len() == 0 {
        fields
    } else if is_kept(fields.last().0) {
        kept_only(fields.drop_last()).push(fields.last())
    } else {
        kept_only(fields.drop_last())
    }
}

/// The texts of `items` without those that an earlier one equals.
pub open spec fn unique(items: Seq<Seq<char>>) -> Seq<Seq<char>>
    decreases items.len(),
{
    if items.len() == 0 {
        items
    } else if unique(items.drop_last()).contains(items.last()) {
        unique(items.drop_last())
    } else {
        unique(items.drop_last()).push(items.last())
    }
}

/// The type that one alternative names: the `type` of an object, where that
/// is a string.
pub open spec fn named_type(alternative: JsonModel) -> Option<Seq<char>> {
    match alternative {
        JsonModel::Object(fields) => match field(fields, "type"@) {
            Some(JsonModel::Text(t)) => Some(t),
            _ => None,
        },
        _ => None,
    }
}

/// The types that the alternatives name, in order.
pub open spec fn named_types(alternatives: Seq<JsonModel>) -> Seq<Seq<char>>
    decreases alternatives.len(),
{
    if alternatives.len() == 0 {
        Seq::empty()
    } else {
        match named_type(alternatives.last()) {
            Some(t) => named_types(alternatives.drop_last()).push(t),
            None => named_types(alternatives.drop_last()),
        }
    }
}

/// The alternatives of a schema: the array under `anyOf`, else the one under
/// `oneOf`, else the one under `allOf`.
pub open spec fn alternatives(fields: Fields) -> Option<Seq<JsonModel>> {
    match field(fields, "anyOf"@) {
        Some(JsonModel::Array(a)) => Some(a),
        _ => match field(fields, "oneOf"@) {
            Some(JsonModel::Array(a)) => Some(a),
            _ => match field(fields, "allOf"@) {
                Some(JsonModel::Array(a)) => Some(a),
                _ => None,
            },
        },
    }
}

/// The `type` that stands for the alternatives of a schema: the one type
/// that they name, or the array of the distinct types where they name
/// several. `None` where there are no alternatives or they name no type.
pub open spec fn lowered(fields: Fields) -> Option<JsonModel> {
    match alternatives(fields) {
        Some(a) => {
            let types = unique(named_types(a));
            if types.len() == 0 {
                None
            } else if types.len() == 1 {
                Some(JsonModel::Text(types[0]))
            } else {
                Some(JsonModel::Array(Seq::new(types.len(), |i: int| JsonModel::Text(types[i]))))
            }
        },
        None => None,
    }
}

/// The kept fields of `fields`, with the lowered `type` at the end where
/// there is one and the schema has no `type` of its own.
pub open spec fn pruned(fields: Fields) -> Fields {
    let kept = kept_only(fields);
    match lowered(fields) {
        Some(t) => if field(kept, "type"@) is None {
            kept.push(("type"@, t))
        } else {
            kept
        },
        None => kept,
    }
}

/// The schema cleaned of what the upstream rejects: an object keeps its
/// pruned fields, after the cleanup went into them; an array has each entry
/// cleaned; any other value stays.
pub open spec fn clean(schema: JsonModel) -> JsonModel
    decreases schema, 0nat,
{
    match schema {
        JsonModel::Object(fields) => JsonModel::Object(pruned(clean_values(fields))),
        JsonModel::Array(items) => JsonModel::Array(clean_items(items)),
        _ => schema,
    }
}

/// The entries of a list of schemas, each cleaned.
pub open spec fn clean_items(items: Seq<JsonModel>) -> Seq<JsonModel>
    decreases items, 0nat,
{
    Seq::new(
        items.len(),
        |i: int|
            if 0 <= i < items.len() {
                clean(items[i])
            } else {
                JsonModel::Null
            },
    )
}

/// The fields of a schema with the cleanup gone into each value.
pub open spec fn clean_values(fields: Fields) -> Fields
    decreases fields, 0nat,
{
    Seq::new(
        fields.len(),
        |i: int|
            if 0 <= i < fields.len() {
                (fields[i].0, clean_value(fields[i].0, fields[i].1))
            } else {
                (Seq::empty(), JsonModel::Null)
            },
    )
}

/// The value of a schema's field after the cleanup went into it: the schema
/// under `items` and the schemas under `properties` are cleaned; any other
/// value stays.
pub open spec fn clean_value(key: Seq<char>, value: JsonModel) -> JsonModel
    decreases value, 1nat,
{
    if key == "items"@ {
        clean(value)
    } else if key == "properties"@ {
        match value {
            JsonModel::Object(props) => JsonModel::Object(clean_props(props)),
            _ => value,
        }
    } else {
        value
    }
}

/// The schemas of the properties, each cleaned.
pub open spec fn clean_props(props: Fields) -> Fields
    decreases props, 0nat,
{
    Seq::new(
        props.len(),
        |p: int|
            if 0 <= p < props.len() {
                (props[p].0, clean(props[p].1))
            } else {
                (Seq::empty(), JsonModel::Null)
            },
    )
}

/// The combinators are not kept, and `type` is neither `items` nor
/// `properties`.
pub proof fn lemma_keywords()
    ensures
        !is_kept("anyOf"@),
        !is_kept("oneOf"@),
        !is_kept("allOf"@),
        is_kept("type"@),
        "type"@ != "items"@,
        "type"@ != "properties"@,
        "anyOf"@ != "items"@ && "anyOf"@ != "properties"@,
        "oneOf"@ != "items"@ && "oneOf"@ != "properties"@,
        "allOf"@ != "items"@ && "allOf"@ != "properties"@,
{
    reveal_strlit("type");
    reveal_strlit("format");
    reveal_strlit("title");
    reveal_strlit("description");
    reveal_strlit("nullable");
    reveal_strlit("enum");
    reveal_strlit("properties");
    reveal_strlit("required");
    reveal_strlit("items");
    reveal_strlit("minItems");
    reveal_strlit("maxItems");
    reveal_strlit("minimum");
    reveal_strlit("maximum");
    reveal_strlit("minLength");
    reveal_strlit("maxLength");
    reveal_strlit("pattern");
    reveal_strlit("default");
    reveal_strlit("anyOf");
    reveal_strlit("oneOf");
    reveal_strlit("allOf");
    assert("type"@.len() == 4 && "properties"@.len() == 10 && "items"@.len() == 5);
    assert("anyOf"@.len() == 5 && "oneOf"@.len() == 5 && "allOf"@.len() == 5);
    assert("anyOf"@[0] != "title"@[0] && "anyOf"@[0] != "items"@[0]);
    assert("oneOf"@[0] != "title"@[0] && "oneOf"@[0] != "items"@[0]);
    assert("allOf"@[0] != "title"@[0] && "allOf"@[0] != "items"@[0]);
}

/// What is kept has a kept key and was among the fields.
pub proof fn lemma_kept_members(fields: Fields)
    ensures
        kept_only(fields).len() <= fields.len(),
        forall|k: int|
            0 <= k < kept_only(fields).len() ==> is_kept((#[trigger] kept_only(fields)[k]).0)
                && fields.contains(kept_only(fields)[k]),
    decreases fields.len(),
{
    if fields.len() > 0 {
        let head = fields.drop_last();
        lemma_kept_members(head);
        let got = kept_only(fields);
        assert forall|k: int| 0 <= k < got.len() implies is_kept((#[trigger] got[k]).0)
            && fields.contains(got[k]) by {
            if k < kept_only(head).len() {
                let e = kept_only(head)[k];
                assert(head.contains(e));
                let j = choose|j: int| 0 <= j < head.len() && head[j] == e;
                assert(fields[j] == e);
            } else {
                assert(fields[fields.len() - 1] == got[k]);
            }
        }
    }
}

/// Fields whose keys are all kept are kept as they are.
pub proof fn lemma_kept_all(fields: Fields)
    requires
        forall|i: int| 0 <= i < fields.len() ==> is_kept((#[trigger] fields[i]).0),
    ensures
        kept_only(fields) == fields,
    decreases fields.len(),
{
    if fields.len() > 0 {
        let head = fields.drop_last();
        assert forall|i: int| 0 <= i < head.len() implies is_kept((#[trigger] head[i]).0) by {
            assert(head[i] == fields[i]);
        }
        lemma_kept_all(head);
        assert(fields.last() == fields[fields.len() - 1]);
        assert(head.push(fields.last()) =~= fields);
    }
}

/// Fields whose keys are all kept have no alternatives to lower.
pub proof fn lemma_nothing_to_lower(fields: Fields)
    requires
        forall|i: int| 0 <= i < fields.len() ==> is_kept((#[trigger] fields[i]).0),
    ensures
        lowered(fields) is None,
        pruned(fields) == fields,
{
    lemma_keywords();
    crate::json::lemma_position(fields, "anyOf"@, fields.len() as int);
    crate::json::lemma_position(fields, "oneOf"@, fields.len() as int);
    crate::json::lemma_position(fields, "allOf"@, fields.len() as int);
    lemma_kept_all(fields);
}

/// Going into the values leaves the alternatives as they are.
pub proof fn lemma_lowered_of_values(fields: Fields)
    ensures
        lowered(clean_values(fields)) == lowered(fields),
{
    lemma_keywords();
    let m = clean_values(fields);
    crate::json::lemma_position_by_keys(m, fields, "anyOf"@);
    crate::json::lemma_position_by_keys(m, fields, "oneOf"@);
    crate::json::lemma_position_by_keys(m, fields, "allOf"@);
    crate::json::lemma_position_found(fields, "anyOf"@);
    crate::json::lemma_position_found(fields, "oneOf"@);
    crate::json::lemma_position_found(fields, "allOf"@);
}

/// Cleaning a clean schema changes nothing.
pub proof fn lemma_clean_idempotent(schema: JsonModel)
    ensures
        clean(clean(schema)) == clean(schema),
    decreases schema, 0nat,
{
    match schema {
        JsonModel::Object(fields) => {
            let m = clean_values(fields);
            let r = pruned(m);
            lemma_keywords();
            lemma_kept_members(m);
            // every key of `r` is kept, and every value of `r` is settled
            assert forall|i: int| 0 <= i < r.len() implies is_kept((#[trigger] r[i]).0)
                && clean_value(r[i].0, r[i].1) == r[i].1 by {
                if i < kept_only(m).len() {
                    let e = kept_only(m)[i];
                    assert(r[i] == e);
                    assert(m.contains(e));
                    let j = choose|j: int| 0 <= j < m.len() && m[j] == e;
                    assert(decreases_to!(fields => fields[j]));
                    assert(decreases_to!(fields[j] => fields[j].1));
                    lemma_clean_value_idempotent(fields[j].0, fields[j].1);
                }
            }
            assert(clean_values(r) =~= r);
            lemma_nothing_to_lower(r);
        },
        JsonModel::Array(items) => {
            let c = clean_items(items);
            assert forall|i: int| 0 <= i < c.len() implies clean(#[trigger] c[i]) == c[i] by {
                assert(decreases_to!(items => items[i]));
                lemma_clean_idempotent(items[i]);
            }
            assert(clean_items(c) =~= c);
        },
        _ => {},
    }
}

/// Going into a value that the cleanup went into before changes nothing.
pub proof fn lemma_clean_value_idempotent(key: Seq<char>, value: JsonModel)
    ensures
        clean_value(key, clean_value(key, value)) == clean_value(key, value),
    decreases value, 1nat,
{
    if key == "items"@ {
        lemma_clean_idempotent(value);
    } else if key == "properties"@ {
        match value {
            JsonModel::Object(props) => {
                let c = clean_props(props);
                assert forall|p: int| 0 <= p < c.len() implies clean((#[trigger] c[p]).1)
                    == c[p].1 by {
                    assert(decreases_to!(props => props[p]));
                    assert(decreases_to!(props[p] => props[p].1));
                    lemma_clean_idempotent(props[p].1);
                }
                assert(clean_props(c) =~= c);
            },
            _ => {},
        }
    }
}

fn keeps(key: &str) -> (r: bool)
    ensures
        r == is_kept(key@),
{
    same_text(key, "type") || same_text(key, "format") || same_text(key, "title") || same_text(
        key,
        "description",
    ) || same_text(key, "nullable") || same_text(key, "enum") || same_text(key, "properties")
        || same_text(key, "required") || same_text(key, "items") || same_text(key, "minItems")
        || same_text(key, "maxItems") || same_text(key, "minimum") || same_text(key, "maximum")
        || same_text(key, "minLength") || same_text(key, "maxLength") || same_text(key, "pattern")
        || same_text(key, "default")
}

fn types_of(alternatives: &Vec<Json>) -> (types: Vec<String>)
    ensures
        texts(types@) == unique(named_types(items_model(alternatives@))),
{
    let mut types: Vec<String> = Vec::new();
    let ghost all = items_model(alternatives@);
    let mut i: usize = 0;
    proof {
        assert(all.take(0) =~= Seq::<JsonModel>::empty());
        assert(texts(types@) =~= Seq::<Seq<char>>::empty());
    }
    while i < alternatives.len()
        invariant
            i <= alternatives.len(),
            all == items_model(alternatives@),
            texts(types@) == unique(named_types(all.take(i as int))),
        decreases alternatives.len() - i,
    {
        proof {
            let next = all.take(i + 1);
            assert(next.drop_last() =~= all.take(i as int));
            assert(next.last() == alternatives@[i as int]@);
        }
        let ghost before = texts(types@);
        let named = match alternatives[i].get("type") {
            Some(t) => t.as_text(),
            None => None,
        };
        match named {
            Some(t) => {
                proof {
                    let sofar = named_types(all.take(i as int));
                    assert(sofar.push(t@).drop_last() =~= sofar);
                }
                if !contains_text(&types, t) {
                    types.push(String::from_str(t));
                    assert(texts(types@) =~= before.push(t@));
                }
            },
            None => {},
        }
        i += 1;
    }
    proof {
        assert(all.take(all.len() as int) =~= all);
    }
    types
}

fn alternatives_of(fields: &Vec<(String, Json)>) -> (r: Option<&Vec<Json>>)
    ensures
        match r {
            Some(a) => alternatives(fields_model(fields@)) == Some(items_model(a@)),
            None => alternatives(fields_model(fields@)) is None,
        },
{
    match lookup(fields, "anyOf") {
        Some(Json::Array(a)) => Some(a),
        _ => match lookup(fields, "oneOf") {
            Some(Json::Array(a)) => Some(a),
            _ => match lookup(fields, "allOf") {
                Some(Json::Array(a)) => Some(a),
                _ => None,
            },
        },
    }
}

fn lowered_type(fields: &Vec<(String, Json)>) -> (r: Option<Json>)
    ensures
        match r {
            Some(t) => lowered(fields_model(fields@)) == Some(t@),
            None => lowered(fields_model(fields@)) is None,
        },
{
    match alternatives_of(fields) {
        Some(a) => {
            let types = types_of(a);
            if types.len() == 0 {
                None
            } else if types.len() == 1 {
                Some(Json::Text(types[0].clone()))
            } else {
                let mut items: Vec<Json> = Vec::new();
                let mut i: usize = 0;
                while i < types.len()
                    invariant
                        i <= types.len(),
                        items@.len() == i,
                        forall|k: int|
                            0 <= k < i ==> (#[trigger] items@[k])@ == JsonModel::Text(
                                texts(types@)[k],
                            ),
                    decreases types.len() - i,
                {
                    items.push(Json::Text(types[i].clone()));
                    i += 1;
                }
                assert(items_model(items@) =~= Seq::new(
                    texts(types@).len(),
                    |i: int| JsonModel::Text(texts(types@)[i]),
                ));
                Some(Json::Array(items))
            }
        },
        None => None,
    }
}

/// The schema cleaned of what the upstream rejects.
pub fn cleaned(schema: &Json) -> (r: Json)
    ensures
        r@ == clean(schema@),
    decreases schema, 0nat,
{
    match schema {
        Json::Object(fields) => {
            let ghost model = fields_model(fields@);
            let ghost mapped = clean_values(model);
            let mut kept: Vec<(String, Json)> = Vec::new();
            let mut i: usize = 0;
            proof {
                assert(mapped.take(0) =~= Seq::<(Seq<char>, JsonModel)>::empty());
                assert(fields_model(kept@) =~= Seq::<(Seq<char>, JsonModel)>::empty());
            }
            while i < fields.len()
                invariant
                    i <= fields.len(),
                    *schema == Json::Object(*fields),
                    model == fields_model(fields@),
                    mapped == clean_values(model),
                    fields_model(kept@) == kept_only(mapped.take(i as int)),
                decreases fields.len() - i,
            {
                proof {
                    let next = mapped.take(i + 1);
                    assert(next.drop_last() =~= mapped.take(i as int));
                    assert(next.last() == mapped[i as int]);
                    assert(mapped[i as int].0 == fields@[i as int].0@);
                }
                let ghost before = fields_model(kept@);
                if keeps(fields[i].0.as_str()) {
                    assert(schema->Object_0 == *fields);
                    assert(decreases_to!(*fields => fields[i as int]));
                    assert(decreases_to!(fields[i as int] => fields[i as int].1));
                    let value = clean_entry(fields[i].0.as_str(), &fields[i].1);
                    kept.push((fields[i].0.clone(), value));
                    assert(fields_model(kept@) =~= before.push(mapped[i as int]));
                }
                i += 1;
            }
            proof {
                assert(mapped.take(mapped.len() as int) =~= mapped);
                lemma_lowered_of_values(model);
            }
            match lowered_type(fields) {
                Some(t) => {
                    let ghost before = fields_model(kept@);
                    if find_field(&kept, "type") == kept.len() {
                        kept.push((String::from_str("type"), t));
                        assert(fields_model(kept@) =~= before.push(("type"@, t@)));
                    }
                },
                None => {},
            }
            Json::Object(kept)
        },
        Json::Array(items) => {
            let mut out: Vec<Json> = Vec::new();
            let mut i: usize = 0;
            while i < items.len()
                invariant
                    i <= items.len(),
                    *schema == Json::Array(*items),
                    out@.len() == i,
                    forall|k: int| 0 <= k < i ==> (#[trigger] out@[k])@ == clean(items@[k]@),
                decreases items.len() - i,
            {
                assert(schema->Array_0 == *items);
                assert(decreases_to!(*items => items[i as int]));
                out.push(cleaned(&items[i]));
                i += 1;
            }
            assert(items_model(out@) =~= clean_items(items_model(items@)));
            Json::Array(out)
        },
        _ => schema.duplicate(),
    }
}

fn clean_entry(key: &str, value: &Json) -> (r: Json)
    ensures
        r@ == clean_value(key@, value@),
    decreases value, 1nat,
{
    if same_text(key, "items") {
        cleaned(value)
    } else if same_text(key, "properties") {
        match value {
            Json::Object(props) => {
                let mut out: Vec<(String, Json)> = Vec::new();
                let mut p: usize = 0;
                while p < props.len()
                    invariant
                        p <= props.len(),
                        *value == Json::Object(*props),
                        out@.len() == p,
                        forall|k: int|
                            0 <= k < p ==> (#[trigger] out@[k]).0@ == props@[k].0@ && out@[k].1@
                                == clean(props@[k].1@),
                    decreases props.len() - p,
                {
                    assert(value->Object_0 == *props);
                    assert(decreases_to!(*props => props[p as int]));
                    assert(decreases_to!(props[p as int] => props[p as int].1));
                    out.push((props[p].0.clone(), cleaned(&props[p].1)));
                    p += 1;
                }
                assert(fields_model(out@) =~= clean_props(fields_model(props@)));
                Json::Object(out)
            },
            _ => value.duplicate(),
        }
    } else {
        value.duplicate()
    }
}

/// The index of the first adapter that is for `tool_name`, or the number of
/// adapters where none is.
pub open spec fn first_adapter<A: ToolAdapter>(adapters: Seq<A>, tool_name: Seq<char>) -> int
    decreases adapters.len(),
{
    if adapters.len() == 0 {
        0
    } else if adapters[0].accepts(tool_name) {
        0
    } else {
        1 + first_adapter(adapters.drop_first(), tool_name)
    }
}

/// `first_adapter` is the index of the first adapter that accepts.
pub proof fn lemma_first_adapter<A: ToolAdapter>(adapters: Seq<A>, tool_name: Seq<char>, at: int)
    requires
        0 <= at <= adapters.len(),
        forall|j: int| 0 <= j < at ==> !(#[trigger] adapters[j]).accepts(tool_name),
        at < adapters.len() ==> adapters[at].accepts(tool_name),
    ensures
        first_adapter(adapters, tool_name) == at,
    decreases adapters.len(),
{
    if adapters.len() > 0 && at > 0 {
        let rest = adapters.drop_first();
        assert forall|j: int| 0 <= j < at - 1 implies !(#[trigger] rest[j]).accepts(tool_name) by {
            assert(rest[j] == adapters[j + 1]);
        }
        lemma_first_adapter(rest, tool_name, at - 1);
    }
}

/// What `adapter` and the cleanup make of a schema: the adapter's
/// preprocessing, the cleanup, the adapter's postprocessing. `None` where
/// the adapter fails.
pub open spec fn adapted<A: ToolAdapter>(adapter: A, schema: JsonModel) -> Option<JsonModel> {
    match adapter.pre_model(schema) {
        Some(pre) => adapter.post_model(clean(pre)),
        None => None,
    }
}

/// What the sanitizer makes of the schema of the tool `tool_name`: what the
/// first adapter for the tool and the cleanup make of it, or the cleanup
/// alone where no adapter is for the tool.
pub open spec fn sanitized<A: ToolAdapter>(
    adapters: Seq<A>,
    tool_name: Seq<char>,
    schema: JsonModel,
) -> Option<JsonModel> {
    let at = first_adapter(adapters, tool_name);
    if at < adapters.len() {
        adapted(adapters[at], schema)
    } else {
        Some(clean(schema))
    }
}

/// The adapters in the order in which they were registered, and the
/// cleanup.
pub struct SchemaSanitizer<A: ToolAdapter> {
    adapters: Vec<A>,
}

impl<A: ToolAdapter> View for SchemaSanitizer<A> {
    type V = Seq<A>;

    /// The adapters, in the order of their registration.
    closed spec fn view(&self) -> Seq<A> {
        self.adapters@
    }
}

impl<A: ToolAdapter> SchemaSanitizer<A> {
    /// A sanitizer without adapters.
    pub fn new() -> (s: SchemaSanitizer<A>)
        ensures
            s@ == Seq::<A>::empty(),
    {
        SchemaSanitizer { adapters: Vec::new() }
    }

    /// Registers `adapter` after those registered before.
    pub fn register(&mut self, adapter: A)
        ensures
            final(self)@ == old(self)@.push(adapter),
    {
        self.adapters.push(adapter);
    }

    /// The number of adapters.
    pub fn len(&self) -> (n: usize)
        ensures
            n == self@.len(),
    {
        self.adapters.len()
    }

    /// Sanitizes the schema of the tool `tool_name` in place.
    ///
    /// Where the adapter fails, its message is returned and the schema is
    /// left as the adapter left it.
    pub fn sanitize(&self, tool_name: &str, schema: &mut Json) -> (r: Result<(), String>)
        ensures
            match sanitized(self@, tool_name@, old(schema)@) {
                Some(after) => r is Ok && final(schema)@ == after,
                None => r is Err,
            },
    {
        let mut i: usize = 0;
        while i < self.adapters.len()
            invariant
                i <= self.adapters.len(),
                forall|j: int| 0 <= j < i ==> !(#[trigger] self@[j]).accepts(tool_name@),
                *schema == *old(schema),
            decreases self.adapters.len() - i,
        {
            if self.adapters[i].matches(tool_name) {
                proof {
                    lemma_first_adapter(self@, tool_name@, i as int);
                }
                match self.adapters[i].pre_process(schema) {
                    Ok(()) => {},
                    Err(e) => {
                        return Err(e);
                    },
                }
                let c = cleaned(schema);
                *schema = c;
                return self.adapters[i].post_process(schema);
            }
            i += 1;
        }
        proof {
            lemma_first_adapter(self@, tool_name@, i as int);
        }
        let c = cleaned(schema);
        *schema = c;
        Ok(())
    }
}

/// Sanitizing twice is sanitizing once, where no adapter is for the tool.
pub proof fn lemma_sanitize_idempotent_without_adapter<A: ToolAdapter>(
    adapters: Seq<A>,
    tool_name: Seq<char>,
    schema: JsonModel,
)
    requires
        first_adapter(adapters, tool_name) >= adapters.len(),
    ensures
        sanitized(adapters, tool_name, schema) matches Some(once) && sanitized(
            adapters,
            tool_name,
            once,
        ) == Some(once),
{
    lemma_clean_idempotent(schema);
}

/// Sanitizing twice is sanitizing once, for an adapter that does no
/// postprocessing and whose preprocessing leaves alone what was sanitized.
pub proof fn lemma_sanitize_idempotent<A: ToolAdapter>(adapter: A, schema: JsonModel)
    requires
        forall|x: JsonModel| #[trigger] adapter.post_model(x) == Some(x),
        adapter.pre_model(schema) matches Some(pre) && adapter.pre_model(clean(pre)) == Some(
            clean(pre),
        ),
    ensures
        adapted(adapter, schema) matches Some(once) && adapted(adapter, once) == Some(once),
{
    lemma_clean_idempotent(adapter.pre_model(schema)->0);
}

/// Among the kept fields, the first of a kept name is the first of that
/// name among all the fields.
pub proof fn lemma_kept_field(fields: Fields, key: Seq<char>)
    requires
        is_kept(key),
    ensures
        field(kept_only(fields), key) == field(fields, key),
    decreases fields.len(),
{
    use_position(fields, key);
    use_position(kept_only(fields), key);
    if fields.len() > 0 {
        let head = fields.drop_last();
        let last = fields.last();
        lemma_kept_field(head, key);
        use_position(head, key);
        use_position(kept_only(head), key);
        let at = crate::json::position(head, key);
        // the first of the name among all the fields
        if at < head.len() {
            assert(fields[at] == head[at]);
            assert forall|j: int| 0 <= j < at implies (#[trigger] fields[j]).0 != key by {
                assert(fields[j] == head[j]);
            }
            crate::json::lemma_position(fields, key, at);
        } else {
            assert forall|j: int| 0 <= j < head.len() implies (#[trigger] fields[j]).0 != key by {
                assert(fields[j] == head[j]);
            }
            if last.0 == key {
                crate::json::lemma_position(fields, key, head.len() as int);
            } else {
                crate::json::lemma_position(fields, key, fields.len() as int);
            }
        }
        // the first of the name among the kept fields
        let kh = kept_only(head);
        let kat = crate::json::position(kh, key);
        if is_kept(last.0) {
            let k = kh.push(last);
            if kat < kh.len() {
                assert(k[kat] == kh[kat]);
                assert forall|j: int| 0 <= j < kat implies (#[trigger] k[j]).0 != key by {
                    assert(k[j] == kh[j]);
                }
                crate::json::lemma_position(k, key, kat);
            } else {
                assert forall|j: int| 0 <= j < kh.len() implies (#[trigger] k[j]).0 != key by {
                    assert(k[j] == kh[j]);
                }
                if last.0 == key {
                    crate::json::lemma_position(k, key, kh.len() as int);
                } else {
                    crate::json::lemma_position(k, key, k.len() as int);
                }
            }
        }
    }
}

proof fn use_position(fields: Fields, key: Seq<char>)
    ensures
        0 <= crate::json::position(fields, key) <= fields.len(),
        crate::json::position(fields, key) < fields.len() ==> fields[crate::json::position(
            fields,
            key,
        )].0 == key,
        forall|j: int|
            0 <= j < crate::json::position(fields, key) ==> (#[trigger] fields[j]).0 != key,
{
    crate::json::lemma_position_found(fields, key);
}

/// A field put at the end under another name leaves the first field of a
/// name where it was.
pub proof fn lemma_field_after_push(fields: Fields, key: Seq<char>, other: Seq<char>, value: JsonModel)
    requires
        other != key,
    ensures
        field(fields.push((other, value)), key) == field(fields, key),
{
    use_position(fields, key);
    let at = crate::json::position(fields, key);
    let pushed = fields.push((other, value));
    assert forall|j: int| 0 <= j < at implies (#[trigger] pushed[j]).0 != key by {
        assert(pushed[j] == fields[j]);
    }
    if at < fields.len() {
        assert(pushed[at] == fields[at]);
        crate::json::lemma_position(pushed, key, at);
    } else {
        crate::json::lemma_position(pushed, key, pushed.len() as int);
    }
}

/// The first field of a kept name in a cleaned object is the one of the
/// object, with the cleanup gone into its value.
pub proof fn lemma_cleaned_field(fields: Fields, key: Seq<char>)
    requires
        is_kept(key),
        key != "type"@,
    ensures
        field(pruned(clean_values(fields)), key) == match field(fields, key) {
            Some(v) => Some(clean_value(key, v)),
            None => None,
        },
{
    let m = clean_values(fields);
    crate::json::lemma_position_by_keys(m, fields, key);
    use_position(fields, key);
    lemma_kept_field(m, key);
    match lowered(m) {
        Some(t) => {
            lemma_field_after_push(kept_only(m), key, "type"@, t);
        },
        None => {},
    }
}

} // verus!
