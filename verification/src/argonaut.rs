use vstd::prelude::*;

use crate::url_hash::opt_str_view;

verus! {

/// The JSON value type of `serde_json`, carried through unread.
#[verifier::external_type_specification]
#[verifier::external_body]
pub struct ExJsonValue(serde_json::Value);

/// The fields of one object of the argonaut file, as read from it: the
/// strings at `key`, `classId` and `superClassId` where they are strings,
/// and the whole object.
#[derive(Debug)]
pub struct ArgonautFields {
    pub key: Option<String>,
    pub class_id: Option<String>,
    pub super_class_id: Option<String>,
    pub data: serde_json::Value,
}

/// One entry of the argonaut file: a class (no class id) or an object (with
/// one), stored under its key together with the whole original object.
#[derive(Debug)]
pub struct ArgonautEntry {
    pub key: String,
    pub class_id: Option<String>,
    pub super_class_id: Option<String>,
    pub data: serde_json::Value,
}

/// The keys, class ids, superclass ids and JSON objects of the entries made
/// from `fields`: one for each object with a string key, in order.
pub open spec fn argonaut_entries_spec(fields: Seq<ArgonautFields>) -> Seq<
    (Seq<char>, Option<Seq<char>>, Option<Seq<char>>, serde_json::Value),
>
    decreases fields.len(),
{
    if fields.len() == 0 {
        Seq::empty()
    } else {
        let rest = argonaut_entries_spec(fields.drop_last());
        let f = fields.last();
        match f.key {
            Some(k) => rest.push(
                (
                    k@,
                    opt_str_view(f.class_id),
                    opt_str_view(f.super_class_id),
                    f.data,
                ),
            ),
            None => rest,
        }
    }
}

/// The key, class id, superclass id and JSON object of an entry.
pub open spec fn entry_ids(e: ArgonautEntry) -> (
    Seq<char>,
    Option<Seq<char>>,
    Option<Seq<char>>,
    serde_json::Value,
) {
    (e.key@, opt_str_view(e.class_id), opt_str_view(e.super_class_id), e.data)
}

/// The entries to store for the objects of the argonaut file: every object
/// with a string key becomes an entry (keeping its whole JSON), objects
/// without one are skipped. The number stored is the length of the result.
pub fn argonaut_entries(fields: Vec<ArgonautFields>) -> (entries: Vec<ArgonautEntry>)
    ensures
        entries@.map_values(|e: ArgonautEntry| entry_ids(e)) == argonaut_entries_spec(fields@),
{
    let ghost all = fields@;
    let mut remaining = fields;
    let mut entries: Vec<ArgonautEntry> = Vec::new();
    let ghost mut done: int = 0;
    assert(all.subrange(0, 0) =~= Seq::<ArgonautFields>::empty());
    assert(remaining@ =~= all.subrange(0, all.len() as int));
    while remaining.len() > 0
        invariant
            0 <= done <= all.len(),
            remaining@ == all.subrange(done, all.len() as int),
            entries@.map_values(|e: ArgonautEntry| entry_ids(e)) == argonaut_entries_spec(
                all.subrange(0, done),
            ),
        decreases remaining.len(),
    {
        let f = remaining.remove(0);
        let ghost next = all.subrange(0, done + 1);
        assert(next.drop_last() =~= all.subrange(0, done));
        assert(f == all[done]);
        let ghost before = entries@.map_values(|e: ArgonautEntry| entry_ids(e));
        match f.key {
            Some(key) => {
                let e = ArgonautEntry {
                    key,
                    class_id: f.class_id,
                    super_class_id: f.super_class_id,
                    data: f.data,
                };
                entries.push(e);
                assert(entries@.map_values(|e: ArgonautEntry| entry_ids(e)) =~= before.push(
                    entry_ids(e),
                ));
            },
            None => {},
        }
        proof {
            done = done + 1;
        }
        assert(remaining@ =~= all.subrange(done, all.len() as int));
    }
    assert(all.subrange(0, all.len() as int) =~= all);
    entries
}

/// Names what `serde_json::from_str` makes of `text` as a JSON value
/// (`None` when the text is not JSON).
pub uninterp spec fn json_parse(text: Seq<char>) -> Option<serde_json::Value>;

/// Names what `Value::as_array` gives for `v`: its elements when it is an
/// array.
pub uninterp spec fn json_as_array(v: serde_json::Value) -> Option<Seq<serde_json::Value>>;

/// Names what `Value::get` gives for `v` and a field name: the value of that
/// field when `v` is an object that has it.
pub uninterp spec fn json_get(v: serde_json::Value, field: Seq<char>) -> Option<serde_json::Value>;

/// Names what `Value::as_str` gives for `v`: its text when it is a string.
pub uninterp spec fn json_as_str(v: serde_json::Value) -> Option<Seq<char>>;

/// Calls `serde_json::from_str` on `text`. Claimed: the value it gives, or
/// that it fails, is [`json_parse`] of the text. The error message is left
/// unsaid.
#[verifier::external_body]
fn parse_json(text: &str) -> (res: Result<serde_json::Value, String>)
    ensures
        match res {
            Ok(v) => json_parse(text@) == Some(v),
            Err(_) => json_parse(text@) is None,
        },
{
    serde_json::from_str(text).map_err(|e| e.to_string())
}

/// Calls `Value::as_array` on `v` and copies the elements out. Claimed: they
/// are [`json_as_array`] of `v`.
#[verifier::external_body]
fn as_array(v: &serde_json::Value) -> (res: Option<Vec<serde_json::Value>>)
    ensures
        match res {
            Some(items) => json_as_array(*v) == Some(items@),
            None => json_as_array(*v) is None,
        },
{
    v.as_array().cloned()
}

/// Calls `Value::get` on `v` with `field` and copies the value out.
/// Claimed: it is [`json_get`] of `v` and the field name.
#[verifier::external_body]
fn get_field(v: &serde_json::Value, field: &str) -> (res: Option<serde_json::Value>)
    ensures
        res == json_get(*v, field@),
{
    v.get(field).cloned()
}

/// Calls `Value::as_str` on `v`. Claimed: the text is [`json_as_str`] of `v`.
#[verifier::external_body]
fn as_str(v: &serde_json::Value) -> (res: Option<String>)
    ensures
        opt_str_view(res) == json_as_str(*v),
{
    v.as_str().map(String::from)
}

/// The string at `field` of the object `v`, where there is one.
pub open spec fn json_str_at(v: serde_json::Value, field: Seq<char>) -> Option<Seq<char>> {
    match json_get(v, field) {
        Some(x) => json_as_str(x),
        None => None,
    }
}

/// The string at `field` of the object `v`, where there is one.
pub fn str_field(v: &serde_json::Value, field: &str) -> (res: Option<String>)
    ensures
        opt_str_view(res) == json_str_at(*v, field@),
{
    match get_field(v, field) {
        Some(x) => as_str(&x),
        None => None,
    }
}

/// What the library reads of one element of the argonaut array: the strings
/// at `key`, `classId` and `superClassId`, and the element itself.
pub open spec fn element_view(v: serde_json::Value) -> (
    Option<Seq<char>>,
    Option<Seq<char>>,
    Option<Seq<char>>,
    serde_json::Value,
) {
    (json_str_at(v, "key"@), json_str_at(v, "classId"@), json_str_at(v, "superClassId"@), v)
}

/// The fields of one element of the argonaut array, read by [`str_field`].
pub fn element_fields(v: serde_json::Value) -> (f: ArgonautFields)
    ensures
        fields_view(f) == element_view(v),
{
    let key = str_field(&v, "key");
    let class_id = str_field(&v, "classId");
    let super_class_id = str_field(&v, "superClassId");
    ArgonautFields { key, class_id, super_class_id, data: v }
}

/// The view of one object's fields: its key, class id and superclass id (each
/// present only where it is a string) and the object.
pub open spec fn fields_view(f: ArgonautFields) -> (
    Option<Seq<char>>,
    Option<Seq<char>>,
    Option<Seq<char>>,
    serde_json::Value,
) {
    (opt_str_view(f.key), opt_str_view(f.class_id), opt_str_view(f.super_class_id), f.data)
}

/// Of the objects read, those with a key, in order: key, class id,
/// superclass id and the object.
pub open spec fn keyed_selection(
    read: Seq<(Option<Seq<char>>, Option<Seq<char>>, Option<Seq<char>>, serde_json::Value)>,
) -> Seq<(Seq<char>, Option<Seq<char>>, Option<Seq<char>>, serde_json::Value)>
    decreases read.len(),
{
    if read.len() == 0 {
        Seq::empty()
    } else {
        let rest = keyed_selection(read.drop_last());
        let t = read.last();
        match t.0 {
            Some(k) => rest.push((k, t.1, t.2, t.3)),
            None => rest,
        }
    }
}

/// Why the argonaut text gave no entries.
#[derive(Debug)]
pub enum ArgonautReadError {
    /// The text is not JSON (with the parser's message).
    Parse(String),
    /// The root of the JSON is not an array.
    NotArray,
}

proof fn lemma_keyed_selection(fields: Seq<ArgonautFields>)
    ensures
        argonaut_entries_spec(fields) == keyed_selection(
            fields.map_values(|f: ArgonautFields| fields_view(f)),
        ),
    decreases fields.len(),
{
    let read = fields.map_values(|f: ArgonautFields| fields_view(f));
    if fields.len() == 0 {
        assert(read =~= Seq::empty());
    } else {
        lemma_keyed_selection(fields.drop_last());
        assert(read.drop_last() =~= fields.drop_last().map_values(
            |f: ArgonautFields| fields_view(f),
        ));
        assert(read.last() == fields_view(fields.last()));
    }
}

/// The entries of the argonaut file from its text: an error when the text is
/// not JSON or its root is not an array; otherwise one entry for each element
/// with a string `key`, in order, with its class id, superclass id and the
/// whole element.
pub fn argonaut_entries_from_text(text: &str) -> (res: Result<Vec<ArgonautEntry>, ArgonautReadError>)
    ensures
        match json_parse(text@) {
            None => res matches Err(ArgonautReadError::Parse(_)),
            Some(v) => match json_as_array(v) {
                None => res matches Err(ArgonautReadError::NotArray),
                Some(items) => res matches Ok(entries) && entries@.map_values(
                    |e: ArgonautEntry| entry_ids(e),
                ) == keyed_selection(items.map_values(|x: serde_json::Value| element_view(x))),
            },
        },
{
    let value = match parse_json(text) {
        Ok(v) => v,
        Err(msg) => return Err(ArgonautReadError::Parse(msg)),
    };
    let items = match as_array(&value) {
        Some(items) => items,
        None => return Err(ArgonautReadError::NotArray),
    };
    let ghost all = items@;
    let mut remaining = items;
    let mut fields: Vec<ArgonautFields> = Vec::new();
    let ghost mut done: int = 0;
    assert(remaining@ =~= all.subrange(0, all.len() as int));
    while remaining.len() > 0
        invariant
            0 <= done <= all.len(),
            remaining@ == all.subrange(done, all.len() as int),
            fields@.map_values(|f: ArgonautFields| fields_view(f)) == all.subrange(0, done).map_values(
                |x: serde_json::Value| element_view(x),
            ),
        decreases remaining.len(),
    {
        let v = remaining.remove(0);
        assert(v == all[done]);
        let ghost before = fields@.map_values(|f: ArgonautFields| fields_view(f));
        let f = element_fields(v);
        fields.push(f);
        assert(fields@.map_values(|f: ArgonautFields| fields_view(f)) =~= before.push(fields_view(f)));
        assert(all.subrange(0, done + 1).map_values(|x: serde_json::Value| element_view(x))
            =~= all.subrange(0, done).map_values(|x: serde_json::Value| element_view(x)).push(
            element_view(all[done]),
        ));
        proof {
            done = done + 1;
        }
        assert(remaining@ =~= all.subrange(done, all.len() as int));
    }
    assert(all.subrange(0, all.len() as int) =~= all);
    let ghost read = fields@;
    let entries = argonaut_entries(fields);
    proof {
        lemma_keyed_selection(read);
    }
    Ok(entries)
}

} // verus!
