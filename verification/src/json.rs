//! The JSON values the cache file is made of, and their rendering.
//!
//! The library holds a parsed document as a [`Json`] value of its own and
//! renders the documents it saves itself; reading raw text into a [`Json`]
//! value is the caller's concern.

use vstd::prelude::*;

use crate::text::str_chars;

verus! {

/// One key/value pair of a JSON object. Pairs are kept in document order;
/// lookups take the first pair of a key.
pub struct JsonField {
    pub key: String,
    pub value: Json,
}

/// A JSON document value. A number is kept as its raw literal text: the cache
/// schema itself has no numeric fields.
pub enum Json {
    Null,
    Bool(bool),
    Str(String),
    Num(String),
    Arr(Vec<Json>),
    Obj(Vec<JsonField>),
}

/// Mathematical model of a [`Json`] value.
#[verifier::ext_equal]
pub enum JsonModel {
    Null,
    Bool(bool),
    Str(Seq<char>),
    Num(Seq<char>),
    Arr(Seq<JsonModel>),
    Obj(Seq<(Seq<char>, JsonModel)>),
}

pub open spec fn json_model(j: Json) -> JsonModel
    decreases j,
{
    match j {
        Json::Null => JsonModel::Null,
        Json::Bool(b) => JsonModel::Bool(b),
        Json::Str(s) => JsonModel::Str(s@),
        Json::Num(s) => JsonModel::Num(s@),
        Json::Arr(items) => JsonModel::Arr(json_models(items@)),
        Json::Obj(fields) => JsonModel::Obj(json_field_models(fields@)),
    }
}

pub open spec fn json_models(items: Seq<Json>) -> Seq<JsonModel>
    decreases items,
{
    if items.len() == 0 {
        Seq::empty()
    } else {
        json_models(items.drop_last()).push(json_model(items.last()))
    }
}

pub open spec fn json_field_models(fields: Seq<JsonField>) -> Seq<(Seq<char>, JsonModel)>
    decreases fields,
{
    if fields.len() == 0 {
        Seq::empty()
    } else {
        json_field_models(fields.drop_last()).push(
            (fields.last().key@, json_model(fields.last().value)),
        )
    }
}

pub proof fn lemma_json_models_len(items: Seq<Json>)
    ensures
        json_models(items).len() == items.len(),
        forall|i: int| 0 <= i < items.len() ==> json_models(items)[i] == json_model(items[i]),
    decreases items,
{
    if items.len() > 0 {
        lemma_json_models_len(items.drop_last());
    }
}

pub proof fn lemma_json_field_models_len(fields: Seq<JsonField>)
    ensures
        json_field_models(fields).len() == fields.len(),
        forall|i: int|
            0 <= i < fields.len() ==> json_field_models(fields)[i] == (
                fields[i].key@,
                json_model(fields[i].value),
            ),
    decreases fields,
{
    if fields.len() > 0 {
        lemma_json_field_models_len(fields.drop_last());
    }
}

impl DeepView for Json {
    type V = JsonModel;

    open spec fn deep_view(&self) -> JsonModel {
        json_model(*self)
    }
}

/// How one character is written inside a JSON string literal.
pub open spec fn esc_char(c: char) -> Seq<char> {
    if c == '"' {
        seq!['\\', '"']
    } else if c == '\\' {
        seq!['\\', '\\']
    } else if c == '\n' {
        seq!['\\', 'n']
    } else if c == '\r' {
        seq!['\\', 'r']
    } else if c == '\t' {
        seq!['\\', 't']
    } else {
        seq![c]
    }
}

pub open spec fn print_str_body(s: Seq<char>) -> Seq<char>
    decreases s.len(),
{
    if s.len() == 0 {
        Seq::empty()
    } else {
        print_str_body(s.drop_last()) + esc_char(s.last())
    }
}

/// A string as a quoted, escaped JSON literal.
pub open spec fn print_string(s: Seq<char>) -> Seq<char> {
    seq!['"'] + print_str_body(s) + seq!['"']
}

/// The compact rendering of a JSON value: no whitespace between tokens.
pub open spec fn print_json(j: JsonModel) -> Seq<char>
    decreases j,
{
    match j {
        JsonModel::Null => seq!['n', 'u', 'l', 'l'],
        JsonModel::Bool(b) => if b {
            seq!['t', 'r', 'u', 'e']
        } else {
            seq!['f', 'a', 'l', 's', 'e']
        },
        JsonModel::Str(s) => print_string(s),
        JsonModel::Num(s) => s,
        JsonModel::Arr(items) => seq!['['] + print_items(items) + seq![']'],
        JsonModel::Obj(fields) => seq!['{'] + print_obj_fields(fields) + seq!['}'],
    }
}

pub open spec fn print_items(items: Seq<JsonModel>) -> Seq<char>
    decreases items,
{
    if items.len() == 0 {
        Seq::empty()
    } else if items.len() == 1 {
        print_json(items[0])
    } else {
        print_items(items.drop_last()) + seq![','] + print_json(items.last())
    }
}

pub open spec fn print_obj_fields(fields: Seq<(Seq<char>, JsonModel)>) -> Seq<char>
    decreases fields,
{
    if fields.len() == 0 {
        Seq::empty()
    } else if fields.len() == 1 {
        print_string(fields[0].0) + seq![':'] + print_json(fields[0].1)
    } else {
        print_obj_fields(fields.drop_last()) + seq![','] + print_string(fields.last().0)
            + seq![':'] + print_json(fields.last().1)
    }
}

/// Appends a string's quoted, escaped JSON literal.
fn write_string(s: &String, out: &mut Vec<char>)
    ensures
        final(out)@ == old(out)@ + print_string(s@),
{
    out.push('"');
    let cs = str_chars(s.as_str());
    let n = cs.len();
    let mut i: usize = 0;
    while i < n
        invariant
            i <= n == cs@.len(),
            cs@ == s@,
            out@ =~= old(out)@ + seq!['"'] + print_str_body(s@.take(i as int)),
        decreases n - i,
    {
        let c = cs[i];
        proof {
            assert(s@.take(i as int + 1).drop_last() =~= s@.take(i as int));
            assert(s@.take(i as int + 1).last() == s@[i as int]);
        }
        if c == '"' {
            out.push('\\');
            out.push('"');
        } else if c == '\\' {
            out.push('\\');
            out.push('\\');
        } else if c == '\n' {
            out.push('\\');
            out.push('n');
        } else if c == '\r' {
            out.push('\\');
            out.push('r');
        } else if c == '\t' {
            out.push('\\');
            out.push('t');
        } else {
            out.push(c);
        }
        i = i + 1;
    }
    proof {
        assert(s@.take(n as int) =~= s@);
    }
    out.push('"');
}

/// Appends a value's compact rendering.
fn write_json(j: &Json, out: &mut Vec<char>)
    ensures
        final(out)@ == old(out)@ + print_json(json_model(*j)),
    decreases *j,
{
    match j {
        Json::Null => {
            out.push('n');
            out.push('u');
            out.push('l');
            out.push('l');
            assert(out@ =~= old(out)@ + print_json(json_model(*j)));
        },
        Json::Bool(b) => {
            if *b {
                out.push('t');
                out.push('r');
                out.push('u');
                out.push('e');
            } else {
                out.push('f');
                out.push('a');
                out.push('l');
                out.push('s');
                out.push('e');
            }
            assert(out@ =~= old(out)@ + print_json(json_model(*j)));
        },
        Json::Str(s) => {
            write_string(s, out);
        },
        Json::Num(s) => {
            let cs = str_chars(s.as_str());
            let n = cs.len();
            let mut i: usize = 0;
            while i < n
                invariant
                    i <= n == cs@.len(),
                    cs@ == s@,
                    out@ =~= old(out)@ + s@.take(i as int),
                decreases n - i,
            {
                out.push(cs[i]);
                i = i + 1;
            }
            proof {
                assert(s@.take(n as int) =~= s@);
            }
        },
        Json::Arr(items) => {
            out.push('[');
            let n = items.len();
            let ghost ms = json_models(items@);
            proof {
                lemma_json_models_len(items@);
            }
            let mut i: usize = 0;
            while i < n
                invariant
                    i <= n == items@.len(),
                    ms == json_models(items@),
                    ms.len() == n,
                    forall|k: int| 0 <= k < n ==> ms[k] == json_model(items@[k]),
                    out@ =~= old(out)@ + seq!['['] + print_items(ms.take(i as int)),
                    *j == Json::Arr(*items),
                decreases n - i,
            {
                if i > 0 {
                    out.push(',');
                }
                proof {
                    assert(ms.take(i as int + 1).drop_last() =~= ms.take(i as int));
                    assert(ms.take(i as int + 1).last() == ms[i as int]);
                    assert(*items == (*j)->Arr_0);
                    assert(decreases_to!(*j => (*j)->Arr_0));
                    assert(decreases_to!(*items => items@));
                    assert(decreases_to!(items@ => items@[i as int]));
                }
                write_json(&items[i], out);
                i = i + 1;
            }
            proof {
                assert(ms.take(n as int) =~= ms);
            }
            out.push(']');
            assert(out@ =~= old(out)@ + print_json(json_model(*j)));
        },
        Json::Obj(fields) => {
            out.push('{');
            let n = fields.len();
            let ghost ms = json_field_models(fields@);
            proof {
                lemma_json_field_models_len(fields@);
            }
            let mut i: usize = 0;
            while i < n
                invariant
                    i <= n == fields@.len(),
                    ms == json_field_models(fields@),
                    ms.len() == n,
                    forall|k: int|
                        0 <= k < n ==> ms[k] == (fields@[k].key@, json_model(fields@[k].value)),
                    out@ =~= old(out)@ + seq!['{'] + print_obj_fields(ms.take(i as int)),
                    *j == Json::Obj(*fields),
                decreases n - i,
            {
                if i > 0 {
                    out.push(',');
                }
                proof {
                    assert(ms.take(i as int + 1).drop_last() =~= ms.take(i as int));
                    assert(ms.take(i as int + 1).last() == ms[i as int]);
                }
                write_string(&fields[i].key, out);
                out.push(':');
                proof {
                    assert(*fields == (*j)->Obj_0);
                    assert(decreases_to!(*j => (*j)->Obj_0));
                    assert(decreases_to!(*fields => fields@));
                    assert(decreases_to!(fields@ => fields@[i as int]));
                    assert(decreases_to!(fields@[i as int] => fields@[i as int].value));
                }
                write_json(&fields[i].value, out);
                i = i + 1;
            }
            proof {
                assert(ms.take(n as int) =~= ms);
            }
            out.push('}');
            assert(out@ =~= old(out)@ + print_json(json_model(*j)));
        },
    }
}

/// The compact rendering of a value, as characters.
pub fn render_json(j: &Json) -> (out: Vec<char>)
    ensures
        out@ == print_json(json_model(*j)),
{
    let mut out: Vec<char> = Vec::new();
    write_json(j, &mut out);
    out
}

} // verus!
