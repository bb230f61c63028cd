//! A JSON value the library builds its replies in and reads the
//! endpoint's answers from. Objects are field lists in the order they
//! were written; a reader of the text sees them with their keys sorted.

use vstd::prelude::*;

verus! {

/// A JSON value. Numbers are the non-negative integers this library
/// reports (counts, caps, offsets, milliseconds).
#[derive(Debug, PartialEq)]
pub enum Json {
    Null,
    Bool(bool),
    Num(u64),
    Str(String),
    Arr(Vec<Json>),
    Obj(Vec<(String, Json)>),
}

/// The mathematical model of a [`Json`] value.
pub enum JsonV {
    Null,
    Bool(bool),
    Num(u64),
    Str(Seq<char>),
    Arr(Seq<JsonV>),
    Obj(Seq<(Seq<char>, JsonV)>),
}

pub open spec fn json_view(j: Json) -> JsonV
    decreases j,
{
    match j {
        Json::Null => JsonV::Null,
        Json::Bool(b) => JsonV::Bool(b),
        Json::Num(n) => JsonV::Num(n),
        Json::Str(s) => JsonV::Str(s@),
        Json::Arr(v) => JsonV::Arr(
            Seq::new(
                v@.len(),
                |i: int|
                    if 0 <= i < v@.len() {
                        json_view(v@[i])
                    } else {
                        JsonV::Null
                    },
            ),
        ),
        Json::Obj(v) => JsonV::Obj(
            Seq::new(
                v@.len(),
                |i: int|
                    if 0 <= i < v@.len() {
                        (v@[i].0@, json_view(v@[i].1))
                    } else {
                        (Seq::empty(), JsonV::Null)
                    },
            ),
        ),
    }
}

impl View for Json {
    type V = JsonV;

    open spec fn view(&self) -> JsonV {
        json_view(*self)
    }
}

} // verus!

verus! {

/// The value of the first field named `key` among `fields`.
pub open spec fn field_of(fields: Seq<(Seq<char>, JsonV)>, key: Seq<char>) -> Option<JsonV>
    decreases fields.len(),
{
    if fields.len() == 0 {
        None
    } else if fields[0].0 == key {
        Some(fields[0].1)
    } else {
        field_of(fields.drop_first(), key)
    }
}

/// `j[key]` for an object, `None` for anything else.
pub open spec fn get_spec(j: JsonV, key: Seq<char>) -> Option<JsonV> {
    match j {
        JsonV::Obj(fields) => field_of(fields, key),
        _ => None,
    }
}

/// The text of a string value.
pub open spec fn as_str_spec(j: Option<JsonV>) -> Option<Seq<char>> {
    match j {
        Some(JsonV::Str(s)) => Some(s),
        _ => None,
    }
}

proof fn lemma_field_of_index(fields: Seq<(Seq<char>, JsonV)>, key: Seq<char>, k: int)
    requires
        0 <= k <= fields.len(),
        forall|j: int| 0 <= j < k ==> fields[j].0 != key,
    ensures
        k == fields.len() ==> field_of(fields, key) is None,
        k < fields.len() && fields[k].0 == key ==> field_of(fields, key) == Some(fields[k].1),
    decreases fields.len(),
{
    if fields.len() > 0 && fields[0].0 != key && k > 0 {
        let t = fields.drop_first();
        assert forall|j: int| 0 <= j < k - 1 implies t[j].0 != key by {
            assert(t[j] == fields[j + 1]);
        }
        lemma_field_of_index(t, key, k - 1);
    }
}

/// `j[key]`: the first field of an object named `key`.
pub fn get<'a>(j: &'a Json, key: &str) -> (r: Option<&'a Json>)
    ensures
        r is None <==> get_spec(j@, key@) is None,
        r matches Some(x) ==> get_spec(j@, key@) == Some(x@),
{
    match j {
        Json::Obj(fields) => {
            let ghost fv = match j@ {
                JsonV::Obj(f) => f,
                _ => Seq::empty(),
            };
            assert(fv.len() == fields@.len());
            assert(forall|k: int| 0 <= k < fields@.len() ==> #[trigger] fv[k] == (fields@[k].0@, json_view(fields@[k].1)));
            let mut i: usize = 0;
            while i < fields.len()
                invariant
                    0 <= i <= fields@.len(),
                    j@ == JsonV::Obj(fv),
                    fv.len() == fields@.len(),
                    forall|k: int| 0 <= k < fields@.len() ==> #[trigger] fv[k] == (fields@[k].0@, json_view(fields@[k].1)),
                    forall|k: int| 0 <= k < i ==> fv[k].0 != key@,
                decreases fields@.len() - i,
            {
                if crate::text::str_eq(fields[i].0.as_str(), key) {
                    proof {
                        lemma_field_of_index(fv, key@, i as int);
                        assert(fv[i as int].0 == key@);
                    }
                    return Some(&fields[i].1);
                }
                i = i + 1;
            }
            proof {
                lemma_field_of_index(fv, key@, i as int);
            }
            None
        },
        _ => None,
    }
}

/// The text of a string value.
pub fn as_str<'a>(j: Option<&'a Json>) -> (r: Option<&'a str>)
    ensures
        r is None <==> as_str_spec(match j { Some(x) => Some(x@), None => None }) is None,
        r matches Some(s) ==> as_str_spec(match j { Some(x) => Some(x@), None => None }) == Some(s@),
{
    match j {
        Some(Json::Str(s)) => Some(s.as_str()),
        _ => None,
    }
}

} // verus!

verus! {

/// The model of an object's field list.
pub open spec fn fields_view(v: Seq<(String, Json)>) -> Seq<(Seq<char>, JsonV)> {
    Seq::new(v.len(), |i: int| (v[i].0@, json_view(v[i].1)))
}

/// The model of an array's items.
pub open spec fn items_view(v: Seq<Json>) -> Seq<JsonV> {
    Seq::new(v.len(), |i: int| json_view(v[i]))
}

pub proof fn lemma_obj_view(v: Vec<(String, Json)>)
    ensures
        json_view(Json::Obj(v)) == JsonV::Obj(fields_view(v@)),
{
    assert(fields_view(v@) =~= match json_view(Json::Obj(v)) {
        JsonV::Obj(f) => f,
        _ => Seq::empty(),
    });
}

pub proof fn lemma_arr_view(v: Vec<Json>)
    ensures
        json_view(Json::Arr(v)) == JsonV::Arr(items_view(v@)),
{
    assert(items_view(v@) =~= match json_view(Json::Arr(v)) {
        JsonV::Arr(f) => f,
        _ => Seq::empty(),
    });
}

/// An object built from its field list.
pub fn obj(fields: Vec<(String, Json)>) -> (j: Json)
    ensures
        j@ == JsonV::Obj(fields_view(fields@)),
{
    proof {
        lemma_obj_view(fields);
    }
    Json::Obj(fields)
}

/// An array built from its items.
pub fn arr(items: Vec<Json>) -> (j: Json)
    ensures
        j@ == JsonV::Arr(items_view(items@)),
{
    proof {
        lemma_arr_view(items);
    }
    Json::Arr(items)
}

/// Appends `key: value` to an object's field list.
pub fn push_field(fields: &mut Vec<(String, Json)>, key: &str, value: Json)
    ensures
        fields_view(final(fields)@) == fields_view(old(fields)@).push((key@, value@)),
{
    fields.push((String::from_str(key), value));
    assert(fields_view(fields@) =~= fields_view(old(fields)@).push((key@, value@)));
}

/// Appends an item to an array's items.
pub fn push_item(items: &mut Vec<Json>, value: Json)
    ensures
        items_view(final(items)@) == items_view(old(items)@).push(value@),
{
    items.push(value);
    assert(items_view(items@) =~= items_view(old(items)@).push(value@));
}

/// A string value.
pub fn jstr(s: &str) -> (j: Json)
    ensures
        j@ == JsonV::Str(s@),
{
    Json::Str(String::from_str(s))
}

/// A string value, or `null` when absent.
pub fn jopt(s: &Option<String>) -> (j: Json)
    ensures
        j@ == opt_view(match s { Some(x) => Some(x@), None => None }),
{
    match s {
        Some(x) => Json::Str(x.clone()),
        None => Json::Null,
    }
}

/// The model of an optional string value.
pub open spec fn opt_view(s: Option<Seq<char>>) -> JsonV {
    match s {
        Some(x) => JsonV::Str(x),
        None => JsonV::Null,
    }
}

/// The model of an optional list of strings.
pub open spec fn strs_view(v: Seq<Seq<char>>) -> JsonV {
    JsonV::Arr(v.map_values(|s: Seq<char>| JsonV::Str(s)))
}

/// An array of strings.
pub fn jstrs(v: &Vec<String>) -> (j: Json)
    ensures
        j@ == strs_view(crate::text::views(v@)),
{
    let mut items: Vec<Json> = Vec::new();
    let mut i: usize = 0;
    while i < v.len()
        invariant
            0 <= i <= v@.len(),
            items_view(items@) == crate::text::views(v@).take(i as int).map_values(|s: Seq<char>| JsonV::Str(s)),
        decreases v@.len() - i,
    {
        push_item(&mut items, Json::Str(v[i].clone()));
        i = i + 1;
        assert(items_view(items@) =~= crate::text::views(v@).take(i as int).map_values(|s: Seq<char>| JsonV::Str(s)));
    }
    assert(crate::text::views(v@).take(v@.len() as int) =~= crate::text::views(v@));
    arr(items)
}

} // verus!

verus! {

/// The string a node's field holds, when it holds one.
pub open spec fn str_field(node: JsonV, key: Seq<char>) -> Option<Seq<char>> {
    as_str_spec(get_spec(node, key))
}

/// `j[key]` as a string, when it is one.
pub fn get_str<'a>(j: &'a Json, key: &str) -> (r: Option<&'a str>)
    ensures
        r is None <==> str_field(j@, key@) is None,
        r matches Some(s) ==> str_field(j@, key@) == Some(s@),
{
    match get(j, key) {
        Some(Json::Str(s)) => Some(s.as_str()),
        _ => None,
    }
}

} // verus!

verus! {

// --- the length of the compact text of a value ------------------------------------

/// The bytes one character takes in a compact JSON string: the two-byte
/// escapes, `\u00XX` for the other control characters, UTF-8 otherwise.
pub open spec fn char_text_len(c: char) -> nat {
    if c == '"' || c == '\\' || c == '\u{8}' || c == '\t' || c == '\n' || c == '\u{c}' || c == '\r' {
        2
    } else if (c as u32) < 0x20 {
        6
    } else if (c as u32) < 0x80 {
        1
    } else if (c as u32) < 0x800 {
        2
    } else if (c as u32) < 0x10000 {
        3
    } else {
        4
    }
}

/// The bytes of the characters of a string, escaped.
pub open spec fn chars_text_len(s: Seq<char>) -> nat
    decreases s.len(),
{
    if s.len() == 0 {
        0
    } else {
        chars_text_len(s.drop_last()) + char_text_len(s.last())
    }
}

/// The bytes of a quoted string.
pub open spec fn str_text_len(s: Seq<char>) -> nat {
    2 + chars_text_len(s)
}

/// The commas between `n` items.
pub open spec fn commas(n: nat) -> nat {
    if n == 0 {
        0
    } else {
        (n - 1) as nat
    }
}

/// The bytes of the compact text of a value: what `serde_json::to_string`
/// writes for it, whatever order its object keys come in.
pub open spec fn text_len(j: JsonV) -> nat
    decreases j,
{
    match j {
        JsonV::Null => 4,
        JsonV::Bool(b) => if b {
            4
        } else {
            5
        },
        JsonV::Num(n) => crate::text::decimal(n as nat).len(),
        JsonV::Str(s) => str_text_len(s),
        JsonV::Arr(items) => 2 + items_text_len(items) + commas(items.len()),
        JsonV::Obj(fields) => 2 + fields_text_len(fields) + commas(fields.len()),
    }
}

/// The bytes of the items of an array, without the commas.
pub open spec fn items_text_len(items: Seq<JsonV>) -> nat
    decreases items,
{
    if items.len() == 0 {
        0
    } else {
        items_text_len(items.drop_last()) + text_len(items.last())
    }
}

/// The bytes of the `"key":value` pairs of an object, without the commas.
pub open spec fn fields_text_len(fields: Seq<(Seq<char>, JsonV)>) -> nat
    decreases fields,
{
    if fields.len() == 0 {
        0
    } else {
        fields_text_len(fields.drop_last()) + str_text_len(fields.last().0) + 1 + text_len(fields.last().1)
    }
}

/// `n`, or `u64::MAX` when it is larger.
pub open spec fn sat(n: nat) -> u64 {
    if n > u64::MAX {
        u64::MAX
    } else {
        n as u64
    }
}

fn sat_add(a: u64, b: u64) -> (r: u64)
    ensures
        r == (if a + b > u64::MAX { u64::MAX as int } else { a + b }),
{
    if a > u64::MAX - b {
        u64::MAX
    } else {
        a + b
    }
}

proof fn lemma_sat_add(x: nat, y: nat)
    ensures
        sat(x + y) == (if sat(x) + sat(y) > u64::MAX { u64::MAX as int } else { sat(x) + sat(y) }),
{
}

fn char_len(c: char) -> (n: u64)
    ensures
        n == char_text_len(c),
{
    if c == '"' || c == '\\' || c == '\u{8}' || c == '\t' || c == '\n' || c == '\u{c}' || c == '\r' {
        2
    } else if (c as u32) < 0x20 {
        6
    } else if (c as u32) < 0x80 {
        1
    } else if (c as u32) < 0x800 {
        2
    } else if (c as u32) < 0x10000 {
        3
    } else {
        4
    }
}

fn str_len(s: &str) -> (n: u64)
    ensures
        n == sat(str_text_len(s@)),
{
    let v = crate::text::chars_of(s);
    let mut n: u64 = 2;
    let mut i: usize = 0;
    while i < v.len()
        invariant
            0 <= i <= v@.len(),
            v@ == s@,
            n == sat(2 + chars_text_len(s@.take(i as int))),
        decreases v@.len() - i,
    {
        assert(s@.take(i + 1).drop_last() =~= s@.take(i as int));
        proof {
            lemma_sat_add(2 + chars_text_len(s@.take(i as int)), char_text_len(v@[i as int]));
        }
        n = sat_add(n, char_len(v[i]));
        i = i + 1;
    }
    assert(s@.take(v@.len() as int) =~= s@);
    n
}

/// The bytes of the compact text of a value, `u64::MAX` when it would take
/// more.
pub fn text_len_of(j: &Json) -> (n: u64)
    ensures
        n == sat(text_len(j@)),
    decreases j,
{
    match j {
        Json::Null => 4,
        Json::Bool(b) => if *b { 4 } else { 5 },
        Json::Num(x) => {
            let d = crate::text::fmt_u64(*x);
            d.unicode_len() as u64
        },
        Json::Str(s) => str_len(s.as_str()),
        Json::Arr(v) => {
            proof {
                lemma_arr_view(*v);
            }
            let ghost items = items_view(v@);
            let mut n: u64 = 2;
            let mut i: usize = 0;
            while i < v.len()
                invariant
                    0 <= i <= v@.len(),
                    items == items_view(v@),
                    *j == Json::Arr(*v),
                    n == sat(2 + items_text_len(items.take(i as int)) + commas(i as nat)),
                decreases v@.len() - i,
            {
                assert(items.take(i + 1).drop_last() =~= items.take(i as int));
                assert(items.take(i + 1).last() == v@[i as int]@);
                proof {
                    assert(decreases_to!(*j => (*j)->Arr_0));
                    assert(decreases_to!(*v => v@));
                    assert(decreases_to!(v@ => v@[i as int]));
                    assert(decreases_to!(*j => v@[i as int]));
                }
                let item_len = text_len_of(&v[i]);
                let sep: u64 = if i > 0 { 1 } else { 0 };
                proof {
                    lemma_sat_add(2 + items_text_len(items.take(i as int)) + commas(i as nat), sep as nat);
                    lemma_sat_add((2 + items_text_len(items.take(i as int)) + commas(i as nat) + sep) as nat, text_len(v@[i as int]@));
                }
                n = sat_add(sat_add(n, sep), item_len);
                i = i + 1;
            }
            assert(items.take(v@.len() as int) =~= items);
            n
        },
        Json::Obj(v) => {
            proof {
                lemma_obj_view(*v);
            }
            let ghost fields = fields_view(v@);
            let mut n: u64 = 2;
            let mut i: usize = 0;
            while i < v.len()
                invariant
                    0 <= i <= v@.len(),
                    fields == fields_view(v@),
                    *j == Json::Obj(*v),
                    n == sat(2 + fields_text_len(fields.take(i as int)) + commas(i as nat)),
                decreases v@.len() - i,
            {
                assert(fields.take(i + 1).drop_last() =~= fields.take(i as int));
                assert(fields.take(i + 1).last() == (v@[i as int].0@, v@[i as int].1@));
                let key_len = str_len(v[i].0.as_str());
                proof {
                    assert(decreases_to!(*j => (*j)->Obj_0));
                    assert(decreases_to!(*v => v@));
                    assert(decreases_to!(v@ => v@[i as int]));
                    assert(decreases_to!(v@[i as int] => v@[i as int].1));
                    assert(decreases_to!(*j => v@[i as int].1));
                }
                let value_len = text_len_of(&v[i].1);
                let sep: u64 = if i > 0 { 1 } else { 0 };
                let ghost before: nat = 2 + fields_text_len(fields.take(i as int)) + commas(i as nat);
                proof {
                    lemma_sat_add(before, sep as nat);
                    lemma_sat_add((before + sep) as nat, str_text_len(v@[i as int].0@));
                    lemma_sat_add((before + sep + str_text_len(v@[i as int].0@)) as nat, 1);
                    lemma_sat_add((before + sep + str_text_len(v@[i as int].0@) + 1) as nat, text_len(v@[i as int].1@));
                }
                n = sat_add(sat_add(sat_add(sat_add(n, sep), key_len), 1), value_len);
                i = i + 1;
            }
            assert(fields.take(v@.len() as int) =~= fields);
            n
        },
    }
}

} // verus!
