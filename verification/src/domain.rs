//! The cross-cutting rules of the eight tools as code: how a cell of an
//! answer is read (and when it is «not stated»), which label is served,
//! which arguments are refused before any request, the typed refusals,
//! the provenance every answer carries, and the queries the tools ask.
//! Nothing here reads a clock (the day is handed in), nothing builds an
//! unbound query, nothing computes across observations and nothing
//! constructs a dimension IRI.

use vstd::prelude::*;
use vstd::string::StringExecFns;
use vstd::string::StrSliceExecFns;

use crate::backend::{
    iri_safe, iri_safe_spec, normalise_value, normalised, Reply, Served,
};
use crate::json::{
    get, get_spec, get_str, jopt, str_field, jstr, obj, opt_view, push_field, fields_view,
    Json, JsonV,
};
use crate::scope::{is_served, served};
use crate::text::{contains_str, decimal, fmt_u64, has_infix, str_eq, views};
use crate::throttle::{busy_retry_after_ms, retry_spec};

verus! {

/// «Not stated», in the IRI form this holding writes.
pub const UNDEFINED: &'static str = "https://cube.link/Undefined";

/// The languages a label is looked for in, in order.
pub const LABEL_FALLBACK: [&'static str; 5] = ["de", "fr", "it", "en", "rm"];

/// Caps. Every list answer carries the original size.
pub const MAX_CUBES: usize = 100;
pub const MAX_HITS: usize = 50;
pub const MAX_DIMENSIONS: usize = 100;
pub const MAX_VALUES: usize = 200;
pub const MAX_OBSERVATIONS: usize = 200;
pub const MAX_STATEMENTS: usize = 400;
/// How many dimensions one call may project: every undeclared one costs
/// a bound `ASK` before the page is asked for.
pub const MAX_PROJECTED: usize = 24;
/// And how many filters one call may carry, for the same reason.
pub const MAX_FILTERS: usize = 24;
/// How many words a name search may carry: every word is one `CONTAINS`.
pub const MAX_QUERY_WORDS: usize = 12;

/// What every answer carries about where it came from: the day it was
/// asked (handed in, never read from a clock here) and the endpoint a
/// reader would send the same query to.
pub struct Ctx {
    pub today: String,
    pub endpoint: String,
}

// --- provenance -------------------------------------------------------

pub const SOURCE: &'static str = "lindas.admin.ch/query";
pub const LICENCE: &'static str = "not stated at the source";
pub const ACCESS: &'static str = "public (I14Y)";

/// The provenance block of an answer to `query`.
pub open spec fn provenance_spec(ctx: Ctx, reply: Reply, query: Seq<char>) -> JsonV {
    JsonV::Obj(provenance_fields(ctx, reply, query))
}

pub open spec fn provenance_fields(ctx: Ctx, reply: Reply, query: Seq<char>) -> Seq<(Seq<char>, JsonV)> {
    seq![
        ("source"@, JsonV::Str(SOURCE@)),
        ("served"@, JsonV::Str(reply.served.name())),
        ("retrieved_at"@, opt_view(opt_seq(reply.retrieved_at))),
        ("as_of"@, JsonV::Str(ctx.today@)),
        ("licence"@, JsonV::Str(LICENCE@)),
        ("access"@, JsonV::Str(ACCESS@)),
        ("endpoint"@, JsonV::Str(ctx.endpoint@)),
        ("query"@, JsonV::Str(query)),
    ]
}

/// The model of an optional string.
pub open spec fn opt_seq(o: Option<String>) -> Option<Seq<char>> {
    match o {
        Some(s) => Some(s@),
        None => None,
    }
}

/// The provenance block of every answer: with the endpoint and the
/// query, a reader runs one command and gets the same figures.
pub fn provenance(ctx: &Ctx, reply: &Reply, query: &str) -> (j: Json)
    ensures
        j@ == provenance_spec(*ctx, *reply, query@),
{
    let mut f: Vec<(String, Json)> = Vec::new();
    push_field(&mut f, "source", jstr(SOURCE));
    push_field(&mut f, "served", jstr(reply.served.as_str()));
    push_field(&mut f, "retrieved_at", jopt(&reply.retrieved_at));
    push_field(&mut f, "as_of", jstr(ctx.today.as_str()));
    push_field(&mut f, "licence", jstr(LICENCE));
    push_field(&mut f, "access", jstr(ACCESS));
    push_field(&mut f, "endpoint", jstr(ctx.endpoint.as_str()));
    push_field(&mut f, "query", jstr(query));
    assert(fields_view(f@) =~= provenance_fields(*ctx, *reply, query@));
    obj(f)
}

} // verus!

verus! {

// --- the typed refusals -----------------------------------------------

pub const NOT_FOUND_DIMENSION_DETAIL: &'static str = "the cube's observations do not carry this dimension — asked with a bound ASK before answering (P12); lindas.describe_cube lists what the shape declares and samples what an observation carries";
pub const CUBE_ACCEPTED: &'static str = "<a cube IRI of the served list, as lindas.list_cubes serves it>";
pub const CUBE_NOTE: &'static str = "lindas.list_cubes serves the 44 cubes of this scope with their names and states, and lindas.find_cube finds one by a word of its name. A cube IRI is never built by hand: the version is the last segment where there is one, and nothing links an old version to a new one. This refusal costs no request";
pub const FILTER_ACCEPTED: &'static str = "{dimension: <full IRI as describe_cube served it>, value: <IRI or plain literal>}";
pub const FILTER_NOTE: &'static str = "the dimension is the IRI lindas.describe_cube served under «dimensions», never a short name and never a prefixed name; the value is an IRI (matched exactly) or a plain literal (matched on its lexical form, so «1971-02-07» finds the date whichever of the three datatypes it carries). lindas.dimension_values lists the values one dimension takes. This refusal costs no request";
pub const PROJECTION_ACCEPTED: &'static str = "[<full IRI as describe_cube served it>, …] — bare dimension IRIs, at most 24";
pub const PROJECTION_NOTE: &'static str = "«dimensions» is the list of cells a row should come back with, not a filter: no values, no pairs. The IRIs are the ones lindas.describe_cube serves under «dimensions»; one the shape does not declare is admitted the same way a filter is, by a bound ASK, which is why the list is capped. This refusal costs no request";
pub const DIMENSION_ACCEPTED: &'static str = "<full IRI as describe_cube served it> — one dimension IRI, no value";
pub const DIMENSION_NOTE: &'static str = "lindas.describe_cube serves the dimension IRIs of a cube under «dimensions»; this tool answers the values ONE of them takes, so it takes the cube and that IRI and nothing else. This refusal costs no request";
pub const LANG_ACCEPTED: &'static str = "de | fr | it | en | rm";
pub const LANG_NOTE: &'static str = "the five languages this holding writes (C4.2, C4.3); an untagged label answers as «und». lindas.describe_cube serves a cube's names in the languages it has. This refusal costs no request";
pub const HTTP_406_DETAIL: &'static str = "the endpoint cannot serve this request in the serialisation asked for (HTTP 406) — a permanent answer about the request, not an outage";

/// `{"error": e, "detail": d}`.
pub open spec fn error_detail(e: Seq<char>, d: Seq<char>) -> JsonV {
    JsonV::Obj(seq![("error"@, JsonV::Str(e)), ("detail"@, JsonV::Str(d))])
}

/// A refusal that says what it would have accepted.
pub open spec fn shaped(detail: Seq<char>, accepted: Seq<char>, note: Seq<char>) -> JsonV {
    JsonV::Obj(seq![
        ("error"@, JsonV::Str("invalid-input"@)),
        ("detail"@, JsonV::Str(detail)),
        ("accepted"@, JsonV::Str(accepted)),
        ("note"@, JsonV::Str(note)),
    ])
}

/// `{"error": "not-found", "subject": subject}`.
pub fn not_found(subject: &str) -> (j: Json)
    ensures
        j@ == JsonV::Obj(seq![("error"@, JsonV::Str("not-found"@)), ("subject"@, JsonV::Str(subject@))]),
{
    let mut f: Vec<(String, Json)> = Vec::new();
    push_field(&mut f, "error", jstr("not-found"));
    push_field(&mut f, "subject", jstr(subject));
    assert(fields_view(f@) =~= seq![("error"@, JsonV::Str("not-found"@)), ("subject"@, JsonV::Str(subject@))]);
    obj(f)
}

pub open spec fn not_found_dimension_spec(cube: Seq<char>, dimension: Seq<char>) -> JsonV {
    JsonV::Obj(seq![
        ("error"@, JsonV::Str("not-found"@)),
        ("subject"@, JsonV::Obj(seq![("cube"@, JsonV::Str(cube)), ("dimension"@, JsonV::Str(dimension))])),
        ("detail"@, JsonV::Str(NOT_FOUND_DIMENSION_DETAIL@)),
    ])
}

/// The refusal for a dimension the cube's observations do not carry —
/// decided by a bound ASK.
pub fn not_found_dimension(cube: &str, dimension: &str) -> (j: Json)
    ensures
        j@ == not_found_dimension_spec(cube@, dimension@),
{
    let mut s: Vec<(String, Json)> = Vec::new();
    push_field(&mut s, "cube", jstr(cube));
    push_field(&mut s, "dimension", jstr(dimension));
    assert(fields_view(s@) =~= seq![("cube"@, JsonV::Str(cube@)), ("dimension"@, JsonV::Str(dimension@))]);
    let mut f: Vec<(String, Json)> = Vec::new();
    push_field(&mut f, "error", jstr("not-found"));
    push_field(&mut f, "subject", obj(s));
    push_field(&mut f, "detail", jstr(NOT_FOUND_DIMENSION_DETAIL));
    assert(fields_view(f@) =~= seq![
        ("error"@, JsonV::Str("not-found"@)),
        ("subject"@, JsonV::Obj(seq![("cube"@, JsonV::Str(cube@)), ("dimension"@, JsonV::Str(dimension@))])),
        ("detail"@, JsonV::Str(NOT_FOUND_DIMENSION_DETAIL@)),
    ]);
    obj(f)
}

/// `{"error": e, "detail": d}`.
fn error_with_detail(e: &str, d: &str) -> (j: Json)
    ensures
        j@ == error_detail(e@, d@),
{
    let mut f: Vec<(String, Json)> = Vec::new();
    push_field(&mut f, "error", jstr(e));
    push_field(&mut f, "detail", jstr(d));
    assert(fields_view(f@) =~= seq![("error"@, JsonV::Str(e@)), ("detail"@, JsonV::Str(d@))]);
    obj(f)
}

/// The plain `invalid-input` refusal.
pub fn invalid(detail: &str) -> (j: Json)
    ensures
        j@ == error_detail("invalid-input"@, detail@),
{
    error_with_detail("invalid-input", detail)
}

/// The `upstream-unavailable` refusal.
pub fn upstream(detail: &str) -> (j: Json)
    ensures
        j@ == error_detail("upstream-unavailable"@, detail@),
{
    error_with_detail("upstream-unavailable", detail)
}

/// The one shape of a refusal that says what it would have accepted.
pub fn refusal_with_shape(detail: &str, accepted: &str, note: &str) -> (j: Json)
    ensures
        j@ == shaped(detail@, accepted@, note@),
{
    let mut f: Vec<(String, Json)> = Vec::new();
    push_field(&mut f, "error", jstr("invalid-input"));
    push_field(&mut f, "detail", jstr(detail));
    push_field(&mut f, "accepted", jstr(accepted));
    push_field(&mut f, "note", jstr(note));
    assert(fields_view(f@) =~= seq![
        ("error"@, JsonV::Str("invalid-input"@)),
        ("detail"@, JsonV::Str(detail@)),
        ("accepted"@, JsonV::Str(accepted@)),
        ("note"@, JsonV::Str(note@)),
    ]);
    obj(f)
}

/// The refusal for a CUBE that is no served cube IRI.
pub fn invalid_cube(detail: &str) -> (j: Json)
    ensures
        j@ == shaped(detail@, CUBE_ACCEPTED@, CUBE_NOTE@),
{
    refusal_with_shape(detail, CUBE_ACCEPTED, CUBE_NOTE)
}

/// The refusal for a FILTER, with the shape a filter has.
pub fn invalid_dimension(detail: &str) -> (j: Json)
    ensures
        j@ == shaped(detail@, FILTER_ACCEPTED@, FILTER_NOTE@),
{
    refusal_with_shape(detail, FILTER_ACCEPTED, FILTER_NOTE)
}

/// The refusal for a PROJECTION — a list of bare dimension IRIs.
pub fn invalid_projection(detail: &str) -> (j: Json)
    ensures
        j@ == shaped(detail@, PROJECTION_ACCEPTED@, PROJECTION_NOTE@),
{
    refusal_with_shape(detail, PROJECTION_ACCEPTED, PROJECTION_NOTE)
}

/// The refusal for a DIMENSION named on its own.
pub fn invalid_dimension_name(detail: &str) -> (j: Json)
    ensures
        j@ == shaped(detail@, DIMENSION_ACCEPTED@, DIMENSION_NOTE@),
{
    refusal_with_shape(detail, DIMENSION_ACCEPTED, DIMENSION_NOTE)
}

/// The refusal for a LIST THAT IS TOO LONG: a cap rejects a NUMBER, and
/// the refusal says so and nothing else.
pub open spec fn too_many_spec(detail: Seq<char>, cap: nat, what: Seq<char>, why: Seq<char>, helper: Seq<char>) -> JsonV {
    JsonV::Obj(seq![
        ("error"@, JsonV::Str("invalid-input"@)),
        ("detail"@, JsonV::Str(detail + " and at most "@ + decimal(cap) + " may be"@)),
        ("accepted"@, JsonV::Str("at most "@ + decimal(cap) + " "@ + what
            + " in one call — a COUNT: this refusal is about how many were named and about nothing else"@)),
        ("note"@, JsonV::Str(why + ". "@ + helper
            + " serves what a shorter list should name. This refusal costs no request: a count is decidable before the store is asked anything"@)),
    ])
}

pub fn too_many(detail: &str, cap: usize, what: &str, why: &str, helper: &str) -> (j: Json)
    ensures
        j@ == too_many_spec(detail@, cap as nat, what@, why@, helper@),
{
    let n = fmt_u64(cap as u64);
    let mut d = String::from_str(detail);
    d.append(" and at most ");
    d.append(n.as_str());
    d.append(" may be");
    let mut a = String::from_str("at most ");
    a.append(n.as_str());
    a.append(" ");
    a.append(what);
    a.append(" in one call — a COUNT: this refusal is about how many were named and about nothing else");
    let mut note = String::from_str(why);
    note.append(". ");
    note.append(helper);
    note.append(" serves what a shorter list should name. This refusal costs no request: a count is decidable before the store is asked anything");
    let mut f: Vec<(String, Json)> = Vec::new();
    push_field(&mut f, "error", jstr("invalid-input"));
    push_field(&mut f, "detail", Json::Str(d));
    push_field(&mut f, "accepted", Json::Str(a));
    push_field(&mut f, "note", Json::Str(note));
    assert(fields_view(f@) =~= seq![
        ("error"@, JsonV::Str("invalid-input"@)),
        ("detail"@, JsonV::Str(detail@ + " and at most "@ + decimal(cap as nat) + " may be"@)),
        ("accepted"@, JsonV::Str("at most "@ + decimal(cap as nat) + " "@ + what@
            + " in one call — a COUNT: this refusal is about how many were named and about nothing else"@)),
        ("note"@, JsonV::Str(why@ + ". "@ + helper@
            + " serves what a shorter list should name. This refusal costs no request: a count is decidable before the store is asked anything"@)),
    ]);
    obj(f)
}

/// The door's fault text → this server's typed refusal. A 4xx is a
/// permanent answer ABOUT the request, the brake's refusal carries its
/// retry, everything else is an outage.
pub open spec fn backend_refusal_spec(text: Seq<char>) -> JsonV {
    match retry_spec(text) {
        Some(ms) => JsonV::Obj(seq![
            ("error"@, JsonV::Str("upstream-busy"@)),
            ("detail"@, JsonV::Str(text)),
            ("retry_after_ms"@, JsonV::Num(ms)),
        ]),
        None => if has_infix(text, "bad-request: HTTP 406"@) {
            error_detail("invalid-input"@, HTTP_406_DETAIL@)
        } else if has_infix(text, "bad-request: HTTP"@) {
            error_detail("invalid-input"@, "the endpoint refused the request: "@ + text)
        } else {
            error_detail("upstream-unavailable"@, text)
        },
    }
}

pub fn backend_refusal(text: &str) -> (j: Json)
    ensures
        j@ == backend_refusal_spec(text@),
{
    if let Some(ms) = busy_retry_after_ms(text) {
        let mut f: Vec<(String, Json)> = Vec::new();
        push_field(&mut f, "error", jstr("upstream-busy"));
        push_field(&mut f, "detail", jstr(text));
        push_field(&mut f, "retry_after_ms", Json::Num(ms));
        assert(fields_view(f@) =~= seq![
            ("error"@, JsonV::Str("upstream-busy"@)),
            ("detail"@, JsonV::Str(text@)),
            ("retry_after_ms"@, JsonV::Num(ms)),
        ]);
        return obj(f);
    }
    if contains_str(text, "bad-request: HTTP 406") {
        return invalid(HTTP_406_DETAIL);
    }
    if contains_str(text, "bad-request: HTTP") {
        let mut d = String::from_str("the endpoint refused the request: ");
        d.append(text);
        return invalid(d.as_str());
    }
    upstream(text)
}

} // verus!

verus! {

// --- reading a SPARQL answer ------------------------------------------

/// One cell of an answer: what it is, and whether it is STATED at all.
#[derive(Debug)]
pub struct Cell {
    pub value: Option<String>,
    pub stated: bool,
    /// `iri` | `literal`, and for a not-stated cell WHICH of the two forms
    /// the holding used — the difference is carried, not interpreted.
    pub form: &'static str,
    pub datatype: Option<String>,
    pub lang: Option<String>,
}

/// The model of a [`Cell`].
pub struct CellV {
    pub value: Option<Seq<char>>,
    pub stated: bool,
    pub form: Seq<char>,
    pub datatype: Option<Seq<char>>,
    pub lang: Option<Seq<char>>,
}

impl View for Cell {
    type V = CellV;

    open spec fn view(&self) -> CellV {
        CellV {
            value: opt_seq(self.value),
            stated: self.stated,
            form: self.form@,
            datatype: opt_seq(self.datatype),
            lang: opt_seq(self.lang),
        }
    }
}

fn clone_opt(o: &Option<String>) -> (r: Option<String>)
    ensures
        opt_seq(r) == opt_seq(*o),
{
    match o {
        Some(s) => Some(s.clone()),
        None => None,
    }
}

impl Cell {
    /// An equal copy.
    pub fn copy(&self) -> (c: Cell)
        ensures
            c@ == self@,
    {
        Cell {
            value: clone_opt(&self.value),
            stated: self.stated,
            form: self.form,
            datatype: clone_opt(&self.datatype),
            lang: clone_opt(&self.lang),
        }
    }
}

/// The kind of a node (`uri`, `literal`, …); `literal` when unnamed.
pub open spec fn node_kind(node: JsonV) -> Seq<char> {
    match str_field(node, "type"@) {
        Some(k) => k,
        None => "literal"@,
    }
}

/// The lexical form of a node; empty when it has none.
pub open spec fn node_raw(node: JsonV) -> Seq<char> {
    match str_field(node, "value"@) {
        Some(v) => v,
        None => Seq::empty(),
    }
}

/// The language tag of a node, when it has a non-empty one.
pub open spec fn node_lang(node: JsonV) -> Option<Seq<char>> {
    match str_field(node, "xml:lang"@) {
        Some(l) => if l.len() > 0 {
            Some(l)
        } else {
            None
        },
        None => None,
    }
}

/// The cell a node of this kind, lexical form, datatype and tag is.
pub open spec fn cell_from(kind: Seq<char>, raw: Seq<char>, datatype: Option<Seq<char>>, lang: Option<Seq<char>>) -> CellV {
    let is_iri = kind == "uri"@;
    if is_iri && raw == UNDEFINED@ {
        CellV { value: None, stated: false, form: "iri"@, datatype: None, lang: None }
    } else if datatype == Some(UNDEFINED@) {
        CellV { value: None, stated: false, form: "literal"@, datatype: Some(UNDEFINED@), lang: None }
    } else if !is_iri && raw.len() == 0 {
        CellV { value: None, stated: false, form: "literal"@, datatype, lang }
    } else {
        CellV { value: Some(raw), stated: true, form: if is_iri { "iri"@ } else { "literal"@ }, datatype, lang }
    }
}

/// One binding variable read into a cell, recognising all FOUR shapes of
/// «not stated»: the IRI `cube:Undefined`, an empty literal typed
/// `cube:Undefined`, an empty plain literal, and an empty literal typed
/// `xsd:string` — the last two are silence served as a value unless this
/// reading refuses it.
pub open spec fn cell_spec(binding: JsonV, var: Seq<char>) -> Option<CellV> {
    match get_spec(binding, var) {
        None => None,
        Some(node) => Some(cell_from(node_kind(node), node_raw(node), str_field(node, "datatype"@), node_lang(node))),
    }
}

fn cell_of(kind: &str, raw: &str, datatype: Option<String>, lang: Option<String>) -> (c: Cell)
    ensures
        c@ == cell_from(kind@, raw@, opt_seq(datatype), opt_seq(lang)),
{
    let is_iri = str_eq(kind, "uri");
    if is_iri && str_eq(raw, UNDEFINED) {
        return Cell { value: None, stated: false, form: "iri", datatype: None, lang: None };
    }
    let undefined_type = match &datatype {
        Some(d) => str_eq(d.as_str(), UNDEFINED),
        None => false,
    };
    if undefined_type {
        return Cell {
            value: None,
            stated: false,
            form: "literal",
            datatype: Some(String::from_str(UNDEFINED)),
            lang: None,
        };
    }
    if !is_iri && raw.unicode_len() == 0 {
        return Cell { value: None, stated: false, form: "literal", datatype, lang };
    }
    Cell {
        value: Some(String::from_str(raw)),
        stated: true,
        form: if is_iri { "iri" } else { "literal" },
        datatype,
        lang,
    }
}

/// Reads one binding variable into a [`Cell`].
pub fn cell(binding: &Json, var: &str) -> (r: Option<Cell>)
    ensures
        r is None <==> cell_spec(binding@, var@) is None,
        r matches Some(c) ==> cell_spec(binding@, var@) == Some(c@),
{
    let node = match get(binding, var) {
        Some(n) => n,
        None => { return None; },
    };
    let kind: &str = match get_str(node, "type") {
        Some(k) => k,
        None => "literal",
    };
    assert(kind@ == node_kind(node@));
    let raw: &str = match get_str(node, "value") {
        Some(v) => v,
        None => "",
    };
    proof {
        reveal_strlit("");
    }
    assert(raw@ == node_raw(node@));
    let datatype: Option<String> = match get_str(node, "datatype") {
        Some(d) => Some(String::from_str(d)),
        None => None,
    };
    assert(opt_seq(datatype) == str_field(node@, "datatype"@));
    let lang: Option<String> = match get_str(node, "xml:lang") {
        Some(l) => if l.unicode_len() > 0 {
            Some(String::from_str(l))
        } else {
            None
        },
        None => None,
    };
    assert(opt_seq(lang) == node_lang(node@));
    Some(cell_of(kind, raw, datatype, lang))
}

/// The plain string of a binding variable, when it is stated.
pub open spec fn text_spec(binding: JsonV, var: Seq<char>) -> Option<Seq<char>> {
    match cell_spec(binding, var) {
        Some(c) => c.value,
        None => None,
    }
}

/// The plain string of a binding variable, when it is stated.
pub fn text(binding: &Json, var: &str) -> (r: Option<String>)
    ensures
        opt_seq(r) == text_spec(binding@, var@),
{
    match cell(binding, var) {
        Some(c) => c.value,
        None => None,
    }
}

} // verus!

verus! {

// --- labels -------------------------------------------------------------

/// The model of a list of `(lang, label)` pairs.
pub open spec fn pairs_view(v: Seq<(String, String)>) -> Seq<(Seq<char>, Seq<char>)> {
    v.map_values(|p: (String, String)| (p.0@, p.1@))
}

/// An equal copy of a list of pairs.
pub fn copy_pairs(v: &Vec<(String, String)>) -> (r: Vec<(String, String)>)
    ensures
        pairs_view(r@) == pairs_view(v@),
{
    let mut r: Vec<(String, String)> = Vec::new();
    let mut i: usize = 0;
    while i < v.len()
        invariant
            0 <= i <= v@.len(),
            pairs_view(r@) == pairs_view(v@).take(i as int),
        decreases v@.len() - i,
    {
        let ghost before = pairs_view(r@);
        let a = v[i].0.clone();
        let b = v[i].1.clone();
        r.push((a, b));
        assert(pairs_view(r@) =~= before.push(pairs_view(v@)[i as int]));
        i = i + 1;
        assert(pairs_view(r@) =~= pairs_view(v@).take(i as int));
    }
    assert(pairs_view(v@).take(v@.len() as int) =~= pairs_view(v@));
    r
}

/// The first label of `found` tagged `want`.
pub open spec fn label_in(found: Seq<(Seq<char>, Seq<char>)>, want: Seq<char>) -> Option<Seq<char>>
    decreases found.len(),
{
    if found.len() == 0 {
        None
    } else if found[0].0 == want {
        Some(found[0].1)
    } else {
        label_in(found.drop_first(), want)
    }
}

/// An untagged label answers as «und».
pub open spec fn tag_or_und(lang: Seq<char>) -> Seq<char> {
    if lang.len() == 0 {
        "und"@
    } else {
        lang
    }
}

/// The first language of `order` that `found` has a label in, with that
/// label; else the first label found, whatever its tag.
pub open spec fn choose_in(found: Seq<(Seq<char>, Seq<char>)>, order: Seq<Seq<char>>) -> Option<(Seq<char>, Seq<char>)>
    decreases order.len(),
{
    if order.len() == 0 {
        if found.len() > 0 {
            Some((found[0].1, tag_or_und(found[0].0)))
        } else {
            None
        }
    } else {
        match label_in(found, order[0]) {
            Some(l) => Some((l, order[0])),
            None => choose_in(found, order.drop_first()),
        }
    }
}

/// The five languages in their order.
pub open spec fn fallback() -> Seq<Seq<char>> {
    LABEL_FALLBACK@.map_values(|l: &str| l@)
}

/// The order a label is looked for in: the caller's language first, then
/// de → fr → it → en → rm.
pub open spec fn label_order(first: Option<Seq<char>>) -> Seq<Seq<char>> {
    match first {
        Some(f) => seq![f] + fallback(),
        None => fallback(),
    }
}

/// The label to serve and the language that answered.
pub open spec fn choose_label_spec(found: Seq<(Seq<char>, Seq<char>)>, first: Option<Seq<char>>) -> Option<(Seq<char>, Seq<char>)> {
    choose_in(found, label_order(first))
}

proof fn lemma_label_in(found: Seq<(Seq<char>, Seq<char>)>, want: Seq<char>, k: int)
    requires
        0 <= k <= found.len(),
        forall|j: int| 0 <= j < k ==> found[j].0 != want,
    ensures
        k == found.len() ==> label_in(found, want) is None,
        k < found.len() && found[k].0 == want ==> label_in(found, want) == Some(found[k].1),
    decreases found.len(),
{
    if found.len() > 0 && found[0].0 != want && k > 0 {
        let t = found.drop_first();
        assert forall|j: int| 0 <= j < k - 1 implies t[j].0 != want by {
            assert(t[j] == found[j + 1]);
        }
        lemma_label_in(t, want, k - 1);
    }
}

/// The first label of `found` tagged `want`.
fn find_label(found: &[(String, String)], want: &str) -> (r: Option<String>)
    ensures
        opt_seq(r) == label_in(pairs_view(found@), want@),
{
    let ghost fv = pairs_view(found@);
    let mut i: usize = 0;
    while i < found.len()
        invariant
            0 <= i <= found@.len(),
            fv == pairs_view(found@),
            forall|j: int| 0 <= j < i ==> fv[j].0 != want@,
        decreases found@.len() - i,
    {
        if str_eq(found[i].0.as_str(), want) {
            proof {
                lemma_label_in(fv, want@, i as int);
            }
            return Some(found[i].1.clone());
        }
        i = i + 1;
    }
    proof {
        lemma_label_in(fv, want@, i as int);
    }
    None
}

/// The label to serve, and the language that answered: the caller's
/// language first, then de → fr → it → en → rm, then any. An untagged
/// literal counts as `und` and is never dropped.
pub fn choose_label(found: &[(String, String)], first: Option<&str>) -> (r: Option<(String, String)>)
    ensures
        match r {
            Some(p) => choose_label_spec(pairs_view(found@), match first { Some(f) => Some(f@), None => None }) == Some((p.0@, p.1@)),
            None => choose_label_spec(pairs_view(found@), match first { Some(f) => Some(f@), None => None }) is None,
        },
{
    let ghost fv = pairs_view(found@);
    let ghost order = label_order(match first { Some(f) => Some(f@), None => None });
    if let Some(f) = first {
        if let Some(l) = find_label(found, f) {
            return Some((l, String::from_str(f)));
        }
        assert(order.drop_first() =~= fallback());
        assert(order[0] == f@);
        assert(choose_in(fv, order) == choose_in(fv, order.drop_first()));
    }
    assert(fallback().skip(0) =~= fallback());
    let mut i: usize = 0;
    while i < 5
        invariant
            0 <= i <= 5,
            fv == pairs_view(found@),
            order == label_order(match first { Some(f) => Some(f@), None => None }),
            choose_in(fv, order) == choose_in(fv, fallback().skip(i as int)),
        decreases 5 - i,
    {
        let want = LABEL_FALLBACK[i];
        assert(fallback()[i as int] == want@);
        assert(fallback().skip(i as int).drop_first() =~= fallback().skip(i + 1));
        assert(fallback().skip(i as int)[0] == want@);
        if let Some(l) = find_label(found, want) {
            assert(label_in(fv, want@) == Some(l@));
            assert(choose_in(fv, fallback().skip(i as int)) == Some((l@, want@)));
            return Some((l, String::from_str(want)));
        }
        i = i + 1;
    }
    if found.len() > 0 {
        let lang = if found[0].0.unicode_len() == 0 {
            String::from_str("und")
        } else {
            found[0].0.clone()
        };
        Some((found[0].1.clone(), lang))
    } else {
        None
    }
}

// --- arguments decidable before any request -----------------------------

/// The five languages as served.
pub open spec fn is_language(l: Seq<char>) -> bool {
    fallback().contains(l)
}

/// The language refusal.
pub open spec fn language_refusal(other: Seq<char>) -> JsonV {
    shaped("lang «"@ + other + "» is none of the five"@, LANG_ACCEPTED@, LANG_NOTE@)
}

/// The language a caller asked for, or `de`; anything outside the five
/// the holding writes is `invalid-input` — decidable without a request.
pub fn language(lang: Option<&str>) -> (r: Result<&'static str, Json>)
    ensures
        ({
            let asked = match lang { Some(l) => l@, None => "de"@ };
            match r {
                Ok(l) => is_language(asked) && l@ == asked,
                Err(j) => !is_language(asked) && j@ == language_refusal(asked),
            }
        }),
{
    let asked: &str = match lang {
        Some(l) => l,
        None => "de",
    };
    assert(asked@ == match lang { Some(l) => l@, None => "de"@ });
    let mut i: usize = 0;
    while i < 5
        invariant
            0 <= i <= 5,
            asked@ == match lang { Some(l) => l@, None => "de"@ },
            forall|k: int| 0 <= k < i ==> fallback()[k] != asked@,
        decreases 5 - i,
    {
        if str_eq(LABEL_FALLBACK[i], asked) {
            assert(fallback()[i as int] == asked@);
            assert(is_language(asked@));
            return Ok(LABEL_FALLBACK[i]);
        }
        i = i + 1;
    }
    assert(!fallback().contains(asked@));
    let mut d = String::from_str("lang «");
    d.append(asked);
    d.append("» is none of the five");
    Err(refusal_with_shape(d.as_str(), LANG_ACCEPTED, LANG_NOTE))
}

/// What `served_cube` answers: the normalised served IRI, or the refusal.
pub open spec fn served_cube_spec(cube: Seq<char>) -> Result<Seq<char>, JsonV> {
    match iri_safe_spec(cube) {
        Err(e) => Err(shaped("cube: "@ + e, CUBE_ACCEPTED@, CUBE_NOTE@)),
        Ok(c) => {
            let c = normalised(c);
            if !served(c) {
                Err(JsonV::Obj(seq![("error"@, JsonV::Str("not-found"@)), ("subject"@, JsonV::Str(c))]))
            } else {
                Ok(c)
            }
        },
    }
}

/// A served cube IRI, or the refusal that says why not.
pub fn served_cube(cube: &str) -> (r: Result<String, Json>)
    ensures
        match r {
            Ok(c) => served_cube_spec(cube@) == Ok::<Seq<char>, JsonV>(c@),
            Err(j) => served_cube_spec(cube@) == Err::<Seq<char>, JsonV>(j@),
        },
{
    let c = match iri_safe(cube) {
        Ok(c) => normalise_value(c.as_str()),
        Err(e) => {
            let mut d = String::from_str("cube: ");
            d.append(e.as_str());
            return Err(invalid_cube(d.as_str()));
        },
    };
    if !is_served(c.as_str()) {
        return Err(not_found(c.as_str()));
    }
    Ok(c)
}

/// The cap a caller asked for, clamped to this tool's own.
pub open spec fn capped_spec(limit: Option<u32>, max: nat, default: nat) -> nat {
    match limit {
        None => default,
        Some(l) => if l < 1 {
            1
        } else if l > max {
            max
        } else {
            l as nat
        },
    }
}

pub fn capped(limit: Option<u32>, max: usize, default: usize) -> (r: usize)
    requires
        max >= 1,
    ensures
        r == capped_spec(limit, max as nat, default as nat),
{
    match limit {
        None => default,
        Some(l) => {
            let l = l as usize;
            if l < 1 {
                1
            } else if l > max {
                max
            } else {
                l
            }
        },
    }
}

} // verus!

verus! {

// --- the queries ----------------------------------------------------------

/// The prefixes every query of this server carries.
pub const PREFIXES: &'static str = "PREFIX cube: <https://cube.link/>\nPREFIX sh: <http://www.w3.org/ns/shacl#>\nPREFIX schema: <http://schema.org/>\nPREFIX skos: <http://www.w3.org/2004/02/skos/core#>\nPREFIX rdfs: <http://www.w3.org/2000/01/rdf-schema#>\nPREFIX qudt: <http://qudt.org/schema/qudt/>\nPREFIX dcat: <http://www.w3.org/ns/dcat#>\nPREFIX rdf: <http://www.w3.org/1999/02/22-rdf-syntax-ns#>\n";

/// The label join of a cell: the three label predicates, untagged or in
/// one of the five languages.
pub const LABELS: &'static str = "OPTIONAL { VALUES ?labelP { schema:name skos:prefLabel rdfs:label }\n?v ?labelP ?label . FILTER(LANG(?label) = \"\" || LANG(?label) IN (\"de\", \"fr\", \"it\", \"en\", \"rm\"))\nBIND(LANG(?label) AS ?labelLang) }";

/// ` <a> <b> …`: every IRI of the list, bracketed.
pub open spec fn iri_list(iris: Seq<Seq<char>>) -> Seq<char>
    decreases iris.len(),
{
    if iris.len() == 0 {
        Seq::empty()
    } else {
        iri_list(iris.drop_last()) + " <"@ + iris.last() + ">"@
    }
}

/// `VALUES ?var { <…> }` over a list of IRIs.
pub open spec fn values_block_spec(var: Seq<char>, iris: Seq<Seq<char>>) -> Seq<char> {
    "VALUES ?"@ + var + " {"@ + iri_list(iris) + " }"@
}

/// `VALUES ?cube { <…> }` over a list of IRIs — the bound form every
/// scope-wide query uses: never a prefix filter over the store.
pub fn values_block(var: &str, iris: &[String]) -> (r: String)
    ensures
        r@ == values_block_spec(var@, views(iris@)),
{
    let mut r = String::from_str("VALUES ?");
    r.append(var);
    r.append(" {");
    let mut i: usize = 0;
    while i < iris.len()
        invariant
            0 <= i <= iris@.len(),
            r@ == "VALUES ?"@ + var@ + " {"@ + iri_list(views(iris@).take(i as int)),
        decreases iris@.len() - i,
    {
        assert(views(iris@).take(i + 1).drop_last() =~= views(iris@).take(i as int));
        r.append(" <");
        r.append(iris[i].as_str());
        r.append(">");
        i = i + 1;
        assert(r@ =~= "VALUES ?"@ + var@ + " {"@ + iri_list(views(iris@).take(i as int)));
    }
    assert(views(iris@).take(iris@.len() as int) =~= views(iris@));
    r.append(" }");
    r
}

/// Items joined by a separator.
pub open spec fn joined(items: Seq<Seq<char>>, sep: Seq<char>) -> Seq<char>
    decreases items.len(),
{
    if items.len() == 0 {
        Seq::empty()
    } else if items.len() == 1 {
        items[0]
    } else {
        joined(items.drop_last(), sep) + sep + items.last()
    }
}

/// One word of a name search, as a case-insensitive substring test.
pub open spec fn contains_clause(word: Seq<char>) -> Seq<char> {
    "CONTAINS(LCASE(STR(?name)), \""@ + crate::backend::literal_escaped(word) + "\")"@
}

/// Every WORD of the query, as a case-insensitive substring, in the SAME
/// cube name.
pub open spec fn name_filter_spec(words: Seq<Seq<char>>) -> Seq<char> {
    if words.len() == 0 {
        "true"@
    } else {
        joined(words.map_values(|w: Seq<char>| contains_clause(w)), " && "@)
    }
}

#[verifier::spinoff_prover]
#[verifier::rlimit(40)]
pub fn name_filter(words: &[String]) -> (r: String)
    ensures
        r@ == name_filter_spec(views(words@)),
{
    if words.len() == 0 {
        return String::from_str("true");
    }
    let ghost clauses = views(words@).map_values(|w: Seq<char>| contains_clause(w));
    let mut r = String::new();
    let mut i: usize = 0;
    while i < words.len()
        invariant
            0 <= i <= words@.len(),
            words@.len() > 0,
            clauses == views(words@).map_values(|w: Seq<char>| contains_clause(w)),
            r@ == joined(clauses.take(i as int), " && "@),
        decreases words@.len() - i,
    {
        assert(clauses.take(i + 1).drop_last() =~= clauses.take(i as int));
        if i > 0 {
            r.append(" && ");
        }
        r.append("CONTAINS(LCASE(STR(?name)), \"");
        let esc = crate::backend::literal_safe(words[i].as_str());
        r.append(esc.as_str());
        r.append("\")");
        i = i + 1;
        proof {
            if i == 1 {
                assert(joined(clauses.take(0), " && "@) =~= Seq::<char>::empty());
                assert(r@ =~= clauses.take(1)[0]);
            } else {
                assert(r@ =~= joined(clauses.take(i as int), " && "@));
            }
        }
    }
    assert(clauses.take(words@.len() as int) =~= clauses);
    r
}

/// The name query of `find_cube`: the served cubes bound by `VALUES`,
/// and every WORD of the query in the same name.
pub open spec fn find_cube_query_spec(cubes: Seq<Seq<char>>, words: Seq<Seq<char>>) -> Seq<char> {
    PREFIXES@ + "SELECT ?cube ?name ?nameLang WHERE {\n"@ + values_block_spec("cube"@, cubes)
        + "\n?cube schema:name ?name .\nFILTER("@ + name_filter_spec(words)
        + ")\nBIND(LANG(?name) AS ?nameLang)\n}"@
}

pub fn find_cube_query(cubes: &[String], words: &[String]) -> (r: String)
    ensures
        r@ == find_cube_query_spec(views(cubes@), views(words@)),
{
    let mut r = String::from_str(PREFIXES);
    r.append("SELECT ?cube ?name ?nameLang WHERE {\n");
    r.append(values_block("cube", cubes).as_str());
    r.append("\n?cube schema:name ?name .\nFILTER(");
    r.append(name_filter(words).as_str());
    r.append(")\nBIND(LANG(?name) AS ?nameLang)\n}");
    r
}

/// The count over a cube's observations, with or without filter clauses:
/// one shape, so the filtered count and the cube's own count are the
/// same query with and without the clauses.
pub open spec fn count_query_spec(cube: Seq<char>, clauses: Seq<char>) -> Seq<char> {
    PREFIXES@ + "SELECT (COUNT(DISTINCT ?obs) AS ?total) WHERE {\n<"@ + cube
        + "> cube:observationSet ?set . ?set cube:observation ?obs .\n"@ + clauses + "}"@
}

pub fn count_query_of(cube: &str, clauses: &str) -> (r: String)
    ensures
        r@ == count_query_spec(cube@, clauses@),
{
    let mut r = String::from_str(PREFIXES);
    r.append("SELECT (COUNT(DISTINCT ?obs) AS ?total) WHERE {\n<");
    r.append(cube);
    r.append("> cube:observationSet ?set . ?set cube:observation ?obs .\n");
    r.append(clauses);
    r.append("}");
    r
}

/// `<d>` for every projected dimension, separated by a space.
pub open spec fn bracketed(dims: Seq<Seq<char>>) -> Seq<Seq<char>> {
    dims.map_values(|d: Seq<char>| "<"@ + d + ">"@)
}

/// The cells of an observations page: required without a projection,
/// hanging OPTIONALLY on the row under one, so no row is ever dropped.
pub open spec fn page_cells_spec(projected: Seq<Seq<char>>) -> Seq<char> {
    if projected.len() == 0 {
        "?obs ?p ?v .\n"@ + LABELS@ + "\n"@
    } else {
        "OPTIONAL { VALUES ?p { "@ + joined(bracketed(projected), " "@) + " }\n?obs ?p ?v .\n"@
            + LABELS@ + " }\n"@
    }
}

/// One page of `observations`, with the cells of each row.
pub open spec fn observations_page_query_spec(cube: Seq<char>, clauses: Seq<char>, projected: Seq<Seq<char>>, limit: nat, offset: nat) -> Seq<char> {
    PREFIXES@ + "SELECT ?obs ?p ?v ?label ?labelLang WHERE {\n{ SELECT DISTINCT ?obs WHERE {\n<"@
        + cube + "> cube:observationSet ?set . ?set cube:observation ?obs .\n"@ + clauses
        + "} ORDER BY ?obs LIMIT "@ + decimal(limit) + " OFFSET "@ + decimal(offset) + " }\n"@
        + page_cells_spec(projected) + "} ORDER BY ?obs ?p"@
}

fn page_cells(projected: &[String]) -> (r: String)
    ensures
        r@ == page_cells_spec(views(projected@)),
{
    if projected.len() == 0 {
        let mut r = String::from_str("?obs ?p ?v .\n");
        r.append(LABELS);
        r.append("\n");
        return r;
    }
    let ghost items = bracketed(views(projected@));
    let mut list = String::new();
    let mut i: usize = 0;
    while i < projected.len()
        invariant
            0 <= i <= projected@.len(),
            projected@.len() > 0,
            items == bracketed(views(projected@)),
            list@ == joined(items.take(i as int), " "@),
        decreases projected@.len() - i,
    {
        assert(items.take(i + 1).drop_last() =~= items.take(i as int));
        if i > 0 {
            list.append(" ");
        }
        list.append("<");
        list.append(projected[i].as_str());
        list.append(">");
        i = i + 1;
        proof {
            if i == 1 {
                assert(list@ =~= items.take(1)[0]);
            } else {
                assert(list@ =~= joined(items.take(i as int), " "@));
            }
        }
    }
    assert(items.take(projected@.len() as int) =~= items);
    let mut r = String::from_str("OPTIONAL { VALUES ?p { ");
    r.append(list.as_str());
    r.append(" }\n?obs ?p ?v .\n");
    r.append(LABELS);
    r.append(" }\n");
    r
}

pub fn observations_page_query(cube: &str, clauses: &str, projected: &[String], limit: usize, offset: usize) -> (r: String)
    ensures
        r@ == observations_page_query_spec(cube@, clauses@, views(projected@), limit as nat, offset as nat),
{
    let mut r = String::from_str(PREFIXES);
    r.append("SELECT ?obs ?p ?v ?label ?labelLang WHERE {\n{ SELECT DISTINCT ?obs WHERE {\n<");
    r.append(cube);
    r.append("> cube:observationSet ?set . ?set cube:observation ?obs .\n");
    r.append(clauses);
    r.append("} ORDER BY ?obs LIMIT ");
    r.append(fmt_u64(limit as u64).as_str());
    r.append(" OFFSET ");
    r.append(fmt_u64(offset as u64).as_str());
    r.append(" }\n");
    r.append(page_cells(projected).as_str());
    r.append("} ORDER BY ?obs ?p");
    r
}

/// The count query of `describe`: how many STATEMENTS the subject says,
/// counted the way the pages page them.
pub open spec fn describe_count_query_spec(iri: Seq<char>) -> Seq<char> {
    PREFIXES@ + "SELECT (COUNT(*) AS ?total) WHERE {\n{ SELECT DISTINCT ?p ?v WHERE { <"@ + iri
        + "> ?p ?v } }\n}"@
}

pub fn describe_count_query(iri: &str) -> (r: String)
    ensures
        r@ == describe_count_query_spec(iri@),
{
    let mut r = String::from_str(PREFIXES);
    r.append("SELECT (COUNT(*) AS ?total) WHERE {\n{ SELECT DISTINCT ?p ?v WHERE { <");
    r.append(iri);
    r.append("> ?p ?v } }\n}");
    r
}

/// One page of `describe`, as a page of STATEMENTS: the bound sits
/// inside the `DISTINCT ?p ?v` subselect and the labels are joined
/// outside it.
pub open spec fn describe_page_query_spec(iri: Seq<char>, limit: nat, offset: nat) -> Seq<char> {
    PREFIXES@ + "SELECT ?p ?v ?label ?labelLang WHERE {\n{ SELECT DISTINCT ?p ?v WHERE { <"@ + iri
        + "> ?p ?v }\nORDER BY ?p ?v LIMIT "@ + decimal(limit) + " OFFSET "@ + decimal(offset)
        + " }\n"@ + LABELS@ + "\n} ORDER BY ?p ?v"@
}

pub fn describe_page_query(iri: &str, limit: usize, offset: usize) -> (r: String)
    ensures
        r@ == describe_page_query_spec(iri@, limit as nat, offset as nat),
{
    let mut r = String::from_str(PREFIXES);
    r.append("SELECT ?p ?v ?label ?labelLang WHERE {\n{ SELECT DISTINCT ?p ?v WHERE { <");
    r.append(iri);
    r.append("> ?p ?v }\nORDER BY ?p ?v LIMIT ");
    r.append(fmt_u64(limit as u64).as_str());
    r.append(" OFFSET ");
    r.append(fmt_u64(offset as u64).as_str());
    r.append(" }\n");
    r.append(LABELS);
    r.append("\n} ORDER BY ?p ?v");
    r
}

} // verus!

verus! {

// --- collecting labels ------------------------------------------------

/// A present string, or the empty one.
pub open spec fn or_empty(o: Option<Seq<char>>) -> Seq<char> {
    match o {
        Some(s) => s,
        None => Seq::empty(),
    }
}

/// `acc` with the `(lang, label)` pair a binding carries, unless the pair
/// is there already or the binding carries no label.
pub open spec fn with_label(acc: Seq<(Seq<char>, Seq<char>)>, b: JsonV, label_var: Seq<char>, lang_var: Seq<char>) -> Seq<(Seq<char>, Seq<char>)> {
    match text_spec(b, label_var) {
        None => acc,
        Some(label) => {
            let pair = (or_empty(text_spec(b, lang_var)), label);
            if acc.contains(pair) {
                acc
            } else {
                acc.push(pair)
            }
        },
    }
}

/// Every distinct `(lang, label)` pair of the bindings, in the order
/// they first appear.
pub open spec fn collect_labels(bs: Seq<JsonV>, label_var: Seq<char>, lang_var: Seq<char>) -> Seq<(Seq<char>, Seq<char>)>
    decreases bs.len(),
{
    if bs.len() == 0 {
        Seq::empty()
    } else {
        with_label(collect_labels(bs.drop_last(), label_var, lang_var), bs.last(), label_var, lang_var)
    }
}

/// Is the pair `(lang, label)` among `acc`?
pub fn has_pair(acc: &Vec<(String, String)>, lang: &str, label: &str) -> (r: bool)
    ensures
        r == pairs_view(acc@).contains((lang@, label@)),
{
    let ghost pv = pairs_view(acc@);
    let mut i: usize = 0;
    while i < acc.len()
        invariant
            0 <= i <= acc@.len(),
            pv == pairs_view(acc@),
            forall|k: int| 0 <= k < i ==> pv[k] != (lang@, label@),
        decreases acc@.len() - i,
    {
        if str_eq(acc[i].0.as_str(), lang) && str_eq(acc[i].1.as_str(), label) {
            assert(pv[i as int] == (lang@, label@));
            return true;
        }
        i = i + 1;
    }
    false
}

/// Adds the pair a binding carries, unless it is there already.
pub fn add_label(acc: &mut Vec<(String, String)>, b: &Json, label_var: &str, lang_var: &str)
    ensures
        pairs_view(final(acc)@) == with_label(pairs_view(old(acc)@), b@, label_var@, lang_var@),
{
    let label = match text(b, label_var) {
        Some(l) => l,
        None => { return; },
    };
    let lang = match text(b, lang_var) {
        Some(l) => l,
        None => String::new(),
    };
    assert(lang@ == or_empty(text_spec(b@, lang_var@)));
    if !has_pair(acc, lang.as_str(), label.as_str()) {
        let ghost old_v = pairs_view(acc@);
        let ghost pair = (lang@, label@);
        acc.push((lang, label));
        assert(pairs_view(acc@) =~= old_v.push(pair));
    }
}

/// Every distinct pair of a list of bindings.
pub fn collect_label_pairs(bs: &Vec<Json>, label_var: &str, lang_var: &str) -> (r: Vec<(String, String)>)
    ensures
        pairs_view(r@) == collect_labels(crate::json::items_view(bs@), label_var@, lang_var@),
{
    let ghost items = crate::json::items_view(bs@);
    let mut r: Vec<(String, String)> = Vec::new();
    let mut i: usize = 0;
    while i < bs.len()
        invariant
            0 <= i <= bs@.len(),
            items == crate::json::items_view(bs@),
            pairs_view(r@) == collect_labels(items.take(i as int), label_var@, lang_var@),
        decreases bs@.len() - i,
    {
        assert(items.take(i + 1).drop_last() =~= items.take(i as int));
        assert(items.take(i + 1).last() == bs@[i as int]@);
        add_label(&mut r, &bs[i], label_var, lang_var);
        i = i + 1;
    }
    assert(items.take(bs@.len() as int) =~= items);
    r
}

/// The tags of a list of pairs, an untagged one as «und».
pub open spec fn tag_set(found: Seq<(Seq<char>, Seq<char>)>) -> Set<Seq<char>> {
    found.map_values(|p: (Seq<char>, Seq<char>)| tag_or_und(p.0)).to_set()
}

/// The tags of `found`, sorted, each once.
pub fn sorted_tags(found: &Vec<(String, String)>) -> (r: Vec<String>)
    ensures
        crate::text::strictly_sorted(views(r@)),
        views(r@).to_set() == tag_set(pairs_view(found@)),
{
    let ghost fv = pairs_view(found@);
    let ghost tags = fv.map_values(|p: (Seq<char>, Seq<char>)| tag_or_und(p.0));
    let mut r: Vec<String> = Vec::new();
    let mut i: usize = 0;
    assert(views(r@).to_set() =~= tags.take(0).to_set());
    while i < found.len()
        invariant
            0 <= i <= found@.len(),
            fv == pairs_view(found@),
            tags == fv.map_values(|p: (Seq<char>, Seq<char>)| tag_or_und(p.0)),
            crate::text::strictly_sorted(views(r@)),
            views(r@).to_set() == tags.take(i as int).to_set(),
        decreases found@.len() - i,
    {
        let tag = if found[i].0.unicode_len() == 0 {
            String::from_str("und")
        } else {
            found[i].0.clone()
        };
        assert(tag@ == tags[i as int]);
        crate::text::insert_sorted(&mut r, tag);
        assert(tags.take(i + 1) =~= tags.take(i as int).push(tags[i as int]));
        proof {
            tags.take(i as int).lemma_push_to_set_commute(tags[i as int]);
        }
        i = i + 1;
    }
    assert(tags.take(found@.len() as int) =~= tags);
    r
}

} // verus!

verus! {

// --- cells as answers serve them ------------------------------------------

/// The fields of a served cell: the dimension, whether it is stated and in
/// which form, then the lexical form, datatype, tag and label when there
/// are such.
pub open spec fn cell_fields(dimension: Seq<char>, c: CellV, label: Option<(Seq<char>, Seq<char>)>) -> Seq<(Seq<char>, JsonV)> {
    let base = seq![
        ("dimension"@, JsonV::Str(dimension)),
        ("stated"@, JsonV::Bool(c.stated)),
        ("form"@, JsonV::Str(c.form)),
    ];
    let a = match c.value {
        Some(v) => base.push(("value"@, JsonV::Str(v))),
        None => base,
    };
    let b = match c.datatype {
        Some(d) => a.push(("datatype"@, JsonV::Str(d))),
        None => a,
    };
    let d = match c.lang {
        Some(l) => b.push(("lang"@, JsonV::Str(l))),
        None => b,
    };
    match label {
        Some(l) => d.push(("label"@, JsonV::Str(l.0))).push(("label_lang"@, JsonV::Str(l.1))),
        None => d,
    }
}

/// A cell as the answer serves it: the lexical form, its datatype, its
/// tag — never a parsed number.
pub fn cell_json(dimension: &str, c: &Cell, label: &Option<(String, String)>) -> (j: Json)
    ensures
        j@ == JsonV::Obj(cell_fields(dimension@, c@, match label { Some(l) => Some((l.0@, l.1@)), None => None })),
{
    let mut f: Vec<(String, Json)> = Vec::new();
    push_field(&mut f, "dimension", jstr(dimension));
    push_field(&mut f, "stated", Json::Bool(c.stated));
    push_field(&mut f, "form", jstr(c.form));
    if let Some(v) = &c.value {
        push_field(&mut f, "value", jstr(v.as_str()));
    }
    if let Some(d) = &c.datatype {
        push_field(&mut f, "datatype", jstr(d.as_str()));
    }
    if let Some(l) = &c.lang {
        push_field(&mut f, "lang", jstr(l.as_str()));
    }
    if let Some(l) = label {
        push_field(&mut f, "label", jstr(l.0.as_str()));
        push_field(&mut f, "label_lang", jstr(l.1.as_str()));
    }
    let ghost lv = match label { Some(l) => Some((l.0@, l.1@)), None => None };
    assert(fields_view(f@) =~= cell_fields(dimension@, c@, lv));
    obj(f)
}

/// The text of `var` in the first binding of a SELECT answer.
pub open spec fn first_text(value: JsonV, var: Seq<char>) -> Option<Seq<char>> {
    match crate::backend::bindings_spec(value) {
        Some(bs) => if bs.len() > 0 {
            text_spec(bs[0], var)
        } else {
            None
        },
        None => None,
    }
}

pub fn first_text_of(value: &Json, var: &str) -> (r: Option<String>)
    ensures
        opt_seq(r) == first_text(value@, var@),
{
    match crate::backend::bindings(value) {
        Ok(bs) => if bs.len() > 0 {
            assert(crate::json::items_view(bs@)[0] == bs@[0]@);
            text(&bs[0], var)
        } else {
            None
        },
        Err(_) => None,
    }
}

/// A count read from the first binding: its lexical form as a `usize`,
/// and 0 when there is none.
pub open spec fn first_count(value: JsonV, var: Seq<char>) -> usize {
    match first_text(value, var) {
        Some(t) => match crate::text::parse_usize_spec(t) {
            Some(n) => n,
            None => 0,
        },
        None => 0,
    }
}

pub fn first_count_of(value: &Json, var: &str) -> (r: usize)
    ensures
        r == first_count(value@, var@),
{
    match first_text_of(value, var) {
        Some(t) => match crate::text::parse_usize(t.as_str()) {
            Some(n) => n,
            None => 0,
        },
        None => 0,
    }
}

} // verus!
