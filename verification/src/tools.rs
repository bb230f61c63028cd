//! The eight tools as resumable runs. A tool never performs a request:
//! it answers either with a reply or with the ONE request it needs next,
//! together with the state it resumes from when the door hands back what
//! that request returned. Which request comes next, and what is answered
//! once the last one is back, is decided here.

use vstd::prelude::*;
use vstd::string::StringExecFns;

use crate::backend::{bindings, bindings_spec, iri_safe, iri_safe_spec, normalise_value, normalised, Event, Reply, Request};
use crate::domain::{
    backend_refusal, backend_refusal_spec, choose_label, choose_label_spec, collect_label_pairs,
    collect_labels, error_detail, language, language_refusal, is_language, invalid, pairs_view,
    provenance, provenance_spec, sorted_tags, tag_set, upstream, Ctx, PREFIXES,
    describe_count_query, describe_count_query_spec, describe_page_query, describe_page_query_spec,
    MAX_STATEMENTS,
};
use crate::json::{fields_view, jstr, jstrs, obj, opt_view, push_field, strs_view, Json, JsonV};
use crate::text::{strictly_sorted, views};

verus! {

/// What a tool answers next: the request it needs, with the state it
/// resumes from, or its reply.
pub enum Step<R> {
    Ask(R, Request),
    Done(Json),
}

/// The first of an optional pair.
pub open spec fn first_of(p: Option<(Seq<char>, Seq<char>)>) -> Option<Seq<char>> {
    match p {
        Some(x) => Some(x.0),
        None => None,
    }
}

/// The second of an optional pair.
pub open spec fn second_of(p: Option<(Seq<char>, Seq<char>)>) -> Option<Seq<char>> {
    match p {
        Some(x) => Some(x.1),
        None => None,
    }
}

fn first_opt(p: &Option<(String, String)>) -> (r: Option<String>)
    ensures
        crate::domain::opt_seq(r) == first_of(match p { Some(x) => Some((x.0@, x.1@)), None => None }),
{
    match p {
        Some(x) => Some(x.0.clone()),
        None => None,
    }
}

fn second_opt(p: &Option<(String, String)>) -> (r: Option<String>)
    ensures
        crate::domain::opt_seq(r) == second_of(match p { Some(x) => Some((x.0@, x.1@)), None => None }),
{
    match p {
        Some(x) => Some(x.1.clone()),
        None => None,
    }
}

/// The model of an optional pair of strings.
pub open spec fn pair_view(p: Option<(String, String)>) -> Option<(Seq<char>, Seq<char>)> {
    match p {
        Some(x) => Some((x.0@, x.1@)),
        None => None,
    }
}

/// The refusal for an answer without bindings.
pub open spec fn no_bindings() -> JsonV {
    error_detail("upstream-unavailable"@, "upstream-unavailable: no bindings in the answer"@)
}

/// `prefix + a + ":" + b` — the shape of a fixture key.
pub open spec fn key2(prefix: Seq<char>, a: Seq<char>, b: Seq<char>) -> Seq<char> {
    prefix + a + ":"@ + b
}

fn make_key2(prefix: &str, a: &str, b: &str) -> (r: String)
    ensures
        r@ == key2(prefix@, a@, b@),
{
    let mut k = String::from_str(prefix);
    k.append(a);
    k.append(":");
    k.append(b);
    k
}

// --- resolve_label ------------------------------------------------------

pub const RESOLVE_NOTE: &'static str = "asked of the one endpoint: a foreign IRI is a SUBJECT the store is asked about, never a URL this server fetches (§8). in_store: false means the store does not know the IRI, as subject or as object — an answer, not a fetch elsewhere; in_store: true with label null means the store knows it and carries no label for it in the five languages; «languages» lists what the five-language filter found, never a census of the store (P29)";

/// The one bound query of `resolve_label`: a row binding `?known` exactly
/// when the store holds the IRI as a subject or an object, with the labels
/// in the five languages joined to it where there are any.
pub open spec fn resolve_query_spec(iri: Seq<char>) -> Seq<char> {
    PREFIXES@ + "SELECT ?known ?label ?labelLang WHERE {\n{ SELECT (1 AS ?known) WHERE { { <"@ + iri
        + "> ?anyP ?anyO } UNION { ?anyS ?anyP <"@ + iri
        + "> } } LIMIT 1 }\nOPTIONAL {\nVALUES ?labelP { schema:name skos:prefLabel rdfs:label }\n<"@
        + iri + "> ?labelP ?label .\nFILTER(LANG(?label) = \"\" || LANG(?label) IN (\"de\", \"fr\", \"it\", \"en\", \"rm\"))\nBIND(LANG(?label) AS ?labelLang)\n}\n} LIMIT 30"@
}

fn resolve_query(iri: &str) -> (r: String)
    ensures
        r@ == resolve_query_spec(iri@),
{
    let mut q = String::from_str(PREFIXES);
    q.append("SELECT ?known ?label ?labelLang WHERE {\n{ SELECT (1 AS ?known) WHERE { { <");
    q.append(iri);
    q.append("> ?anyP ?anyO } UNION { ?anyS ?anyP <");
    q.append(iri);
    q.append("> } } LIMIT 1 }\nOPTIONAL {\nVALUES ?labelP { schema:name skos:prefLabel rdfs:label }\n<");
    q.append(iri);
    q.append("> ?labelP ?label .\nFILTER(LANG(?label) = \"\" || LANG(?label) IN (\"de\", \"fr\", \"it\", \"en\", \"rm\"))\nBIND(LANG(?label) AS ?labelLang)\n}\n} LIMIT 30");
    q
}

/// Does some row of the answer bind `?known` — does the store hold the IRI?
pub open spec fn knows(bs: Seq<JsonV>) -> bool {
    exists|i: int| 0 <= i < bs.len() && (#[trigger] crate::domain::text_spec(bs[i], "known"@)) is Some
}

fn knows_of(bs: &Vec<Json>) -> (r: bool)
    ensures
        r == knows(crate::json::items_view(bs@)),
{
    let ghost all = crate::json::items_view(bs@);
    let mut i: usize = 0;
    while i < bs.len()
        invariant
            0 <= i <= bs@.len(),
            all == crate::json::items_view(bs@),
            forall|j: int| 0 <= j < i ==> (#[trigger] crate::domain::text_spec(all[j], "known"@)) is None,
        decreases bs@.len() - i,
    {
        assert(all[i as int] == bs@[i as int]@);
        if crate::domain::text(&bs[i], "known").is_some() {
            return true;
        }
        i = i + 1;
    }
    false
}

/// The state `resolve_label` resumes from: the IRI asked about, the
/// language, and the query that was sent.
pub struct ResolveLabelRun {
    pub iri: String,
    pub lang: &'static str,
    pub query: String,
}

/// The answer of `resolve_label` once the labels are back.
pub open spec fn resolve_answer(ctx: Ctx, reply: Reply, iri: Seq<char>, lang: Seq<char>, query: Seq<char>, found: Seq<(Seq<char>, Seq<char>)>, languages: Seq<Seq<char>>, in_store: bool) -> JsonV {
    let chosen = choose_label_spec(found, Some(lang));
    JsonV::Obj(seq![
        ("iri"@, JsonV::Str(iri)),
        ("label"@, opt_view(first_of(chosen))),
        ("label_lang"@, opt_view(second_of(chosen))),
        ("languages"@, strs_view(languages)),
        ("in_store"@, JsonV::Bool(in_store)),
        ("note"@, JsonV::Str(RESOLVE_NOTE@)),
        ("kind"@, JsonV::Str("hint"@)),
        ("provenance"@, provenance_spec(ctx, reply, query)),
    ])
}

/// `lindas.resolve_label` — a label for an IRI of ANY host, asked of the
/// one endpoint: the caller's language, then the fallback order.
pub fn resolve_label(ctx: &Ctx, iri: &str, lang: Option<&str>) -> (s: Step<ResolveLabelRun>)
    ensures
        ({
            let asked = match lang { Some(l) => l@, None => "de"@ };
            if !is_language(asked) {
                s matches Step::Done(j) && j@ == language_refusal(asked)
            } else {
                match iri_safe_spec(iri@) {
                    Err(e) => s matches Step::Done(j) && j@ == error_detail("invalid-input"@, e),
                    Ok(t) => s matches Step::Ask(run, req) && run.iri@ == normalised(t) && run.lang@ == asked
                        && req.key@ == key2("resolve_label:"@, normalised(t), asked)
                        && req.query@ == resolve_query_spec(normalised(t)) && run.query@ == req.query@
                        && !req.wide,
                }
            }
        }),
{
    let lang = match language(lang) {
        Ok(l) => l,
        Err(refusal) => { return Step::Done(refusal); },
    };
    let iri = match iri_safe(iri) {
        Ok(i) => normalise_value(i.as_str()),
        Err(e) => { return Step::Done(invalid(e.as_str())); },
    };
    let query = resolve_query(iri.as_str());
    let key = make_key2("resolve_label:", iri.as_str(), lang);
    let req = Request { key, query: query.clone(), wide: false };
    Step::Ask(ResolveLabelRun { iri, lang, query }, req)
}

impl ResolveLabelRun {
    /// The reply, once the labels are back.
    pub fn resume(self, ctx: &Ctx, event: Event) -> (s: Step<ResolveLabelRun>)
        ensures
            match event {
                Err(text) => s matches Step::Done(j) && j@ == backend_refusal_spec(text@),
                Ok(reply) => match bindings_spec(reply.value@) {
                    None => s matches Step::Done(j) && j@ == no_bindings(),
                    Some(bs) => s matches Step::Done(j) && exists|languages: Seq<Seq<char>>|
                        strictly_sorted(languages) && languages.to_set() == tag_set(collect_labels(bs, "label"@, "labelLang"@))
                        && j@ == resolve_answer(*ctx, reply, self.iri@, self.lang@, self.query@, collect_labels(bs, "label"@, "labelLang"@), languages,
                            knows(bs) || collect_labels(bs, "label"@, "labelLang"@).len() > 0),
                },
            },
    {
        let reply = match event {
            Err(text) => { return Step::Done(backend_refusal(text.as_str())); },
            Ok(r) => r,
        };
        let bs = match bindings(&reply.value) {
            Ok(b) => b,
            Err(e) => { return Step::Done(upstream(e.as_str())); },
        };
        let found = collect_label_pairs(bs, "label", "labelLang");
        let in_store = knows_of(bs) || found.len() > 0;
        let chosen = choose_label(&found, Some(self.lang));
        let languages = sorted_tags(&found);
        let mut f: Vec<(String, Json)> = Vec::new();
        push_field(&mut f, "iri", Json::Str(self.iri));
        push_field(&mut f, "label", crate::json::jopt(&first_opt(&chosen)));
        push_field(&mut f, "label_lang", crate::json::jopt(&second_opt(&chosen)));
        push_field(&mut f, "languages", jstrs(&languages));
        push_field(&mut f, "in_store", Json::Bool(in_store));
        push_field(&mut f, "note", jstr(RESOLVE_NOTE));
        push_field(&mut f, "kind", jstr("hint"));
        push_field(&mut f, "provenance", provenance(ctx, &reply, self.query.as_str()));
        let ghost fv = pairs_view(found@);
        assert(fields_view(f@) =~= match resolve_answer(*ctx, reply, self.iri@, self.lang@, self.query@, fv, views(languages@), in_store) {
            JsonV::Obj(x) => x,
            _ => Seq::empty(),
        });
        Step::Done(obj(f))
    }
}

} // verus!

verus! {

// --- statements: one term each, with its labels ---------------------------

/// A statement of a description (or a cell of a row): the predicate, the
/// object as a cell, and the labels the store carries for the object.
pub struct Statement {
    pub predicate: String,
    pub cell: crate::domain::Cell,
    pub labels: Vec<(String, String)>,
}

/// The model of a statement.
pub open spec fn statement_view(s: Statement) -> (Seq<char>, crate::domain::CellV, Seq<(Seq<char>, Seq<char>)>) {
    (s.predicate@, s.cell@, pairs_view(s.labels@))
}

pub open spec fn statements_view(v: Seq<Statement>) -> Seq<(Seq<char>, crate::domain::CellV, Seq<(Seq<char>, Seq<char>)>)> {
    v.map_values(|s: Statement| statement_view(s))
}

/// Two statements are the same TERM: predicate, lexical form, form,
/// datatype and tag all equal — `"Uri"@de` and `"Uri"@fr` are two.
pub open spec fn same_term(e: (Seq<char>, crate::domain::CellV, Seq<(Seq<char>, Seq<char>)>), p: Seq<char>, c: crate::domain::CellV) -> bool {
    e.0 == p && e.1.value == c.value && e.1.form == c.form && e.1.datatype == c.datatype && e.1.lang == c.lang
}

/// Where the term `(p, c)` sits in `acc`; `acc.len()` when it is new.
pub open spec fn term_pos(acc: Seq<(Seq<char>, crate::domain::CellV, Seq<(Seq<char>, Seq<char>)>)>, p: Seq<char>, c: crate::domain::CellV) -> int
    decreases acc.len(),
{
    if acc.len() == 0 {
        0
    } else if same_term(acc[0], p, c) {
        0
    } else {
        1 + term_pos(acc.drop_first(), p, c)
    }
}

proof fn lemma_term_pos(acc: Seq<(Seq<char>, crate::domain::CellV, Seq<(Seq<char>, Seq<char>)>)>, p: Seq<char>, c: crate::domain::CellV, k: int)
    requires
        0 <= k <= acc.len(),
        forall|j: int| 0 <= j < k ==> !same_term(#[trigger] acc[j], p, c),
        k == acc.len() || same_term(acc[k], p, c),
    ensures
        term_pos(acc, p, c) == k,
    decreases acc.len(),
{
    if acc.len() > 0 && !same_term(acc[0], p, c) {
        let t = acc.drop_first();
        assert forall|j: int| 0 <= j < k - 1 implies !same_term(#[trigger] t[j], p, c) by {
            assert(t[j] == acc[j + 1]);
        }
        if k - 1 < t.len() {
            assert(t[k - 1] == acc[k]);
        }
        lemma_term_pos(t, p, c, k - 1);
    }
}

/// `acc` with the statement a binding carries: a new term is appended,
/// and the binding's label joins the term's labels.
pub open spec fn add_statement_spec(acc: Seq<(Seq<char>, crate::domain::CellV, Seq<(Seq<char>, Seq<char>)>)>, b: JsonV, pvar: Seq<char>) -> Seq<(Seq<char>, crate::domain::CellV, Seq<(Seq<char>, Seq<char>)>)> {
    match (crate::domain::text_spec(b, pvar), crate::domain::cell_spec(b, "v"@)) {
        (Some(p), Some(c)) => {
            let k = term_pos(acc, p, c);
            let acc1 = if k == acc.len() {
                acc.push((p, c, Seq::empty()))
            } else {
                acc
            };
            acc1.update(k, (acc1[k].0, acc1[k].1, crate::domain::with_label(acc1[k].2, b, "label"@, "labelLang"@)))
        },
        _ => acc,
    }
}

/// Every distinct statement of a page of bindings, in first-seen order.
pub open spec fn fold_statements(bs: Seq<JsonV>, pvar: Seq<char>) -> Seq<(Seq<char>, crate::domain::CellV, Seq<(Seq<char>, Seq<char>)>)>
    decreases bs.len(),
{
    if bs.len() == 0 {
        Seq::empty()
    } else {
        add_statement_spec(fold_statements(bs.drop_last(), pvar), bs.last(), pvar)
    }
}

pub fn opt_eq(a: &Option<String>, b: &Option<String>) -> (r: bool)
    ensures
        r == (crate::domain::opt_seq(*a) == crate::domain::opt_seq(*b)),
{
    match (a, b) {
        (Some(x), Some(y)) => crate::text::str_eq(x.as_str(), y.as_str()),
        (None, None) => true,
        _ => false,
    }
}

fn add_statement(acc: &mut Vec<Statement>, b: &Json, pvar: &str)
    ensures
        statements_view(final(acc)@) == add_statement_spec(statements_view(old(acc)@), b@, pvar@),
{
    let p = match crate::domain::text(b, pvar) {
        Some(p) => p,
        None => { return; },
    };
    let c = match crate::domain::cell(b, "v") {
        Some(c) => c,
        None => { return; },
    };
    let ghost old_v = statements_view(acc@);
    let mut k: usize = 0;
    let mut found = false;
    while !found && k < acc.len()
        invariant
            0 <= k <= acc@.len(),
            acc@ == old(acc)@,
            old_v == statements_view(acc@),
            forall|j: int| 0 <= j < k ==> !same_term(#[trigger] old_v[j], p@, c@),
            found ==> k < acc@.len() && same_term(old_v[k as int], p@, c@),
        decreases acc@.len() - k + (if found { 0int } else { 1int }),
    {
        let e = &acc[k];
        if crate::text::str_eq(e.predicate.as_str(), p.as_str()) && opt_eq(&e.cell.value, &c.value)
            && crate::text::str_eq(e.cell.form, c.form) && opt_eq(&e.cell.datatype, &c.datatype)
            && opt_eq(&e.cell.lang, &c.lang) {
            found = true;
        } else {
            k = k + 1;
        }
    }
    proof {
        lemma_term_pos(old_v, p@, c@, k as int);
    }
    if k == acc.len() {
        let ghost pv = p@;
        let ghost cv = c@;
        let fresh: Vec<(String, String)> = Vec::new();
        assert(pairs_view(fresh@) =~= Seq::empty());
        acc.push(Statement { predicate: p, cell: c, labels: fresh });
        assert(statements_view(acc@) =~= old_v.push((pv, cv, Seq::empty())));
    }
    let ghost mid = statements_view(acc@);
    crate::domain::add_label(&mut acc[k].labels, b, "label", "labelLang");
    assert(statements_view(acc@) =~= mid.update(k as int, (mid[k as int].0, mid[k as int].1, crate::domain::with_label(mid[k as int].2, b@, "label"@, "labelLang"@))));
}

/// Every distinct statement of a page of bindings.
pub fn collect_statements(bs: &Vec<Json>, pvar: &str) -> (r: Vec<Statement>)
    ensures
        statements_view(r@) == fold_statements(crate::json::items_view(bs@), pvar@),
{
    let ghost items = crate::json::items_view(bs@);
    let mut r: Vec<Statement> = Vec::new();
    let mut i: usize = 0;
    assert(statements_view(r@) =~= Seq::empty());
    while i < bs.len()
        invariant
            0 <= i <= bs@.len(),
            items == crate::json::items_view(bs@),
            statements_view(r@) == fold_statements(items.take(i as int), pvar@),
        decreases bs@.len() - i,
    {
        assert(items.take(i + 1).drop_last() =~= items.take(i as int));
        assert(items.take(i + 1).last() == bs@[i as int]@);
        add_statement(&mut r, &bs[i], pvar);
        i = i + 1;
    }
    assert(items.take(bs@.len() as int) =~= items);
    r
}

/// The served form of statements: each a cell with its chosen label.
pub open spec fn statement_rows(stmts: Seq<(Seq<char>, crate::domain::CellV, Seq<(Seq<char>, Seq<char>)>)>, lang: Seq<char>) -> Seq<JsonV> {
    stmts.map_values(|s: (Seq<char>, crate::domain::CellV, Seq<(Seq<char>, Seq<char>)>)|
        JsonV::Obj(crate::domain::cell_fields(s.0, s.1, choose_label_spec(s.2, Some(lang)))))
}

pub fn statement_rows_of(stmts: &Vec<Statement>, lang: &str) -> (r: Vec<Json>)
    ensures
        crate::json::items_view(r@) == statement_rows(statements_view(stmts@), lang@),
{
    let mut r: Vec<Json> = Vec::new();
    let mut i: usize = 0;
    while i < stmts.len()
        invariant
            0 <= i <= stmts@.len(),
            crate::json::items_view(r@) == statement_rows(statements_view(stmts@), lang@).take(i as int),
        decreases stmts@.len() - i,
    {
        let s = &stmts[i];
        let label = choose_label(&s.labels, Some(lang));
        let row = crate::domain::cell_json(s.predicate.as_str(), &s.cell, &label);
        crate::json::push_item(&mut r, row);
        i = i + 1;
        assert(crate::json::items_view(r@) =~= statement_rows(statements_view(stmts@), lang@).take(i as int));
    }
    assert(statement_rows(statements_view(stmts@), lang@).take(stmts@.len() as int) =~= statement_rows(statements_view(stmts@), lang@));
    r
}

} // verus!

verus! {

// --- describe -------------------------------------------------------------

pub const DESCRIBE_NOTE: &'static str = "asked of the one endpoint this server speaks to; the IRI's own host stays reader-side (§8)";

/// `{"error": "not-found", "subject": subject}`.
pub open spec fn not_found_v(subject: Seq<char>) -> JsonV {
    JsonV::Obj(seq![("error"@, JsonV::Str("not-found"@)), ("subject"@, JsonV::Str(subject))])
}

/// `prefix + a + ":" + limit + ":" + offset` — the key of a page.
pub open spec fn page_key(prefix: Seq<char>, a: Seq<char>, limit: nat, offset: nat) -> Seq<char> {
    prefix + a + ":"@ + crate::text::decimal(limit) + ":"@ + crate::text::decimal(offset)
}

fn make_page_key(prefix: &str, a: &str, limit: usize, offset: usize) -> (r: String)
    ensures
        r@ == page_key(prefix@, a@, limit as nat, offset as nat),
{
    let mut k = String::from_str(prefix);
    k.append(a);
    k.append(":");
    k.append(crate::text::fmt_u64(limit as u64).as_str());
    k.append(":");
    k.append(crate::text::fmt_u64(offset as u64).as_str());
    k
}

/// Whether a page that starts at `offset` and served `returned` of `total`
/// leaves more to ask for.
pub open spec fn truncated(offset: nat, returned: nat, total: nat) -> bool {
    offset + returned < total
}

pub fn is_truncated(offset: usize, returned: usize, total: usize) -> (r: bool)
    ensures
        r == truncated(offset as nat, returned as nat, total as nat),
{
    returned < total && offset < total - returned
}

/// The state `describe` resumes from. `total` is `None` while the count
/// is out, and the count once the page is.
pub struct DescribeRun {
    pub iri: String,
    pub lang: &'static str,
    pub limit: usize,
    pub offset: usize,
    pub total: Option<usize>,
    pub query: String,
}

/// The answer of `describe` once its page is back.
pub open spec fn describe_answer(ctx: Ctx, reply: Reply, run: DescribeRun, total: nat, rows: Seq<JsonV>) -> JsonV {
    JsonV::Obj(seq![
        ("iri"@, JsonV::Str(run.iri@)),
        ("statements"@, JsonV::Arr(rows)),
        ("limit"@, JsonV::Num(run.limit as u64)),
        ("offset"@, JsonV::Num(run.offset as u64)),
        ("returned"@, JsonV::Num(rows.len() as u64)),
        ("total"@, JsonV::Num(total as u64)),
        ("truncated"@, JsonV::Bool(truncated(run.offset as nat, rows.len(), total))),
        ("via"@, JsonV::Str("endpoint"@)),
        ("note"@, JsonV::Str(DESCRIBE_NOTE@)),
        ("kind"@, JsonV::Str("norm"@)),
        ("provenance"@, provenance_spec(ctx, reply, run.query@)),
    ])
}

/// `lindas.describe` — one IRI, asked of the ONE endpoint: first how many
/// statements it says, then one page of them.
pub fn describe(ctx: &Ctx, iri: &str, lang: Option<&str>, limit: Option<u32>, offset: Option<u32>) -> (s: Step<DescribeRun>)
    ensures
        ({
            let asked = match lang { Some(l) => l@, None => "de"@ };
            if !is_language(asked) {
                s matches Step::Done(j) && j@ == language_refusal(asked)
            } else {
                match iri_safe_spec(iri@) {
                    Err(e) => s matches Step::Done(j) && j@ == error_detail("invalid-input"@, e),
                    Ok(t) => s matches Step::Ask(run, req) && run.iri@ == normalised(t) && run.lang@ == asked
                        && run.limit == crate::domain::capped_spec(limit, MAX_STATEMENTS as nat, 100)
                        && run.offset == (match offset { Some(o) => o as nat, None => 0 })
                        && run.total is None
                        && req.key@ == "describe:count:"@ + normalised(t)
                        && req.query@ == describe_count_query_spec(normalised(t))
                        && run.query@ == req.query@ && !req.wide,
                }
            }
        }),
{
    let lang = match language(lang) {
        Ok(l) => l,
        Err(refusal) => { return Step::Done(refusal); },
    };
    let iri = match iri_safe(iri) {
        Ok(i) => normalise_value(i.as_str()),
        Err(e) => { return Step::Done(invalid(e.as_str())); },
    };
    let limit = crate::domain::capped(limit, MAX_STATEMENTS, 100);
    let offset: usize = match offset { Some(o) => o as usize, None => 0 };
    let query = describe_count_query(iri.as_str());
    let mut key = String::from_str("describe:count:");
    key.append(iri.as_str());
    let req = Request { key, query: query.clone(), wide: false };
    Step::Ask(DescribeRun { iri, lang, limit, offset, total: None, query }, req)
}

impl DescribeRun {
    /// The next step once a request is back: after the count, the page
    /// (or `not-found` when the subject says nothing); after the page,
    /// the statements.
    pub fn resume(self, ctx: &Ctx, event: Event) -> (s: Step<DescribeRun>)
        ensures
            match event {
                Err(text) => s matches Step::Done(j) && j@ == backend_refusal_spec(text@),
                Ok(reply) => match self.total {
                    None => {
                        let total = crate::domain::first_count(reply.value@, "total"@);
                        if total == 0 {
                            s matches Step::Done(j) && j@ == not_found_v(self.iri@)
                        } else {
                            s matches Step::Ask(run, req) && run.iri == self.iri && run.lang == self.lang
                                && run.limit == self.limit && run.offset == self.offset
                                && run.total == Some(total)
                                && req.key@ == page_key("describe:"@, self.iri@, self.limit as nat, self.offset as nat)
                                && req.query@ == describe_page_query_spec(self.iri@, self.limit as nat, self.offset as nat)
                                && run.query@ == req.query@ && req.wide
                        }
                    },
                    Some(total) => match bindings_spec(reply.value@) {
                        None => s matches Step::Done(j) && j@ == no_bindings(),
                        Some(bs) => s matches Step::Done(j) && j@ == describe_answer(*ctx, reply, self, total as nat,
                            statement_rows(fold_statements(bs, "p"@), self.lang@)),
                    },
                },
            },
    {
        let reply = match event {
            Err(text) => { return Step::Done(backend_refusal(text.as_str())); },
            Ok(r) => r,
        };
        match self.total {
            None => {
                let total = crate::domain::first_count_of(&reply.value, "total");
                if total == 0 {
                    return Step::Done(crate::domain::not_found(self.iri.as_str()));
                }
                let query = describe_page_query(self.iri.as_str(), self.limit, self.offset);
                let key = make_page_key("describe:", self.iri.as_str(), self.limit, self.offset);
                let req = Request { key, query: query.clone(), wide: true };
                Step::Ask(DescribeRun { iri: self.iri, lang: self.lang, limit: self.limit, offset: self.offset, total: Some(total), query }, req)
            },
            Some(total) => {
                let bs = match bindings(&reply.value) {
                    Ok(b) => b,
                    Err(e) => { return Step::Done(upstream(e.as_str())); },
                };
                let statements = collect_statements(bs, "p");
                let rows = statement_rows_of(&statements, self.lang);
                let returned = rows.len();
                let ghost rv = crate::json::items_view(rows@);
                let mut f: Vec<(String, Json)> = Vec::new();
                push_field(&mut f, "iri", jstr(self.iri.as_str()));
                push_field(&mut f, "statements", crate::json::arr(rows));
                push_field(&mut f, "limit", Json::Num(self.limit as u64));
                push_field(&mut f, "offset", Json::Num(self.offset as u64));
                push_field(&mut f, "returned", Json::Num(returned as u64));
                push_field(&mut f, "total", Json::Num(total as u64));
                push_field(&mut f, "truncated", Json::Bool(is_truncated(self.offset, returned, total)));
                push_field(&mut f, "via", jstr("endpoint"));
                push_field(&mut f, "note", jstr(DESCRIBE_NOTE));
                push_field(&mut f, "kind", jstr("norm"));
                push_field(&mut f, "provenance", provenance(ctx, &reply, self.query.as_str()));
                assert(rv.len() == returned);
                assert(fields_view(f@) =~= match describe_answer(*ctx, reply, self, total as nat, rv) {
                    JsonV::Obj(x) => x,
                    _ => Seq::empty(),
                });
                Step::Done(obj(f))
            },
        }
    }
}

} // verus!
