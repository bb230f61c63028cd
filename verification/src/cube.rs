//! One cube: its declared shape beside what it says of itself
//! (`describe_cube`), and the values one of its dimensions takes
//! (`dimension_values`).

use vstd::prelude::*;
use vstd::string::StringExecFns;

use crate::backend::{bindings, bindings_spec, Event, Reply, Request};
use crate::catalogue::window;
use crate::domain::{
    backend_refusal, backend_refusal_spec, choose_label, choose_label_spec, collect_label_pairs,
    collect_labels, opt_seq, provenance, provenance_spec, text, text_spec, upstream, Ctx,
    PREFIXES,
};
use crate::json::{fields_view, items_view, jopt, jstr, jstrs, obj, opt_view, push_field, strs_view, Json, JsonV};
use crate::shape::{
    collect_shape, declares, dim_json, dims_view, fold_shape, is_declared, sample_query,
    sample_query_spec, shape_query, shape_query_spec, texts, texts_of, DimV, ShapeDimension,
};
use crate::text::{parse_u64, parse_u64_spec, views};
use crate::tools::{first_of, no_bindings, second_of, truncated, Step};

verus! {

// --- describe_cube ------------------------------------------------------------

pub const DESCRIBE_CUBE_NOTE: &'static str = "these are the dimensions the SHACL shape DECLARES; the observations may carry more (measured: 14 declared against 51 carried, in the largest cube of the scope). carried_predicates_sample is one observation's predicates — a hint, not a census; a dimension is admitted by the bound ASK of lindas.observations";

pub open spec fn profile_query_spec(c: Seq<char>) -> Seq<char> {
    PREFIXES@ + "SELECT ?name ?nameLang ?description ?descriptionLang ?created ?published ?modified ?status ?publisher ?theme ?viewer (COUNT(?obs) AS ?observations) WHERE {\nOPTIONAL { <"@
        + c + "> schema:name ?name . BIND(LANG(?name) AS ?nameLang) }\nOPTIONAL { <"@
        + c + "> schema:description ?description . BIND(LANG(?description) AS ?descriptionLang) }\nOPTIONAL { <"@
        + c + "> schema:dateCreated ?created }\nOPTIONAL { <"@
        + c + "> schema:datePublished ?published }\nOPTIONAL { <"@
        + c + "> schema:dateModified ?modified }\nOPTIONAL { <"@
        + c + "> schema:creativeWorkStatus ?status }\nOPTIONAL { <"@
        + c + "> schema:publisher ?publisher }\nOPTIONAL { <"@
        + c + "> dcat:theme ?theme }\nOPTIONAL { <"@
        + c + "> schema:workExample ?viewer }\nOPTIONAL { <"@
        + c + "> cube:observationSet ?set . ?set cube:observation ?obs }\n} GROUP BY ?name ?nameLang ?description ?descriptionLang ?created ?published ?modified ?status ?publisher ?theme ?viewer"@
}

/// The query for what one cube says about itself.
pub fn profile_query(c: &str) -> (r: String)
    ensures
        r@ == profile_query_spec(c@),
{
    let mut q = String::from_str(PREFIXES);
    q.append("SELECT ?name ?nameLang ?description ?descriptionLang ?created ?published ?modified ?status ?publisher ?theme ?viewer (COUNT(?obs) AS ?observations) WHERE {\nOPTIONAL { <");
    q.append(c);
    q.append("> schema:name ?name . BIND(LANG(?name) AS ?nameLang) }\nOPTIONAL { <");
    q.append(c);
    q.append("> schema:description ?description . BIND(LANG(?description) AS ?descriptionLang) }\nOPTIONAL { <");
    q.append(c);
    q.append("> schema:dateCreated ?created }\nOPTIONAL { <");
    q.append(c);
    q.append("> schema:datePublished ?published }\nOPTIONAL { <");
    q.append(c);
    q.append("> schema:dateModified ?modified }\nOPTIONAL { <");
    q.append(c);
    q.append("> schema:creativeWorkStatus ?status }\nOPTIONAL { <");
    q.append(c);
    q.append("> schema:publisher ?publisher }\nOPTIONAL { <");
    q.append(c);
    q.append("> dcat:theme ?theme }\nOPTIONAL { <");
    q.append(c);
    q.append("> schema:workExample ?viewer }\nOPTIONAL { <");
    q.append(c);
    q.append("> cube:observationSet ?set . ?set cube:observation ?obs }\n} GROUP BY ?name ?nameLang ?description ?descriptionLang ?created ?published ?modified ?status ?publisher ?theme ?viewer");
    q
}

/// The largest count any binding answers under `var` (0 when none does).
pub open spec fn max_parsed(bs: Seq<JsonV>, var: Seq<char>) -> u64
    decreases bs.len(),
{
    if bs.len() == 0 {
        0
    } else {
        let prev = max_parsed(bs.drop_last(), var);
        match text_spec(bs.last(), var) {
            Some(t) => match parse_u64_spec(t) {
                Some(n) => if n > prev {
                    n
                } else {
                    prev
                },
                None => prev,
            },
            None => prev,
        }
    }
}

fn max_parsed_of(bs: &Vec<Json>, var: &str) -> (r: u64)
    ensures
        r == max_parsed(items_view(bs@), var@),
{
    let ghost items = items_view(bs@);
    let mut best: u64 = 0;
    let mut i: usize = 0;
    while i < bs.len()
        invariant
            0 <= i <= bs@.len(),
            items == items_view(bs@),
            best == max_parsed(items.take(i as int), var@),
        decreases bs@.len() - i,
    {
        assert(items.take(i + 1).drop_last() =~= items.take(i as int));
        assert(items.take(i + 1).last() == bs@[i as int]@);
        if let Some(t) = text(&bs[i], var) {
            if let Some(n) = parse_u64(t.as_str()) {
                if n > best {
                    best = n;
                }
            }
        }
        i = i + 1;
    }
    assert(items.take(bs@.len() as int) =~= items);
    best
}

/// The stated `var` of the FIRST binding.
pub open spec fn first_field(bs: Seq<JsonV>, var: Seq<char>) -> Option<Seq<char>> {
    if bs.len() > 0 {
        text_spec(bs[0], var)
    } else {
        None
    }
}

fn first_field_of(bs: &Vec<Json>, var: &str) -> (r: Option<String>)
    ensures
        opt_seq(r) == first_field(items_view(bs@), var@),
{
    if bs.len() > 0 {
        text(&bs[0], var)
    } else {
        None
    }
}

/// The predicates of `sample` the shape does not declare, in order.
pub open spec fn undeclared_in(sample: Seq<Seq<char>>, shape: Seq<DimV>) -> Seq<Seq<char>>
    decreases sample.len(),
{
    if sample.len() == 0 {
        Seq::empty()
    } else if declares(shape, sample.last()) {
        undeclared_in(sample.drop_last(), shape)
    } else {
        undeclared_in(sample.drop_last(), shape).push(sample.last())
    }
}

fn undeclared_of(sample: &Vec<String>, shape: &Vec<ShapeDimension>) -> (r: Vec<String>)
    ensures
        views(r@) == undeclared_in(views(sample@), dims_view(shape@)),
{
    let ghost sv = views(sample@);
    let mut r: Vec<String> = Vec::new();
    let mut i: usize = 0;
    assert(views(r@) =~= Seq::empty());
    while i < sample.len()
        invariant
            0 <= i <= sample@.len(),
            sv == views(sample@),
            views(r@) == undeclared_in(sv.take(i as int), dims_view(shape@)),
        decreases sample@.len() - i,
    {
        assert(sv.take(i + 1).drop_last() =~= sv.take(i as int));
        if !is_declared(shape, sample[i].as_str()) {
            let ghost before = views(r@);
            r.push(sample[i].clone());
            assert(views(r@) =~= before.push(sv[i as int]));
        }
        i = i + 1;
    }
    assert(sv.take(sample@.len() as int) =~= sv);
    r
}

/// The granularity of a modification date: `dateTime` when it carries a
/// time, `date` when it does not.
pub open spec fn granularity(modified: Option<Seq<char>>) -> Option<Seq<char>> {
    match modified {
        Some(m) => Some(if m.contains('T') { "dateTime"@ } else { "date"@ }),
        None => None,
    }
}

/// The dates block of `describe_cube`.
pub open spec fn dates_json(pbs: Seq<JsonV>) -> JsonV {
    JsonV::Obj(seq![
        ("created"@, opt_view(first_field(pbs, "created"@))),
        ("published"@, opt_view(first_field(pbs, "published"@))),
        ("modified"@, opt_view(first_field(pbs, "modified"@))),
        ("granularity"@, opt_view(granularity(first_field(pbs, "modified"@)))),
    ])
}

fn dates_of(pbs: &Vec<Json>) -> (j: Json)
    ensures
        j@ == dates_json(items_view(pbs@)),
{
    let modified = first_field_of(pbs, "modified");
    let gran: Option<String> = match &modified {
        Some(m) => if crate::text::has_char(crate::text::chars_of(m.as_str()).as_slice(), 'T') {
            Some(String::from_str("dateTime"))
        } else {
            Some(String::from_str("date"))
        },
        None => None,
    };
    let mut f: Vec<(String, Json)> = Vec::new();
    push_field(&mut f, "created", jopt(&first_field_of(pbs, "created")));
    push_field(&mut f, "published", jopt(&first_field_of(pbs, "published")));
    push_field(&mut f, "modified", jopt(&modified));
    push_field(&mut f, "granularity", jopt(&gran));
    assert(fields_view(f@) =~= match dates_json(items_view(pbs@)) {
        JsonV::Obj(x) => x,
        _ => Seq::empty(),
    });
    obj(f)
}

/// The state `describe_cube` resumes from: the profile reply once it is
/// back, then the shape reply.
pub struct DescribeCubeRun {
    pub cube: String,
    pub lang: &'static str,
    pub limit: usize,
    pub offset: usize,
    pub query: String,
    pub profile: Option<Reply>,
    pub shape: Option<Reply>,
}

/// The page of declared dimensions.
pub open spec fn dims_page(shape: Seq<DimV>, offset: nat, limit: nat, lang: Seq<char>) -> Seq<JsonV> {
    window(shape, offset, limit).map_values(|d: DimV| dim_json(d, lang))
}

/// The fields of `describe_cube`'s answer that the profile gives.
pub open spec fn profile_fields(run: DescribeCubeRun, pbs: Seq<JsonV>) -> Seq<(Seq<char>, JsonV)> {
    let c = run.cube@;
    let lang = run.lang@;
    let name = choose_label_spec(collect_labels(pbs, "name"@, "nameLang"@), Some(lang));
    let description = choose_label_spec(collect_labels(pbs, "description"@, "descriptionLang"@), Some(lang));
    let observations = max_parsed(pbs, "observations"@);
    seq![
        ("cube"@, JsonV::Str(c)),
        ("name"@, opt_view(first_of(name))),
        ("name_lang"@, opt_view(second_of(name))),
        ("description"@, opt_view(first_of(description))),
        ("description_lang"@, opt_view(second_of(description))),
        ("family"@, opt_view(crate::scope::family_spec(c))),
        ("version"@, opt_view(crate::scope::version_spec(c))),
        ("versioned"@, JsonV::Bool(crate::scope::version_spec(c) is Some)),
        ("publisher"@, opt_view(first_field(pbs, "publisher"@))),
        ("theme"@, opt_view(first_field(pbs, "theme"@))),
        ("viewer"@, opt_view(first_field(pbs, "viewer"@))),
        ("dates"@, dates_json(pbs)),
        ("status"@, opt_view(first_field(pbs, "status"@))),
        ("status_unset"@, JsonV::Bool(first_field(pbs, "status"@) is None)),
        ("observations"@, JsonV::Num(observations)),
        ("placeholder"@, JsonV::Bool(observations == 0)),
    ]
}

/// The fields of `describe_cube`'s answer that the shape and the sample
/// give.
pub open spec fn shape_fields(ctx: Ctx, run: DescribeCubeRun, preply: Reply, sbs: Seq<JsonV>, xbs: Seq<JsonV>) -> Seq<(Seq<char>, JsonV)> {
    let shape = fold_shape(sbs);
    let page = dims_page(shape, run.offset as nat, run.limit as nat, run.lang@);
    let sample = texts_of(xbs, "p"@);
    seq![
        ("dimensions"@, JsonV::Arr(page)),
        ("dimensions_total"@, JsonV::Num(shape.len() as u64)),
        ("limit"@, JsonV::Num(run.limit as u64)),
        ("offset"@, JsonV::Num(run.offset as u64)),
        ("returned"@, JsonV::Num(page.len() as u64)),
        ("truncated"@, JsonV::Bool(truncated(run.offset as nat, page.len(), shape.len()))),
        ("declared_only"@, JsonV::Bool(true)),
        ("carried_predicates_sample"@, strs_view(sample)),
        ("undeclared_in_sample"@, strs_view(undeclared_in(sample, shape))),
        ("sampled"@, JsonV::Bool(true)),
        ("note"@, JsonV::Str(DESCRIBE_CUBE_NOTE@)),
        ("kind"@, JsonV::Str("norm"@)),
        ("provenance"@, provenance_spec(ctx, preply, run.query@)),
    ]
}

/// What `describe_cube` answers from its three replies: the profile
/// bindings `pbs`, the shape bindings `sbs` and the sample bindings `xbs`.
pub open spec fn describe_cube_answer(ctx: Ctx, run: DescribeCubeRun, preply: Reply, pbs: Seq<JsonV>, sbs: Seq<JsonV>, xbs: Seq<JsonV>) -> JsonV {
    JsonV::Obj(profile_fields(run, pbs) + shape_fields(ctx, run, preply, sbs, xbs))
}

/// `describe_cube:<cube>:<lang>`.
pub open spec fn profile_key(c: Seq<char>, lang: Seq<char>) -> Seq<char> {
    "describe_cube:"@ + c + ":"@ + lang
}

/// `lindas.describe_cube` — the declared shape and the profile: first what
/// the cube says of itself, then its shape, then one observation's
/// predicates.
pub fn describe_cube(cube: &str, lang: Option<&str>, limit: Option<u32>, offset: Option<u32>) -> (s: Step<DescribeCubeRun>)
    ensures
        ({
            let asked = match lang { Some(l) => l@, None => "de"@ };
            if !crate::domain::is_language(asked) {
                s matches Step::Done(j) && j@ == crate::domain::language_refusal(asked)
            } else {
                match crate::domain::served_cube_spec(cube@) {
                    Err(refusal) => s matches Step::Done(j) && j@ == refusal,
                    Ok(c) => s matches Step::Ask(run, req) && run.cube@ == c && run.lang@ == asked
                        && run.limit == crate::domain::capped_spec(limit, crate::domain::MAX_DIMENSIONS as nat, 50)
                        && run.offset == (match offset { Some(o) => o as nat, None => 0 })
                        && run.profile is None && run.shape is None
                        && req.key@ == profile_key(c, asked) && req.query@ == profile_query_spec(c)
                        && run.query@ == req.query@ && !req.wide,
                }
            }
        }),
{
    let lang = match crate::domain::language(lang) {
        Ok(l) => l,
        Err(refusal) => { return Step::Done(refusal); },
    };
    let cube = match crate::domain::served_cube(cube) {
        Ok(c) => c,
        Err(refusal) => { return Step::Done(refusal); },
    };
    let query = profile_query(cube.as_str());
    let mut key = String::from_str("describe_cube:");
    key.append(cube.as_str());
    key.append(":");
    key.append(lang);
    let limit = crate::domain::capped(limit, crate::domain::MAX_DIMENSIONS, 50);
    let offset: usize = match offset { Some(o) => o as usize, None => 0 };
    let req = Request { key, query: query.clone(), wide: false };
    Step::Ask(DescribeCubeRun { cube, lang, limit, offset, query, profile: None, shape: None }, req)
}

fn dims_page_of(shape: &Vec<ShapeDimension>, offset: usize, limit: usize, lang: &str) -> (r: Vec<Json>)
    ensures
        items_view(r@) == dims_page(dims_view(shape@), offset as nat, limit as nat, lang@),
{
    let ghost w = window(dims_view(shape@), offset as nat, limit as nat);
    let ghost rows = dims_page(dims_view(shape@), offset as nat, limit as nat, lang@);
    let mut r: Vec<Json> = Vec::new();
    if offset >= shape.len() {
        assert(items_view(r@) =~= rows);
        return r;
    }
    let end: usize = if limit >= shape.len() - offset { shape.len() } else { offset + limit };
    let mut i: usize = offset;
    while i < end
        invariant
            offset <= i <= end <= shape@.len(),
            offset < shape@.len(),
            end == (if offset + limit >= shape@.len() { shape@.len() as int } else { offset + limit }),
            w == window(dims_view(shape@), offset as nat, limit as nat),
            rows == w.map_values(|d: DimV| dim_json(d, lang@)),
            w.len() == end - offset,
            items_view(r@) == rows.take(i - offset),
        decreases end - i,
    {
        assert(w[i - offset] == shape@[i as int]@);
        let row = shape[i].json(lang);
        crate::json::push_item(&mut r, row);
        i = i + 1;
        assert(items_view(r@) =~= rows.take(i - offset));
    }
    assert(rows.take(end - offset) =~= rows);
    r
}

fn profile_fields_of(run: &DescribeCubeRun, pbs: &Vec<Json>) -> (f: Vec<(String, Json)>)
    ensures
        fields_view(f@) == profile_fields(*run, items_view(pbs@)),
{
    let lang = run.lang;
    let names = collect_label_pairs(pbs, "name", "nameLang");
    let descriptions = collect_label_pairs(pbs, "description", "descriptionLang");
    let name = choose_label(names.as_slice(), Some(lang));
    let description = choose_label(descriptions.as_slice(), Some(lang));
    let observations = max_parsed_of(pbs, "observations");
    let status = first_field_of(pbs, "status");
    let version = crate::scope::version_of(run.cube.as_str());
    let mut f: Vec<(String, Json)> = Vec::new();
    push_field(&mut f, "cube", jstr(run.cube.as_str()));
    push_field(&mut f, "name", match &name { Some(x) => Json::Str(x.0.clone()), None => Json::Null });
    push_field(&mut f, "name_lang", match &name { Some(x) => Json::Str(x.1.clone()), None => Json::Null });
    push_field(&mut f, "description", match &description { Some(x) => Json::Str(x.0.clone()), None => Json::Null });
    push_field(&mut f, "description_lang", match &description { Some(x) => Json::Str(x.1.clone()), None => Json::Null });
    push_field(&mut f, "family", match crate::scope::family_of(run.cube.as_str()) { Some(x) => jstr(x), None => Json::Null });
    push_field(&mut f, "version", jopt(&version));
    push_field(&mut f, "versioned", Json::Bool(version.is_some()));
    push_field(&mut f, "publisher", jopt(&first_field_of(pbs, "publisher")));
    push_field(&mut f, "theme", jopt(&first_field_of(pbs, "theme")));
    push_field(&mut f, "viewer", jopt(&first_field_of(pbs, "viewer")));
    push_field(&mut f, "dates", dates_of(pbs));
    push_field(&mut f, "status", jopt(&status));
    push_field(&mut f, "status_unset", Json::Bool(status.is_none()));
    push_field(&mut f, "observations", Json::Num(observations));
    push_field(&mut f, "placeholder", Json::Bool(observations == 0));
    assert(fields_view(f@) =~= profile_fields(*run, items_view(pbs@)));
    f
}

fn shape_fields_of(ctx: &Ctx, run: &DescribeCubeRun, preply: &Reply, sbs: &Vec<Json>, xbs: &Vec<Json>) -> (f: Vec<(String, Json)>)
    ensures
        fields_view(f@) == shape_fields(*ctx, *run, *preply, items_view(sbs@), items_view(xbs@)),
{
    let shape = collect_shape(sbs);
    let page = dims_page_of(&shape, run.offset, run.limit, run.lang);
    let returned = page.len();
    let total = shape.len();
    let sample = texts(xbs, "p");
    let undeclared = undeclared_of(&sample, &shape);
    let mut f: Vec<(String, Json)> = Vec::new();
    push_field(&mut f, "dimensions", crate::json::arr(page));
    push_field(&mut f, "dimensions_total", Json::Num(total as u64));
    push_field(&mut f, "limit", Json::Num(run.limit as u64));
    push_field(&mut f, "offset", Json::Num(run.offset as u64));
    push_field(&mut f, "returned", Json::Num(returned as u64));
    push_field(&mut f, "truncated", Json::Bool(crate::tools::is_truncated(run.offset, returned, total)));
    push_field(&mut f, "declared_only", Json::Bool(true));
    push_field(&mut f, "carried_predicates_sample", jstrs(&sample));
    push_field(&mut f, "undeclared_in_sample", jstrs(&undeclared));
    push_field(&mut f, "sampled", Json::Bool(true));
    push_field(&mut f, "note", jstr(DESCRIBE_CUBE_NOTE));
    push_field(&mut f, "kind", jstr("norm"));
    push_field(&mut f, "provenance", provenance(ctx, preply, run.query.as_str()));
    assert(dims_view(shape@).len() == total);
    assert(fields_view(f@) =~= shape_fields(*ctx, *run, *preply, items_view(sbs@), items_view(xbs@)));
    f
}

fn describe_cube_answer_of(ctx: &Ctx, run: &DescribeCubeRun, preply: &Reply, pbs: &Vec<Json>, sbs: &Vec<Json>, xbs: &Vec<Json>) -> (j: Json)
    ensures
        j@ == describe_cube_answer(*ctx, *run, *preply, items_view(pbs@), items_view(sbs@), items_view(xbs@)),
{
    let mut f = profile_fields_of(run, pbs);
    let mut tail = shape_fields_of(ctx, run, preply, sbs, xbs);
    let ghost a = f@;
    let ghost b = tail@;
    f.append(&mut tail);
    assert(f@ == a + b);
    assert(fields_view(f@) =~= fields_view(a) + fields_view(b));
    obj(f)
}

impl DescribeCubeRun {
    /// The next step: the shape request once the profile is back, the
    /// sample request once the shape is, the answer once the sample is.
    pub fn resume(self, ctx: &Ctx, event: Event) -> (s: Step<DescribeCubeRun>)
        ensures
            match event {
                Err(text) => s matches Step::Done(j) && j@ == backend_refusal_spec(text@),
                Ok(reply) => match bindings_spec(reply.value@) {
                    None => s matches Step::Done(j) && j@ == no_bindings(),
                    Some(bs) => match (self.profile, self.shape) {
                        (None, _) => s matches Step::Ask(run, req) && run.cube == self.cube && run.lang == self.lang
                            && run.limit == self.limit && run.offset == self.offset && run.query == self.query
                            && run.profile == Some(reply) && run.shape is None
                            && req.key@ == "describe_cube:shape:"@ + self.cube@ + ":"@ + self.lang@
                            && req.query@ == shape_query_spec(self.cube@) && !req.wide,
                        (Some(preply), None) => s matches Step::Ask(run, req) && run.cube == self.cube && run.lang == self.lang
                            && run.limit == self.limit && run.offset == self.offset && run.query == self.query
                            && run.profile == Some(preply) && run.shape == Some(reply)
                            && req.key@ == "describe_cube:sample:"@ + self.cube@
                            && req.query@ == sample_query_spec(self.cube@) && !req.wide,
                        (Some(preply), Some(sreply)) => match (bindings_spec(preply.value@), bindings_spec(sreply.value@)) {
                            (Some(pbs), Some(sbs)) => s matches Step::Done(j) && j@ == describe_cube_answer(*ctx, self, preply, pbs, sbs, bs),
                            _ => s matches Step::Done(j) && j@ == no_bindings(),
                        },
                    },
                },
            },
    {
        let reply = match event {
            Err(text) => { return Step::Done(backend_refusal(text.as_str())); },
            Ok(r) => r,
        };
        let xbs = match bindings(&reply.value) {
            Ok(b) => b,
            Err(e) => { return Step::Done(upstream(e.as_str())); },
        };
        match (&self.profile, &self.shape) {
            (None, _) => {
                let mut key = String::from_str("describe_cube:shape:");
                key.append(self.cube.as_str());
                key.append(":");
                key.append(self.lang);
                let req = Request { key, query: shape_query(self.cube.as_str()), wide: false };
                Step::Ask(DescribeCubeRun {
                    cube: self.cube, lang: self.lang, limit: self.limit, offset: self.offset, query: self.query,
                    profile: Some(reply), shape: None,
                }, req)
            },
            (Some(_), None) => {
                let mut key = String::from_str("describe_cube:sample:");
                key.append(self.cube.as_str());
                let req = Request { key, query: sample_query(self.cube.as_str()), wide: false };
                Step::Ask(DescribeCubeRun {
                    cube: self.cube, lang: self.lang, limit: self.limit, offset: self.offset, query: self.query,
                    profile: self.profile, shape: Some(reply),
                }, req)
            },
            (Some(preply), Some(sreply)) => {
                let pbs = match bindings(&preply.value) {
                    Ok(b) => b,
                    Err(e) => { return Step::Done(upstream(e.as_str())); },
                };
                let sbs = match bindings(&sreply.value) {
                    Ok(b) => b,
                    Err(e) => { return Step::Done(upstream(e.as_str())); },
                };
                Step::Done(describe_cube_answer_of(ctx, &self, preply, pbs, sbs, xbs))
            },
        }
    }
}

} // verus!

verus! {

// --- dimension_values ---------------------------------------------------------

pub const ENUM_NOTE: &'static str = "the shape closes this dimension with sh:in: the values come from that list, not from a scan of the observations, so «observations» is null per value";

/// A member of an `sh:in` list with its labels.
pub open spec fn member_keys(acc: Seq<(Seq<char>, Seq<(Seq<char>, Seq<char>)>)>) -> Seq<Seq<char>> {
    acc.map_values(|m: (Seq<char>, Seq<(Seq<char>, Seq<char>)>)| m.0)
}

/// `acc` with the member a binding names and the label it carries.
pub open spec fn add_member(acc: Seq<(Seq<char>, Seq<(Seq<char>, Seq<char>)>)>, b: JsonV) -> Seq<(Seq<char>, Seq<(Seq<char>, Seq<char>)>)> {
    match text_spec(b, "value"@) {
        None => acc,
        Some(v) => {
            let k = crate::text::pos_in(member_keys(acc), v);
            let acc1 = if k == acc.len() {
                acc.push((v, Seq::empty()))
            } else {
                acc
            };
            acc1.update(k, (acc1[k].0, crate::domain::with_label(acc1[k].1, b, "label"@, "labelLang"@)))
        },
    }
}

/// The members of an enumeration, each once, in first-seen order.
pub open spec fn fold_members(bs: Seq<JsonV>) -> Seq<(Seq<char>, Seq<(Seq<char>, Seq<char>)>)>
    decreases bs.len(),
{
    if bs.len() == 0 {
        Seq::empty()
    } else {
        add_member(fold_members(bs.drop_last()), bs.last())
    }
}

pub open spec fn members_view(v: Seq<(String, Vec<(String, String)>)>) -> Seq<(Seq<char>, Seq<(Seq<char>, Seq<char>)>)> {
    v.map_values(|m: (String, Vec<(String, String)>)| (m.0@, crate::domain::pairs_view(m.1@)))
}

fn add_member_of(acc: &mut Vec<(String, Vec<(String, String)>)>, b: &Json)
    ensures
        members_view(final(acc)@) == add_member(members_view(old(acc)@), b@),
{
    let v = match text(b, "value") {
        Some(v) => v,
        None => { return; },
    };
    let ghost old_v = members_view(acc@);
    let ghost keys = member_keys(old_v);
    let mut k: usize = 0;
    let mut found = false;
    while !found && k < acc.len()
        invariant
            0 <= k <= acc@.len(),
            acc@ == old(acc)@,
            old_v == members_view(acc@),
            keys == member_keys(old_v),
            forall|j: int| 0 <= j < k ==> #[trigger] keys[j] != v@,
            found ==> k < acc@.len() && keys[k as int] == v@,
        decreases acc@.len() - k + (if found { 0int } else { 1int }),
    {
        if crate::text::str_eq(acc[k].0.as_str(), v.as_str()) {
            found = true;
        } else {
            k = k + 1;
        }
    }
    proof {
        crate::text::lemma_pos_in(keys, v@, k as int);
    }
    if k == acc.len() {
        let ghost vv = v@;
        let labels: Vec<(String, String)> = Vec::new();
        assert(crate::domain::pairs_view(labels@) =~= Seq::empty());
        acc.push((v, labels));
        assert(members_view(acc@) =~= old_v.push((vv, Seq::empty())));
    }
    let ghost mid = members_view(acc@);
    crate::domain::add_label(&mut acc[k].1, b, "label", "labelLang");
    assert(members_view(acc@) =~= mid.update(k as int, (mid[k as int].0, crate::domain::with_label(mid[k as int].1, b@, "label"@, "labelLang"@))));
}

fn collect_members(bs: &Vec<Json>) -> (r: Vec<(String, Vec<(String, String)>)>)
    ensures
        members_view(r@) == fold_members(items_view(bs@)),
{
    let ghost items = items_view(bs@);
    let mut r: Vec<(String, Vec<(String, String)>)> = Vec::new();
    let mut i: usize = 0;
    assert(members_view(r@) =~= Seq::empty());
    while i < bs.len()
        invariant
            0 <= i <= bs@.len(),
            items == items_view(bs@),
            members_view(r@) == fold_members(items.take(i as int)),
        decreases bs@.len() - i,
    {
        assert(items.take(i + 1).drop_last() =~= items.take(i as int));
        assert(items.take(i + 1).last() == bs@[i as int]@);
        add_member_of(&mut r, &bs[i]);
        i = i + 1;
    }
    assert(items.take(bs@.len() as int) =~= items);
    r
}

/// One member as `dimension_values` serves it.
pub open spec fn member_json(m: (Seq<char>, Seq<(Seq<char>, Seq<char>)>), lang: Seq<char>) -> JsonV {
    let label = choose_label_spec(m.1, Some(lang));
    JsonV::Obj(seq![
        ("value"@, JsonV::Str(m.0)),
        ("stated"@, JsonV::Bool(true)),
        ("form"@, JsonV::Str("iri"@)),
        ("label"@, opt_view(first_of(label))),
        ("label_lang"@, opt_view(second_of(label))),
        ("observations"@, JsonV::Null),
    ])
}

/// The key a value row is folded by: its lexical form, or for a cell that
/// is not stated, which of the forms it took.
pub open spec fn value_key(c: crate::domain::CellV) -> Seq<char> {
    match c.value {
        Some(v) => v,
        None => "not-stated:"@ + c.form,
    }
}

/// A value row: its key, its cell, its labels and its count.
pub open spec fn row_keys(acc: Seq<(Seq<char>, crate::domain::CellV, Seq<(Seq<char>, Seq<char>)>, u64)>) -> Seq<Seq<char>> {
    acc.map_values(|r: (Seq<char>, crate::domain::CellV, Seq<(Seq<char>, Seq<char>)>, u64)| r.0)
}

/// The count a binding answers, 0 when it answers none.
pub open spec fn count_in(b: JsonV) -> u64 {
    match text_spec(b, "observations"@) {
        Some(t) => match parse_u64_spec(t) {
            Some(n) => n,
            None => 0,
        },
        None => 0,
    }
}

/// `acc` with the value a binding carries: the first cell of a key stays,
/// labels join, the largest count wins (an aggregate may answer a key twice).
pub open spec fn add_value(acc: Seq<(Seq<char>, crate::domain::CellV, Seq<(Seq<char>, Seq<char>)>, u64)>, b: JsonV) -> Seq<(Seq<char>, crate::domain::CellV, Seq<(Seq<char>, Seq<char>)>, u64)> {
    match crate::domain::cell_spec(b, "value"@) {
        None => acc,
        Some(c) => {
            let key = value_key(c);
            let k = crate::text::pos_in(row_keys(acc), key);
            let acc1 = if k == acc.len() {
                acc.push((key, c, Seq::empty(), 0u64))
            } else {
                acc
            };
            let e = acc1[k];
            let n = count_in(b);
            acc1.update(k, (e.0, e.1, crate::domain::with_label(e.2, b, "label"@, "labelLang"@), if n > e.3 { n } else { e.3 }))
        },
    }
}

/// The values of a dimension, each once, in the order the endpoint ranked them.
pub open spec fn fold_values(bs: Seq<JsonV>) -> Seq<(Seq<char>, crate::domain::CellV, Seq<(Seq<char>, Seq<char>)>, u64)>
    decreases bs.len(),
{
    if bs.len() == 0 {
        Seq::empty()
    } else {
        add_value(fold_values(bs.drop_last()), bs.last())
    }
}

/// A value row while it is folded.
pub struct ValueRow {
    pub key: String,
    pub cell: crate::domain::Cell,
    pub labels: Vec<(String, String)>,
    pub observations: u64,
}

pub open spec fn value_rows_view(v: Seq<ValueRow>) -> Seq<(Seq<char>, crate::domain::CellV, Seq<(Seq<char>, Seq<char>)>, u64)> {
    v.map_values(|r: ValueRow| (r.key@, r.cell@, crate::domain::pairs_view(r.labels@), r.observations))
}

fn value_key_of(c: &crate::domain::Cell) -> (r: String)
    ensures
        r@ == value_key(c@),
{
    match &c.value {
        Some(v) => v.clone(),
        None => {
            let mut k = String::from_str("not-stated:");
            k.append(c.form);
            k
        },
    }
}

fn add_value_of(acc: &mut Vec<ValueRow>, b: &Json)
    ensures
        value_rows_view(final(acc)@) == add_value(value_rows_view(old(acc)@), b@),
{
    let c = match crate::domain::cell(b, "value") {
        Some(c) => c,
        None => { return; },
    };
    let key = value_key_of(&c);
    let n: u64 = match text(b, "observations") {
        Some(t) => match parse_u64(t.as_str()) {
            Some(n) => n,
            None => 0,
        },
        None => 0,
    };
    let ghost old_v = value_rows_view(acc@);
    let ghost keys = row_keys(old_v);
    let mut k: usize = 0;
    let mut found = false;
    while !found && k < acc.len()
        invariant
            0 <= k <= acc@.len(),
            acc@ == old(acc)@,
            old_v == value_rows_view(acc@),
            keys == row_keys(old_v),
            forall|j: int| 0 <= j < k ==> #[trigger] keys[j] != key@,
            found ==> k < acc@.len() && keys[k as int] == key@,
        decreases acc@.len() - k + (if found { 0int } else { 1int }),
    {
        if crate::text::str_eq(acc[k].key.as_str(), key.as_str()) {
            found = true;
        } else {
            k = k + 1;
        }
    }
    proof {
        crate::text::lemma_pos_in(keys, key@, k as int);
    }
    if k == acc.len() {
        let ghost kv = key@;
        let ghost cv = c@;
        let labels: Vec<(String, String)> = Vec::new();
        assert(crate::domain::pairs_view(labels@) =~= Seq::empty());
        acc.push(ValueRow { key, cell: c, labels, observations: 0 });
        assert(value_rows_view(acc@) =~= old_v.push((kv, cv, Seq::empty(), 0u64)));
    }
    let ghost mid = value_rows_view(acc@);
    if n > acc[k].observations {
        acc[k].observations = n;
    }
    crate::domain::add_label(&mut acc[k].labels, b, "label", "labelLang");
    assert(value_rows_view(acc@) =~= mid.update(k as int, (mid[k as int].0, mid[k as int].1,
        crate::domain::with_label(mid[k as int].2, b@, "label"@, "labelLang"@),
        if n > mid[k as int].3 { n } else { mid[k as int].3 })));
}

fn collect_values(bs: &Vec<Json>) -> (r: Vec<ValueRow>)
    ensures
        value_rows_view(r@) == fold_values(items_view(bs@)),
{
    let ghost items = items_view(bs@);
    let mut r: Vec<ValueRow> = Vec::new();
    let mut i: usize = 0;
    assert(value_rows_view(r@) =~= Seq::empty());
    while i < bs.len()
        invariant
            0 <= i <= bs@.len(),
            items == items_view(bs@),
            value_rows_view(r@) == fold_values(items.take(i as int)),
        decreases bs@.len() - i,
    {
        assert(items.take(i + 1).drop_last() =~= items.take(i as int));
        assert(items.take(i + 1).last() == bs@[i as int]@);
        add_value_of(&mut r, &bs[i]);
        i = i + 1;
    }
    assert(items.take(bs@.len() as int) =~= items);
    r
}

/// One value as `dimension_values` serves it.
pub open spec fn value_json(r: (Seq<char>, crate::domain::CellV, Seq<(Seq<char>, Seq<char>)>, u64), lang: Seq<char>) -> JsonV {
    let label = choose_label_spec(r.2, Some(lang));
    JsonV::Obj(seq![
        ("value"@, opt_view(r.1.value)),
        ("stated"@, JsonV::Bool(r.1.stated)),
        ("form"@, JsonV::Str(r.1.form)),
        ("label"@, opt_view(first_of(label))),
        ("label_lang"@, opt_view(second_of(label))),
        ("observations"@, JsonV::Num(r.3)),
    ])
}

} // verus!

verus! {

pub open spec fn enum_query_spec(c: Seq<char>, dim: Seq<char>) -> Seq<char> {
    PREFIXES@ + "SELECT ?value ?label ?labelLang WHERE {\n<"@ + c
        + "> cube:observationConstraint ?shape . ?shape sh:property ?prop .\n?prop sh:path <"@ + dim
        + "> ; sh:in/rdf:rest*/rdf:first ?value .\nOPTIONAL { VALUES ?labelP { schema:name skos:prefLabel rdfs:label }\n?value ?labelP ?label . BIND(LANG(?label) AS ?labelLang) }\n} ORDER BY ?value"@
}

pub open spec fn values_query_spec(c: Seq<char>, dim: Seq<char>) -> Seq<char> {
    PREFIXES@ + "SELECT ?value ?label ?labelLang (COUNT(?obs) AS ?observations) WHERE {\n<"@ + c
        + "> cube:observationSet ?set . ?set cube:observation ?obs .\n?obs <"@ + dim
        + "> ?value .\nOPTIONAL { VALUES ?labelP { schema:name skos:prefLabel rdfs:label }\n?value ?labelP ?label . BIND(LANG(?label) AS ?labelLang) }\n} GROUP BY ?value ?label ?labelLang ORDER BY DESC(?observations) ?value"@
}

/// The request for the values of a dimension: the `sh:in` list when the
/// shape closes it, the observations otherwise.
pub open spec fn values_request(req: Request, c: Seq<char>, dim: Seq<char>, lang: Seq<char>, limit: nat, enumerated: bool) -> bool {
    &&& !req.wide
    &&& if enumerated {
        req.key@ == "dimension_values:enum:"@ + c + ":"@ + dim + ":"@ + lang
            && req.query@ == enum_query_spec(c, dim)
    } else {
        req.key@ == "dimension_values:"@ + c + ":"@ + dim + ":"@ + lang + ":"@ + crate::text::decimal(limit)
            && req.query@ == values_query_spec(c, dim)
    }
}

fn values_request_of(c: &str, dim: &str, lang: &str, limit: usize, enumerated: bool) -> (r: Request)
    ensures
        values_request(r, c@, dim@, lang@, limit as nat, enumerated),
{
    let mut q = String::from_str(PREFIXES);
    if enumerated {
        q.append("SELECT ?value ?label ?labelLang WHERE {\n<");
        q.append(c);
        q.append("> cube:observationConstraint ?shape . ?shape sh:property ?prop .\n?prop sh:path <");
        q.append(dim);
        q.append("> ; sh:in/rdf:rest*/rdf:first ?value .\nOPTIONAL { VALUES ?labelP { schema:name skos:prefLabel rdfs:label }\n?value ?labelP ?label . BIND(LANG(?label) AS ?labelLang) }\n} ORDER BY ?value");
        let mut key = String::from_str("dimension_values:enum:");
        key.append(c);
        key.append(":");
        key.append(dim);
        key.append(":");
        key.append(lang);
        Request { key, query: q, wide: false }
    } else {
        q.append("SELECT ?value ?label ?labelLang (COUNT(?obs) AS ?observations) WHERE {\n<");
        q.append(c);
        q.append("> cube:observationSet ?set . ?set cube:observation ?obs .\n?obs <");
        q.append(dim);
        q.append("> ?value .\nOPTIONAL { VALUES ?labelP { schema:name skos:prefLabel rdfs:label }\n?value ?labelP ?label . BIND(LANG(?label) AS ?labelLang) }\n} GROUP BY ?value ?label ?labelLang ORDER BY DESC(?observations) ?value");
        let mut key = String::from_str("dimension_values:");
        key.append(c);
        key.append(":");
        key.append(dim);
        key.append(":");
        key.append(lang);
        key.append(":");
        key.append(crate::text::fmt_u64(limit as u64).as_str());
        Request { key, query: q, wide: false }
    }
}

/// Where a `dimension_values` run stands.
pub enum ValuesPhase {
    /// The shape is out.
    Shape,
    /// The bound ASK for an undeclared dimension is out.
    Gate,
    /// The values are out: from the `sh:in` list or from the observations,
    /// and whether the dimension was admitted undeclared.
    Values { enumerated: bool, undeclared: bool },
}

/// The state `dimension_values` resumes from; `query` is the last query
/// sent.
pub struct DimensionValuesRun {
    pub cube: String,
    pub dimension: String,
    pub lang: &'static str,
    pub limit: usize,
    pub phase: ValuesPhase,
    pub query: String,
}

/// `[dimension]` when it was admitted undeclared, `[]` when declared.
pub open spec fn undeclared_list(dim: Seq<char>, undeclared: bool) -> Seq<Seq<char>> {
    if undeclared {
        seq![dim]
    } else {
        Seq::empty()
    }
}

/// The answer of `dimension_values` once the values are back.
pub open spec fn values_answer(ctx: Ctx, run: DimensionValuesRun, reply: Reply, bs: Seq<JsonV>, enumerated: bool, undeclared: bool) -> JsonV {
    let undeclared_dims = strs_view(undeclared_list(run.dimension@, undeclared));
    if enumerated {
        let ms = fold_members(bs);
        let rows = window(ms, 0, run.limit as nat).map_values(|m: (Seq<char>, Seq<(Seq<char>, Seq<char>)>)| member_json(m, run.lang@));
        JsonV::Obj(seq![
            ("cube"@, JsonV::Str(run.cube@)),
            ("dimension"@, JsonV::Str(run.dimension@)),
            ("values"@, JsonV::Arr(rows)),
            ("limit"@, JsonV::Num(run.limit as u64)),
            ("returned"@, JsonV::Num(rows.len() as u64)),
            ("total"@, JsonV::Num(ms.len() as u64)),
            ("truncated"@, JsonV::Bool(rows.len() < ms.len())),
            ("source"@, JsonV::Str("enumeration"@)),
            ("note"@, JsonV::Str(ENUM_NOTE@)),
            ("undeclared_dimensions"@, undeclared_dims),
            ("kind"@, JsonV::Str("hint"@)),
            ("provenance"@, provenance_spec(ctx, reply, run.query@)),
        ])
    } else {
        let vs = fold_values(bs);
        let rows = window(vs, 0, run.limit as nat).map_values(|r: (Seq<char>, crate::domain::CellV, Seq<(Seq<char>, Seq<char>)>, u64)| value_json(r, run.lang@));
        JsonV::Obj(seq![
            ("cube"@, JsonV::Str(run.cube@)),
            ("dimension"@, JsonV::Str(run.dimension@)),
            ("values"@, JsonV::Arr(rows)),
            ("limit"@, JsonV::Num(run.limit as u64)),
            ("returned"@, JsonV::Num(rows.len() as u64)),
            ("total"@, JsonV::Num(vs.len() as u64)),
            ("truncated"@, JsonV::Bool(rows.len() < vs.len())),
            ("source"@, JsonV::Str("observations"@)),
            ("undeclared_dimensions"@, undeclared_dims),
            ("kind"@, JsonV::Str("hint"@)),
            ("provenance"@, provenance_spec(ctx, reply, run.query@)),
        ])
    }
}

fn undeclared_json(dim: &str, undeclared: bool) -> (j: Json)
    ensures
        j@ == strs_view(undeclared_list(dim@, undeclared)),
{
    let mut v: Vec<String> = Vec::new();
    if undeclared {
        v.push(String::from_str(dim));
    }
    assert(views(v@) =~= undeclared_list(dim@, undeclared));
    jstrs(&v)
}

fn member_rows(ms: &Vec<(String, Vec<(String, String)>)>, limit: usize, lang: &str) -> (r: Vec<Json>)
    ensures
        items_view(r@) == window(members_view(ms@), 0, limit as nat).map_values(|m: (Seq<char>, Seq<(Seq<char>, Seq<char>)>)| member_json(m, lang@)),
{
    let ghost w = window(members_view(ms@), 0, limit as nat);
    let ghost rows = w.map_values(|m: (Seq<char>, Seq<(Seq<char>, Seq<char>)>)| member_json(m, lang@));
    let end: usize = if limit >= ms.len() { ms.len() } else { limit };
    let mut r: Vec<Json> = Vec::new();
    let mut i: usize = 0;
    while i < end
        invariant
            0 <= i <= end <= ms@.len(),
            end == (if limit >= ms@.len() { ms@.len() as int } else { limit as int }),
            w == window(members_view(ms@), 0, limit as nat),
            rows == w.map_values(|m: (Seq<char>, Seq<(Seq<char>, Seq<char>)>)| member_json(m, lang@)),
            w.len() == end,
            items_view(r@) == rows.take(i as int),
        decreases end - i,
    {
        assert(w[i as int] == members_view(ms@)[i as int]);
        let label = choose_label(ms[i].1.as_slice(), Some(lang));
        let mut f: Vec<(String, Json)> = Vec::new();
        push_field(&mut f, "value", jstr(ms[i].0.as_str()));
        push_field(&mut f, "stated", Json::Bool(true));
        push_field(&mut f, "form", jstr("iri"));
        push_field(&mut f, "label", match &label { Some(x) => Json::Str(x.0.clone()), None => Json::Null });
        push_field(&mut f, "label_lang", match &label { Some(x) => Json::Str(x.1.clone()), None => Json::Null });
        push_field(&mut f, "observations", Json::Null);
        assert(fields_view(f@) =~= match member_json(w[i as int], lang@) {
            JsonV::Obj(x) => x,
            _ => Seq::empty(),
        });
        crate::json::push_item(&mut r, obj(f));
        i = i + 1;
        assert(items_view(r@) =~= rows.take(i as int));
    }
    assert(rows.take(end as int) =~= rows);
    r
}

fn value_rows(vs: &Vec<ValueRow>, limit: usize, lang: &str) -> (r: Vec<Json>)
    ensures
        items_view(r@) == window(value_rows_view(vs@), 0, limit as nat).map_values(|x: (Seq<char>, crate::domain::CellV, Seq<(Seq<char>, Seq<char>)>, u64)| value_json(x, lang@)),
{
    let ghost w = window(value_rows_view(vs@), 0, limit as nat);
    let ghost rows = w.map_values(|x: (Seq<char>, crate::domain::CellV, Seq<(Seq<char>, Seq<char>)>, u64)| value_json(x, lang@));
    let end: usize = if limit >= vs.len() { vs.len() } else { limit };
    let mut r: Vec<Json> = Vec::new();
    let mut i: usize = 0;
    while i < end
        invariant
            0 <= i <= end <= vs@.len(),
            end == (if limit >= vs@.len() { vs@.len() as int } else { limit as int }),
            w == window(value_rows_view(vs@), 0, limit as nat),
            rows == w.map_values(|x: (Seq<char>, crate::domain::CellV, Seq<(Seq<char>, Seq<char>)>, u64)| value_json(x, lang@)),
            w.len() == end,
            items_view(r@) == rows.take(i as int),
        decreases end - i,
    {
        assert(w[i as int] == value_rows_view(vs@)[i as int]);
        let row = &vs[i];
        let label = choose_label(row.labels.as_slice(), Some(lang));
        let mut f: Vec<(String, Json)> = Vec::new();
        push_field(&mut f, "value", jopt(&row.cell.value));
        push_field(&mut f, "stated", Json::Bool(row.cell.stated));
        push_field(&mut f, "form", jstr(row.cell.form));
        push_field(&mut f, "label", match &label { Some(x) => Json::Str(x.0.clone()), None => Json::Null });
        push_field(&mut f, "label_lang", match &label { Some(x) => Json::Str(x.1.clone()), None => Json::Null });
        push_field(&mut f, "observations", Json::Num(row.observations));
        assert(fields_view(f@) =~= match value_json(w[i as int], lang@) {
            JsonV::Obj(x) => x,
            _ => Seq::empty(),
        });
        crate::json::push_item(&mut r, obj(f));
        i = i + 1;
        assert(items_view(r@) =~= rows.take(i as int));
    }
    assert(rows.take(end as int) =~= rows);
    r
}

fn values_answer_of(ctx: &Ctx, run: &DimensionValuesRun, reply: &Reply, bs: &Vec<Json>, enumerated: bool, undeclared: bool) -> (j: Json)
    ensures
        j@ == values_answer(*ctx, *run, *reply, items_view(bs@), enumerated, undeclared),
{
    let mut f: Vec<(String, Json)> = Vec::new();
    push_field(&mut f, "cube", jstr(run.cube.as_str()));
    push_field(&mut f, "dimension", jstr(run.dimension.as_str()));
    if enumerated {
        let ms = collect_members(bs);
        let rows = member_rows(&ms, run.limit, run.lang);
        let returned = rows.len();
        let total = ms.len();
        push_field(&mut f, "values", crate::json::arr(rows));
        push_field(&mut f, "limit", Json::Num(run.limit as u64));
        push_field(&mut f, "returned", Json::Num(returned as u64));
        push_field(&mut f, "total", Json::Num(total as u64));
        push_field(&mut f, "truncated", Json::Bool(returned < total));
        push_field(&mut f, "source", jstr("enumeration"));
        push_field(&mut f, "note", jstr(ENUM_NOTE));
        push_field(&mut f, "undeclared_dimensions", undeclared_json(run.dimension.as_str(), undeclared));
        push_field(&mut f, "kind", jstr("hint"));
        push_field(&mut f, "provenance", provenance(ctx, reply, run.query.as_str()));
        assert(members_view(ms@).len() == total);
        assert(fields_view(f@) =~= match values_answer(*ctx, *run, *reply, items_view(bs@), enumerated, undeclared) {
            JsonV::Obj(x) => x,
            _ => Seq::empty(),
        });
    } else {
        let vs = collect_values(bs);
        let rows = value_rows(&vs, run.limit, run.lang);
        let returned = rows.len();
        let total = vs.len();
        push_field(&mut f, "values", crate::json::arr(rows));
        push_field(&mut f, "limit", Json::Num(run.limit as u64));
        push_field(&mut f, "returned", Json::Num(returned as u64));
        push_field(&mut f, "total", Json::Num(total as u64));
        push_field(&mut f, "truncated", Json::Bool(returned < total));
        push_field(&mut f, "source", jstr("observations"));
        push_field(&mut f, "undeclared_dimensions", undeclared_json(run.dimension.as_str(), undeclared));
        push_field(&mut f, "kind", jstr("hint"));
        push_field(&mut f, "provenance", provenance(ctx, reply, run.query.as_str()));
        assert(value_rows_view(vs@).len() == total);
        assert(fields_view(f@) =~= match values_answer(*ctx, *run, *reply, items_view(bs@), enumerated, undeclared) {
            JsonV::Obj(x) => x,
            _ => Seq::empty(),
        });
    }
    obj(f)
}

/// `lindas.dimension_values` — the values one dimension takes: the shape
/// first, then (for an undeclared dimension) the bound ASK, then the values.
pub fn dimension_values(cube: &str, dimension: &str, lang: Option<&str>, limit: Option<u32>) -> (s: Step<DimensionValuesRun>)
    ensures
        ({
            let asked = match lang { Some(l) => l@, None => "de"@ };
            if !crate::domain::is_language(asked) {
                s matches Step::Done(j) && j@ == crate::domain::language_refusal(asked)
            } else {
                match crate::domain::served_cube_spec(cube@) {
                    Err(refusal) => s matches Step::Done(j) && j@ == refusal,
                    Ok(c) => match crate::backend::iri_safe_spec(dimension@) {
                        Err(e) => s matches Step::Done(j) && j@ == crate::domain::shaped("dimension: "@ + e,
                            crate::domain::DIMENSION_ACCEPTED@, crate::domain::DIMENSION_NOTE@),
                        Ok(d) => s matches Step::Ask(run, req) && run.cube@ == c
                            && run.dimension@ == crate::backend::normalised(d) && run.lang@ == asked
                            && run.limit == crate::domain::capped_spec(limit, crate::domain::MAX_VALUES as nat, 50)
                            && run.phase is Shape
                            && req.key@ == "describe_cube:shape:"@ + c + ":"@ + asked
                            && req.query@ == shape_query_spec(c) && run.query@ == req.query@ && !req.wide,
                    },
                }
            }
        }),
{
    let lang = match crate::domain::language(lang) {
        Ok(l) => l,
        Err(refusal) => { return Step::Done(refusal); },
    };
    let cube = match crate::domain::served_cube(cube) {
        Ok(c) => c,
        Err(refusal) => { return Step::Done(refusal); },
    };
    let dimension = match crate::backend::iri_safe(dimension) {
        Ok(d) => crate::backend::normalise_value(d.as_str()),
        Err(e) => {
            let mut d = String::from_str("dimension: ");
            d.append(e.as_str());
            return Step::Done(crate::domain::invalid_dimension_name(d.as_str()));
        },
    };
    let limit = crate::domain::capped(limit, crate::domain::MAX_VALUES, 50);
    let query = shape_query(cube.as_str());
    let mut key = String::from_str("describe_cube:shape:");
    key.append(cube.as_str());
    key.append(":");
    key.append(lang);
    let req = Request { key, query: query.clone(), wide: false };
    Step::Ask(DimensionValuesRun { cube, dimension, lang, limit, phase: ValuesPhase::Shape, query }, req)
}

impl DimensionValuesRun {
    /// The next step: after the shape, the values (declared) or the ASK
    /// (undeclared); after the ASK, the values or `not-found`; after the
    /// values, the answer.
    pub fn resume(self, ctx: &Ctx, event: Event) -> (s: Step<DimensionValuesRun>)
        ensures
            match event {
                Err(text) => s matches Step::Done(j) && j@ == backend_refusal_spec(text@),
                Ok(reply) => match self.phase {
                    ValuesPhase::Shape => match bindings_spec(reply.value@) {
                        None => s matches Step::Done(j) && j@ == no_bindings(),
                        Some(sbs) => {
                            let shape = fold_shape(sbs);
                            if declares(shape, self.dimension@) {
                                let enumerated = crate::shape::closes(shape, self.dimension@);
                                s matches Step::Ask(run, req) && run.cube == self.cube && run.dimension == self.dimension
                                    && run.lang == self.lang && run.limit == self.limit
                                    && run.phase == (ValuesPhase::Values { enumerated, undeclared: false })
                                    && values_request(req, self.cube@, self.dimension@, self.lang@, self.limit as nat, enumerated)
                                    && run.query@ == req.query@
                            } else {
                                s matches Step::Ask(run, req) && run.cube == self.cube && run.dimension == self.dimension
                                    && run.lang == self.lang && run.limit == self.limit && run.phase is Gate
                                    && crate::shape::gate_request(req, self.cube@, self.dimension@)
                                    && run.query@ == req.query@
                            }
                        },
                    },
                    ValuesPhase::Gate => match crate::shape::gate_answer_spec(reply.value@) {
                        Err(j0) => s matches Step::Done(j) && j@ == j0,
                        Ok(crate::shape::Gate::Undeclared) => s matches Step::Ask(run, req) && run.cube == self.cube
                            && run.dimension == self.dimension && run.lang == self.lang && run.limit == self.limit
                            && run.phase == (ValuesPhase::Values { enumerated: false, undeclared: true })
                            && values_request(req, self.cube@, self.dimension@, self.lang@, self.limit as nat, false)
                            && run.query@ == req.query@,
                        Ok(_) => s matches Step::Done(j) && j@ == crate::domain::not_found_dimension_spec(self.cube@, self.dimension@),
                    },
                    ValuesPhase::Values { enumerated, undeclared } => match bindings_spec(reply.value@) {
                        None => s matches Step::Done(j) && j@ == no_bindings(),
                        Some(bs) => s matches Step::Done(j) && j@ == values_answer(*ctx, self, reply, bs, enumerated, undeclared),
                    },
                },
            },
    {
        let reply = match event {
            Err(text) => { return Step::Done(backend_refusal(text.as_str())); },
            Ok(r) => r,
        };
        match self.phase {
            ValuesPhase::Shape => {
                let sbs = match bindings(&reply.value) {
                    Ok(b) => b,
                    Err(e) => { return Step::Done(upstream(e.as_str())); },
                };
                let shape = collect_shape(sbs);
                match crate::shape::dimension_gate(self.cube.as_str(), self.dimension.as_str(), &shape) {
                    None => {
                        let enumerated = crate::shape::is_enumerated(&shape, self.dimension.as_str());
                        let req = values_request_of(self.cube.as_str(), self.dimension.as_str(), self.lang, self.limit, enumerated);
                        let query = req.query.clone();
                        Step::Ask(DimensionValuesRun {
                            cube: self.cube, dimension: self.dimension, lang: self.lang, limit: self.limit,
                            phase: ValuesPhase::Values { enumerated, undeclared: false }, query,
                        }, req)
                    },
                    Some(req) => {
                        let query = req.query.clone();
                        Step::Ask(DimensionValuesRun {
                            cube: self.cube, dimension: self.dimension, lang: self.lang, limit: self.limit,
                            phase: ValuesPhase::Gate, query,
                        }, req)
                    },
                }
            },
            ValuesPhase::Gate => {
                match crate::shape::gate_answer(&reply.value) {
                    Err(j) => Step::Done(j),
                    Ok(crate::shape::Gate::Undeclared) => {
                        let req = values_request_of(self.cube.as_str(), self.dimension.as_str(), self.lang, self.limit, false);
                        let query = req.query.clone();
                        Step::Ask(DimensionValuesRun {
                            cube: self.cube, dimension: self.dimension, lang: self.lang, limit: self.limit,
                            phase: ValuesPhase::Values { enumerated: false, undeclared: true }, query,
                        }, req)
                    },
                    Ok(_) => Step::Done(crate::domain::not_found_dimension(self.cube.as_str(), self.dimension.as_str())),
                }
            },
            ValuesPhase::Values { enumerated, undeclared } => {
                let bs = match bindings(&reply.value) {
                    Ok(b) => b,
                    Err(e) => { return Step::Done(upstream(e.as_str())); },
                };
                Step::Done(values_answer_of(ctx, &self, &reply, bs, enumerated, undeclared))
            },
        }
    }
}

} // verus!
