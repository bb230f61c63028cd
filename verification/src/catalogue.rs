//! What the served cubes say about themselves: names, descriptions,
//! publication states and observation counts, folded from the bindings of
//! two bound queries, and the three tools that serve them (`list_cubes`,
//! `list_versions`, `find_cube`).

use vstd::prelude::*;
use vstd::string::StringExecFns;

use crate::backend::{bindings, bindings_spec, Event, Reply, Request};
use crate::domain::{
    backend_refusal, backend_refusal_spec, choose_label, choose_label_spec, or_empty, pairs_view,
    provenance, provenance_spec, text, text_spec, upstream, values_block, values_block_spec,
    with_label, Ctx, PREFIXES,
};
use crate::json::{fields_view, items_view, jopt, jstr, obj, opt_view, push_field, Json, JsonV};
use crate::text::{parse_u64, parse_u64_spec, str_eq, views};
use crate::tools::{first_of, second_of, truncated, Step};

verus! {

// --- folding the profile bindings ------------------------------------------

/// The distinct `(lang, text)` pairs of the bindings that carry `key` under
/// `key_var` and carry `need` at all, in first-seen order.
pub open spec fn labels_keyed(bs: Seq<JsonV>, key_var: Seq<char>, key: Seq<char>, need: Seq<char>, label_var: Seq<char>, lang_var: Seq<char>) -> Seq<(Seq<char>, Seq<char>)>
    decreases bs.len(),
{
    if bs.len() == 0 {
        Seq::empty()
    } else {
        let acc = labels_keyed(bs.drop_last(), key_var, key, need, label_var, lang_var);
        if text_spec(bs.last(), key_var) == Some(key) && text_spec(bs.last(), need) is Some {
            with_label(acc, bs.last(), label_var, lang_var)
        } else {
            acc
        }
    }
}

fn carries(b: &Json, key_var: &str, key: &str, need: &str) -> (r: bool)
    ensures
        r == (text_spec(b@, key_var@) == Some(key@) && text_spec(b@, need@) is Some),
{
    match text(b, key_var) {
        Some(k) => str_eq(k.as_str(), key) && text(b, need).is_some(),
        None => false,
    }
}

pub fn labels_keyed_of(bs: &Vec<Json>, key_var: &str, key: &str, need: &str, label_var: &str, lang_var: &str) -> (r: Vec<(String, String)>)
    ensures
        pairs_view(r@) == labels_keyed(items_view(bs@), key_var@, key@, need@, label_var@, lang_var@),
{
    let ghost items = items_view(bs@);
    let mut r: Vec<(String, String)> = Vec::new();
    let mut i: usize = 0;
    assert(pairs_view(r@) =~= Seq::empty());
    while i < bs.len()
        invariant
            0 <= i <= bs@.len(),
            items == items_view(bs@),
            pairs_view(r@) == labels_keyed(items.take(i as int), key_var@, key@, need@, label_var@, lang_var@),
        decreases bs@.len() - i,
    {
        assert(items.take(i + 1).drop_last() =~= items.take(i as int));
        assert(items.take(i + 1).last() == bs@[i as int]@);
        if carries(&bs[i], key_var, key, need) {
            crate::domain::add_label(&mut r, &bs[i], label_var, lang_var);
        }
        i = i + 1;
    }
    assert(items.take(bs@.len() as int) =~= items);
    r
}

/// The state the last binding of `cube` that carries one names.
pub open spec fn status_for(bs: Seq<JsonV>, cube: Seq<char>) -> Option<Seq<char>>
    decreases bs.len(),
{
    if bs.len() == 0 {
        None
    } else if text_spec(bs.last(), "cube"@) == Some(cube) && text_spec(bs.last(), "status"@) is Some {
        text_spec(bs.last(), "status"@)
    } else {
        status_for(bs.drop_last(), cube)
    }
}

pub fn status_of(bs: &Vec<Json>, cube: &str) -> (r: Option<String>)
    ensures
        crate::domain::opt_seq(r) == status_for(items_view(bs@), cube@),
{
    let ghost items = items_view(bs@);
    let mut last: Option<String> = None;
    let mut i: usize = 0;
    while i < bs.len()
        invariant
            0 <= i <= bs@.len(),
            items == items_view(bs@),
            crate::domain::opt_seq(last) == status_for(items.take(i as int), cube@),
        decreases bs@.len() - i,
    {
        assert(items.take(i + 1).drop_last() =~= items.take(i as int));
        assert(items.take(i + 1).last() == bs@[i as int]@);
        if carries(&bs[i], "cube", cube, "status") {
            last = text(&bs[i], "status");
        }
        i = i + 1;
    }
    assert(items.take(bs@.len() as int) =~= items);
    last
}

/// The observation count of `cube`: the largest count any binding of it
/// answers (an aggregate may answer a key twice), 0 when none does.
pub open spec fn count_for(bs: Seq<JsonV>, cube: Seq<char>) -> u64
    decreases bs.len(),
{
    if bs.len() == 0 {
        0
    } else {
        let prev = count_for(bs.drop_last(), cube);
        if text_spec(bs.last(), "cube"@) == Some(cube) && text_spec(bs.last(), "observations"@) is Some {
            let n = match parse_u64_spec(text_spec(bs.last(), "observations"@)->0) {
                Some(n) => n,
                None => 0,
            };
            if n > prev {
                n
            } else {
                prev
            }
        } else {
            prev
        }
    }
}

pub fn count_of(bs: &Vec<Json>, cube: &str) -> (r: u64)
    ensures
        r == count_for(items_view(bs@), cube@),
{
    let ghost items = items_view(bs@);
    let mut best: u64 = 0;
    let mut i: usize = 0;
    while i < bs.len()
        invariant
            0 <= i <= bs@.len(),
            items == items_view(bs@),
            best == count_for(items.take(i as int), cube@),
        decreases bs@.len() - i,
    {
        assert(items.take(i + 1).drop_last() =~= items.take(i as int));
        assert(items.take(i + 1).last() == bs@[i as int]@);
        if carries(&bs[i], "cube", cube, "observations") {
            let n = match text(&bs[i], "observations") {
                Some(t) => match parse_u64(t.as_str()) {
                    Some(n) => n,
                    None => 0,
                },
                None => 0,
            };
            if n > best {
                best = n;
            }
        }
        i = i + 1;
    }
    assert(items.take(bs@.len() as int) =~= items);
    best
}

// --- one cube as the listings serve it ----------------------------------

/// The label chosen among the labels `key` carries under `key_var`.
pub open spec fn chosen(bs: Seq<JsonV>, key_var: Seq<char>, key: Seq<char>, label_var: Seq<char>, lang_var: Seq<char>, lang: Seq<char>) -> Option<(Seq<char>, Seq<char>)> {
    choose_label_spec(labels_keyed(bs, key_var, key, "cube"@, label_var, lang_var), Some(lang))
}

/// The label of the state `cube` carries, when it carries one.
pub open spec fn status_label(bs: Seq<JsonV>, cube: Seq<char>, lang: Seq<char>) -> Option<(Seq<char>, Seq<char>)> {
    match status_for(bs, cube) {
        Some(s) => chosen(bs, "status"@, s, "statusLabel"@, "statusLabelLang"@, lang),
        None => None,
    }
}

/// One cube as `list_cubes` serves it, from the profile bindings `pbs` and
/// the count bindings `cbs`.
pub open spec fn profile_row(pbs: Seq<JsonV>, cbs: Seq<JsonV>, cube: Seq<char>, lang: Seq<char>) -> JsonV {
    let name = chosen(pbs, "cube"@, cube, "name"@, "nameLang"@, lang);
    let description = chosen(pbs, "cube"@, cube, "description"@, "descriptionLang"@, lang);
    let status = status_for(pbs, cube);
    let label = status_label(pbs, cube, lang);
    let observations = count_for(cbs, cube);
    JsonV::Obj(seq![
        ("cube"@, JsonV::Str(cube)),
        ("name"@, opt_view(first_of(name))),
        ("name_lang"@, opt_view(second_of(name))),
        ("description"@, opt_view(first_of(description))),
        ("description_lang"@, opt_view(second_of(description))),
        ("family"@, opt_view(crate::scope::family_spec(cube))),
        ("version"@, opt_view(crate::scope::version_spec(cube))),
        ("versioned"@, JsonV::Bool(crate::scope::version_spec(cube) is Some)),
        ("status"@, opt_view(status)),
        ("status_label"@, opt_view(first_of(label))),
        ("status_label_lang"@, opt_view(second_of(label))),
        ("status_unset"@, JsonV::Bool(status is None)),
        ("observations"@, JsonV::Num(observations)),
        ("placeholder"@, JsonV::Bool(observations == 0)),
    ])
}

fn label_text(l: &Option<(String, String)>) -> (r: Json)
    ensures
        r@ == opt_view(first_of(crate::tools::pair_view(*l))),
{
    match l {
        Some(x) => Json::Str(x.0.clone()),
        None => Json::Null,
    }
}

fn label_lang(l: &Option<(String, String)>) -> (r: Json)
    ensures
        r@ == opt_view(second_of(crate::tools::pair_view(*l))),
{
    match l {
        Some(x) => Json::Str(x.1.clone()),
        None => Json::Null,
    }
}

fn static_opt(o: Option<&'static str>) -> (r: Json)
    ensures
        r@ == opt_view(match o { Some(s) => Some(s@), None => None }),
{
    match o {
        Some(s) => jstr(s),
        None => Json::Null,
    }
}

fn chosen_of(bs: &Vec<Json>, key_var: &str, key: &str, label_var: &str, lang_var: &str, lang: &str) -> (r: Option<(String, String)>)
    ensures
        crate::tools::pair_view(r) == chosen(items_view(bs@), key_var@, key@, label_var@, lang_var@, lang@),
{
    let found = labels_keyed_of(bs, key_var, key, "cube", label_var, lang_var);
    choose_label(found.as_slice(), Some(lang))
}

pub fn profile_row_of(pbs: &Vec<Json>, cbs: &Vec<Json>, cube: &str, lang: &str) -> (j: Json)
    ensures
        j@ == profile_row(items_view(pbs@), items_view(cbs@), cube@, lang@),
{
    let name = chosen_of(pbs, "cube", cube, "name", "nameLang", lang);
    let description = chosen_of(pbs, "cube", cube, "description", "descriptionLang", lang);
    let status = status_of(pbs, cube);
    let label = match &status {
        Some(s) => chosen_of(pbs, "status", s.as_str(), "statusLabel", "statusLabelLang", lang),
        None => None,
    };
    let observations = count_of(cbs, cube);
    let version = crate::scope::version_of(cube);
    let versioned = version.is_some();
    let mut f: Vec<(String, Json)> = Vec::new();
    push_field(&mut f, "cube", jstr(cube));
    push_field(&mut f, "name", label_text(&name));
    push_field(&mut f, "name_lang", label_lang(&name));
    push_field(&mut f, "description", label_text(&description));
    push_field(&mut f, "description_lang", label_lang(&description));
    push_field(&mut f, "family", static_opt(crate::scope::family_of(cube)));
    push_field(&mut f, "version", jopt(&version));
    push_field(&mut f, "versioned", Json::Bool(versioned));
    push_field(&mut f, "status", jopt(&status));
    push_field(&mut f, "status_label", label_text(&label));
    push_field(&mut f, "status_label_lang", label_lang(&label));
    push_field(&mut f, "status_unset", Json::Bool(status.is_none()));
    push_field(&mut f, "observations", Json::Num(observations));
    push_field(&mut f, "placeholder", Json::Bool(observations == 0));
    assert(fields_view(f@) =~= match profile_row(items_view(pbs@), items_view(cbs@), cube@, lang@) {
        JsonV::Obj(x) => x,
        _ => Seq::empty(),
    });
    obj(f)
}

// --- the two bound queries ------------------------------------------------

pub open spec fn profiles_query_spec(cubes: Seq<Seq<char>>) -> Seq<char> {
    PREFIXES@ + "SELECT ?cube ?name ?nameLang ?description ?descriptionLang ?status ?statusLabel ?statusLabelLang WHERE {\n"@
        + values_block_spec("cube"@, cubes)
        + "\nOPTIONAL { ?cube schema:name ?name . BIND(LANG(?name) AS ?nameLang) }\nOPTIONAL { ?cube schema:description ?description . BIND(LANG(?description) AS ?descriptionLang) }\nOPTIONAL { ?cube schema:creativeWorkStatus ?status .\nOPTIONAL { VALUES ?labelP { schema:name skos:prefLabel rdfs:label }\n?status ?labelP ?statusLabel . BIND(LANG(?statusLabel) AS ?statusLabelLang) } }\n}"@
}

/// One bound query for the metadata of a set of cubes.
pub fn profiles_query(cubes: &[String]) -> (r: String)
    ensures
        r@ == profiles_query_spec(views(cubes@)),
{
    let mut q = String::from_str(PREFIXES);
    q.append("SELECT ?cube ?name ?nameLang ?description ?descriptionLang ?status ?statusLabel ?statusLabelLang WHERE {\n");
    q.append(values_block("cube", cubes).as_str());
    q.append("\nOPTIONAL { ?cube schema:name ?name . BIND(LANG(?name) AS ?nameLang) }\nOPTIONAL { ?cube schema:description ?description . BIND(LANG(?description) AS ?descriptionLang) }\nOPTIONAL { ?cube schema:creativeWorkStatus ?status .\nOPTIONAL { VALUES ?labelP { schema:name skos:prefLabel rdfs:label }\n?status ?labelP ?statusLabel . BIND(LANG(?statusLabel) AS ?statusLabelLang) } }\n}");
    q
}

pub open spec fn counts_query_spec(cubes: Seq<Seq<char>>) -> Seq<char> {
    PREFIXES@ + "SELECT ?cube (COUNT(?obs) AS ?observations) WHERE {\n"@ + values_block_spec("cube"@, cubes)
        + "\n?cube cube:observationSet ?set . ?set cube:observation ?obs .\n} GROUP BY ?cube"@
}

/// One bound query for the observation counts of a set of cubes.
pub fn counts_query(cubes: &[String]) -> (r: String)
    ensures
        r@ == counts_query_spec(views(cubes@)),
{
    let mut q = String::from_str(PREFIXES);
    q.append("SELECT ?cube (COUNT(?obs) AS ?observations) WHERE {\n");
    q.append(values_block("cube", cubes).as_str());
    q.append("\n?cube cube:observationSet ?set . ?set cube:observation ?obs .\n} GROUP BY ?cube");
    q
}

} // verus!

verus! {

// --- list_cubes -------------------------------------------------------------

/// The cubes of a family, all of them without one, `None` for a name that
/// is none of the four.
pub open spec fn family_cubes(family: Option<Seq<char>>) -> Option<Seq<Seq<char>>> {
    match family {
        None => Some(crate::scope::all_iris()),
        Some(f) => if crate::scope::family_names().contains(f) {
            Some(crate::scope::family_members(crate::scope::paths(), f))
        } else {
            None
        },
    }
}

/// The part of `s` a page of `limit` items from `offset` covers.
pub open spec fn window<A>(s: Seq<A>, offset: nat, limit: nat) -> Seq<A> {
    if offset >= s.len() {
        Seq::empty()
    } else if offset + limit >= s.len() {
        s.subrange(offset as int, s.len() as int)
    } else {
        s.subrange(offset as int, (offset + limit) as int)
    }
}

pub const FAMILY_ACCEPTED: &'static str = "fc | fch/apg | national-council-election | political-rights";
pub const FAMILY_NOTE: &'static str = "the four families of the served scope (C0.3); lindas.list_cubes without a family serves all 44 and says which family each belongs to. This refusal costs no request";

/// The refusal for a family name that is none of the four.
pub open spec fn family_refusal(f: Seq<char>) -> JsonV {
    crate::domain::shaped("family «"@ + f + "» is none of the four"@, FAMILY_ACCEPTED@, FAMILY_NOTE@)
}

/// The state `list_cubes` resumes from: what it was asked, and — once the
/// profiles are back — the reply that carried them.
pub struct ListCubesRun {
    pub family: Option<String>,
    pub lang: &'static str,
    pub cubes: Vec<String>,
    pub limit: usize,
    pub offset: usize,
    pub query: String,
    pub profiles: Option<Reply>,
}

/// The page `list_cubes` serves once both answers are back.
pub open spec fn list_cubes_answer(ctx: Ctx, run: ListCubesRun, preply: Reply, pbs: Seq<JsonV>, cbs: Seq<JsonV>) -> JsonV {
    let cubes = views(run.cubes@);
    let rows = window(cubes, run.offset as nat, run.limit as nat).map_values(|c: Seq<char>| profile_row(pbs, cbs, c, run.lang@));
    JsonV::Obj(seq![
        ("cubes"@, JsonV::Arr(rows)),
        ("family"@, opt_view(crate::domain::opt_seq(run.family))),
        ("limit"@, JsonV::Num(run.limit as u64)),
        ("offset"@, JsonV::Num(run.offset as u64)),
        ("returned"@, JsonV::Num(rows.len() as u64)),
        ("total"@, JsonV::Num(cubes.len() as u64)),
        ("truncated"@, JsonV::Bool(truncated(run.offset as nat, rows.len(), cubes.len()))),
        ("kind"@, JsonV::Str("norm"@)),
        ("provenance"@, provenance_spec(ctx, preply, run.query@)),
    ])
}

/// The key of a profile request.
pub open spec fn profiles_key(scope_name: Seq<char>, lang: Seq<char>) -> Seq<char> {
    "list_cubes:"@ + scope_name + ":"@ + lang
}

/// `lindas.list_cubes` — the served scope, and what each cube says about
/// itself: first the profiles, then the observation counts.
pub fn list_cubes(family: Option<&str>, lang: Option<&str>, limit: Option<u32>, offset: Option<u32>) -> (s: Step<ListCubesRun>)
    ensures
        ({
            let asked = match lang { Some(l) => l@, None => "de"@ };
            let fam = match family { Some(f) => Some(f@), None => None };
            if !crate::domain::is_language(asked) {
                s matches Step::Done(j) && j@ == crate::domain::language_refusal(asked)
            } else {
                match family_cubes(fam) {
                    None => s matches Step::Done(j) && j@ == family_refusal(fam->0),
                    Some(cubes) => s matches Step::Ask(run, req)
                        && crate::domain::opt_seq(run.family) == fam && run.lang@ == asked
                        && views(run.cubes@) == cubes
                        && run.limit == crate::domain::capped_spec(limit, crate::domain::MAX_CUBES as nat, 50)
                        && run.offset == (match offset { Some(o) => o as nat, None => 0 })
                        && run.profiles is None
                        && req.key@ == profiles_key(match fam { Some(f) => f, None => "all"@ }, asked)
                        && req.query@ == profiles_query_spec(cubes) && run.query@ == req.query@ && !req.wide,
                }
            }
        }),
{
    let lang = match crate::domain::language(lang) {
        Ok(l) => l,
        Err(refusal) => { return Step::Done(refusal); },
    };
    let cubes = match crate::scope::of_family(family) {
        Some(c) => c,
        None => {
            let f = match family { Some(f) => f, None => "" };
            let mut d = String::from_str("family «");
            d.append(f);
            d.append("» is none of the four");
            return Step::Done(crate::domain::refusal_with_shape(d.as_str(), FAMILY_ACCEPTED, FAMILY_NOTE));
        },
    };
    let scope_name: &str = match family { Some(f) => f, None => "all" };
    let query = profiles_query(cubes.as_slice());
    let mut key = String::from_str("list_cubes:");
    key.append(scope_name);
    key.append(":");
    key.append(lang);
    let limit = crate::domain::capped(limit, crate::domain::MAX_CUBES, 50);
    let offset: usize = match offset { Some(o) => o as usize, None => 0 };
    let fam: Option<String> = match family { Some(f) => Some(String::from_str(f)), None => None };
    let req = Request { key, query: query.clone(), wide: false };
    Step::Ask(ListCubesRun { family: fam, lang, cubes, limit, offset, query, profiles: None }, req)
}

/// The rows of a page of cubes.
pub fn page_rows(pbs: &Vec<Json>, cbs: &Vec<Json>, cubes: &Vec<String>, offset: usize, limit: usize, lang: &str) -> (r: Vec<Json>)
    ensures
        items_view(r@) == window(views(cubes@), offset as nat, limit as nat).map_values(|c: Seq<char>| profile_row(items_view(pbs@), items_view(cbs@), c, lang@)),
{
    let ghost w = window(views(cubes@), offset as nat, limit as nat);
    let ghost rows = w.map_values(|c: Seq<char>| profile_row(items_view(pbs@), items_view(cbs@), c, lang@));
    let mut r: Vec<Json> = Vec::new();
    if offset >= cubes.len() {
        assert(items_view(r@) =~= rows);
        return r;
    }
    let end: usize = if limit >= cubes.len() - offset { cubes.len() } else { offset + limit };
    let mut i: usize = offset;
    while i < end
        invariant
            offset <= i <= end <= cubes@.len(),
            offset < cubes@.len(),
            end == (if offset + limit >= cubes@.len() { cubes@.len() as int } else { offset + limit }),
            w == window(views(cubes@), offset as nat, limit as nat),
            rows == w.map_values(|c: Seq<char>| profile_row(items_view(pbs@), items_view(cbs@), c, lang@)),
            w.len() == end - offset,
            items_view(r@) == rows.take(i - offset),
        decreases end - i,
    {
        assert(w[i - offset] == cubes@[i as int]@);
        let row = profile_row_of(pbs, cbs, cubes[i].as_str(), lang);
        crate::json::push_item(&mut r, row);
        i = i + 1;
        assert(items_view(r@) =~= rows.take(i - offset));
    }
    assert(rows.take(end - offset) =~= rows);
    r
}

impl ListCubesRun {
    /// The next step: the count request once the profiles are back, the
    /// page once the counts are.
    pub fn resume(self, ctx: &Ctx, event: Event) -> (s: Step<ListCubesRun>)
        ensures
            match event {
                Err(text) => s matches Step::Done(j) && j@ == backend_refusal_spec(text@),
                Ok(reply) => match bindings_spec(reply.value@) {
                    None => s matches Step::Done(j) && j@ == crate::tools::no_bindings(),
                    Some(bs) => match self.profiles {
                        None => s matches Step::Ask(run, req) && run.family == self.family && run.lang == self.lang
                            && run.cubes@ == self.cubes@ && run.limit == self.limit && run.offset == self.offset
                            && run.query == self.query && run.profiles == Some(reply)
                            && req.key@ == "observation_counts:"@ + (match crate::domain::opt_seq(self.family) { Some(f) => f, None => "all"@ })
                            && req.query@ == counts_query_spec(views(self.cubes@)) && !req.wide,
                        Some(preply) => match bindings_spec(preply.value@) {
                            None => s matches Step::Done(j) && j@ == crate::tools::no_bindings(),
                            Some(pbs) => s matches Step::Done(j) && j@ == list_cubes_answer(*ctx, self, preply, pbs, bs),
                        },
                    },
                },
            },
    {
        let reply = match event {
            Err(text) => { return Step::Done(backend_refusal(text.as_str())); },
            Ok(r) => r,
        };
        if bindings(&reply.value).is_err() {
            return Step::Done(upstream("upstream-unavailable: no bindings in the answer"));
        }
        match self.profiles {
            None => {
                let query = counts_query(self.cubes.as_slice());
                let mut key = String::from_str("observation_counts:");
                match &self.family {
                    Some(f) => key.append(f.as_str()),
                    None => key.append("all"),
                }
                let req = Request { key, query, wide: false };
                Step::Ask(ListCubesRun {
                    family: self.family, lang: self.lang, cubes: self.cubes, limit: self.limit,
                    offset: self.offset, query: self.query, profiles: Some(reply),
                }, req)
            },
            Some(preply) => {
                let pbs = match bindings(&preply.value) {
                    Ok(b) => b,
                    Err(e) => { return Step::Done(upstream(e.as_str())); },
                };
                let cbs = match bindings(&reply.value) {
                    Ok(b) => b,
                    Err(e) => { return Step::Done(upstream(e.as_str())); },
                };
                let rows = page_rows(pbs, cbs, &self.cubes, self.offset, self.limit, self.lang);
                let returned = rows.len();
                let total = self.cubes.len();
                let ghost rv = items_view(rows@);
                let mut f: Vec<(String, Json)> = Vec::new();
                push_field(&mut f, "cubes", crate::json::arr(rows));
                push_field(&mut f, "family", jopt(&self.family));
                push_field(&mut f, "limit", Json::Num(self.limit as u64));
                push_field(&mut f, "offset", Json::Num(self.offset as u64));
                push_field(&mut f, "returned", Json::Num(returned as u64));
                push_field(&mut f, "total", Json::Num(total as u64));
                push_field(&mut f, "truncated", Json::Bool(crate::tools::is_truncated(self.offset, returned, total)));
                push_field(&mut f, "kind", jstr("norm"));
                push_field(&mut f, "provenance", provenance(ctx, &preply, self.query.as_str()));
                assert(views(self.cubes@).len() == total);
                assert(fields_view(f@) =~= match list_cubes_answer(*ctx, self, preply, items_view(pbs@), items_view(cbs@)) {
                    JsonV::Obj(x) => x,
                    _ => Seq::empty(),
                });
                Step::Done(obj(f))
            },
        }
    }
}

} // verus!

verus! {

// --- list_versions ------------------------------------------------------------

pub const VERSIONS_NOTE: &'static str = "the versions come from the served list, by the last IRI segment; nothing in the graph links an old version to a new one, so no answer says «newer» (P27)";

/// One version as `list_versions` serves it.
pub open spec fn version_row(pbs: Seq<JsonV>, cbs: Seq<JsonV>, v: Seq<char>) -> JsonV {
    let status = status_for(pbs, v);
    let observations = count_for(cbs, v);
    JsonV::Obj(seq![
        ("cube"@, JsonV::Str(v)),
        ("version"@, opt_view(crate::scope::version_spec(v))),
        ("observations"@, JsonV::Num(observations)),
        ("status"@, opt_view(status)),
        ("status_unset"@, JsonV::Bool(status is None)),
        ("placeholder"@, JsonV::Bool(observations == 0)),
    ])
}

fn version_row_of(pbs: &Vec<Json>, cbs: &Vec<Json>, v: &str) -> (j: Json)
    ensures
        j@ == version_row(items_view(pbs@), items_view(cbs@), v@),
{
    let status = status_of(pbs, v);
    let observations = count_of(cbs, v);
    let mut f: Vec<(String, Json)> = Vec::new();
    push_field(&mut f, "cube", jstr(v));
    push_field(&mut f, "version", jopt(&crate::scope::version_of(v)));
    push_field(&mut f, "observations", Json::Num(observations));
    push_field(&mut f, "status", jopt(&status));
    push_field(&mut f, "status_unset", Json::Bool(status.is_none()));
    push_field(&mut f, "placeholder", Json::Bool(observations == 0));
    assert(fields_view(f@) =~= match version_row(items_view(pbs@), items_view(cbs@), v@) {
        JsonV::Obj(x) => x,
        _ => Seq::empty(),
    });
    obj(f)
}

fn version_rows_of(pbs: &Vec<Json>, cbs: &Vec<Json>, versions: &Vec<String>) -> (r: Vec<Json>)
    ensures
        items_view(r@) == views(versions@).map_values(|v: Seq<char>| version_row(items_view(pbs@), items_view(cbs@), v)),
{
    let ghost rows = views(versions@).map_values(|v: Seq<char>| version_row(items_view(pbs@), items_view(cbs@), v));
    let mut items: Vec<Json> = Vec::new();
    let mut i: usize = 0;
    while i < versions.len()
        invariant
            0 <= i <= versions@.len(),
            rows == views(versions@).map_values(|v: Seq<char>| version_row(items_view(pbs@), items_view(cbs@), v)),
            items_view(items@) == rows.take(i as int),
        decreases versions@.len() - i,
    {
        let row = version_row_of(pbs, cbs, versions[i].as_str());
        crate::json::push_item(&mut items, row);
        i = i + 1;
        assert(items_view(items@) =~= rows.take(i as int));
    }
    assert(rows.take(versions@.len() as int) =~= rows);
    items
}

/// The state `list_versions` resumes from; `counts` holds the count reply
/// once it is back.
pub struct ListVersionsRun {
    pub cube: String,
    pub family: String,
    pub versions: Vec<String>,
    pub query: String,
    pub counts: Option<Reply>,
}

/// The answer of `list_versions` once both replies are back.
pub open spec fn list_versions_answer(ctx: Ctx, run: ListVersionsRun, preply: Reply, pbs: Seq<JsonV>, cbs: Seq<JsonV>) -> JsonV {
    let rows = views(run.versions@).map_values(|v: Seq<char>| version_row(pbs, cbs, v));
    JsonV::Obj(seq![
        ("family"@, JsonV::Str(run.family@)),
        ("versions"@, JsonV::Arr(rows)),
        ("versioned"@, JsonV::Bool(crate::scope::version_spec(run.cube@) is Some)),
        ("limit"@, JsonV::Num(rows.len() as u64)),
        ("returned"@, JsonV::Num(rows.len() as u64)),
        ("total"@, JsonV::Num(rows.len() as u64)),
        ("truncated"@, JsonV::Bool(false)),
        ("note"@, JsonV::Str(VERSIONS_NOTE@)),
        ("kind"@, JsonV::Str("norm"@)),
        ("provenance"@, provenance_spec(ctx, preply, run.query@)),
    ])
}

/// `lindas.list_versions` — every served version of a cube's family: the
/// counts first, then the profiles.
pub fn list_versions(cube: &str) -> (s: Step<ListVersionsRun>)
    ensures
        match crate::domain::served_cube_spec(cube@) {
            Err(refusal) => s matches Step::Done(j) && j@ == refusal,
            Ok(c) => s matches Step::Ask(run, req) && run.cube@ == c
                && run.family@ == crate::scope::version_family_spec(c)
                && views(run.versions@) == crate::scope::same_stem(crate::scope::all_iris(), crate::scope::version_family_spec(c))
                && run.query@ == profiles_query_spec(views(run.versions@)) && run.counts is None
                && req.key@ == "observation_counts:family:"@ + run.family@
                && req.query@ == counts_query_spec(views(run.versions@)) && !req.wide,
        },
{
    let cube = match crate::domain::served_cube(cube) {
        Ok(c) => c,
        Err(refusal) => { return Step::Done(refusal); },
    };
    let family = crate::scope::version_family(cube.as_str());
    let versions = crate::scope::versions_of(cube.as_str());
    let query = profiles_query(versions.as_slice());
    let mut key = String::from_str("observation_counts:family:");
    key.append(family.as_str());
    let req = Request { key, query: counts_query(versions.as_slice()), wide: false };
    Step::Ask(ListVersionsRun { cube, family, versions, query, counts: None }, req)
}

impl ListVersionsRun {
    /// The next step: the profile request once the counts are back, the
    /// answer once the profiles are.
    pub fn resume(self, ctx: &Ctx, event: Event) -> (s: Step<ListVersionsRun>)
        ensures
            match event {
                Err(text) => s matches Step::Done(j) && j@ == backend_refusal_spec(text@),
                Ok(reply) => match bindings_spec(reply.value@) {
                    None => s matches Step::Done(j) && j@ == crate::tools::no_bindings(),
                    Some(bs) => match self.counts {
                        None => s matches Step::Ask(run, req) && run.cube == self.cube && run.family == self.family
                            && run.versions@ == self.versions@ && run.query == self.query && run.counts == Some(reply)
                            && req.key@ == profiles_key("family:"@ + self.family@, "de"@)
                            && req.query@ == self.query@ && !req.wide,
                        Some(creply) => match bindings_spec(creply.value@) {
                            None => s matches Step::Done(j) && j@ == crate::tools::no_bindings(),
                            Some(cbs) => s matches Step::Done(j) && j@ == list_versions_answer(*ctx, self, reply, bs, cbs),
                        },
                    },
                },
            },
    {
        let reply = match event {
            Err(text) => { return Step::Done(backend_refusal(text.as_str())); },
            Ok(r) => r,
        };
        if bindings(&reply.value).is_err() {
            return Step::Done(upstream("upstream-unavailable: no bindings in the answer"));
        }
        match self.counts {
            None => {
                let mut key = String::from_str("list_cubes:");
                key.append("family:");
                key.append(self.family.as_str());
                key.append(":");
                key.append("de");
                assert(key@ =~= profiles_key("family:"@ + self.family@, "de"@));
                let req = Request { key, query: self.query.clone(), wide: false };
                Step::Ask(ListVersionsRun {
                    cube: self.cube, family: self.family, versions: self.versions, query: self.query,
                    counts: Some(reply),
                }, req)
            },
            Some(creply) => {
                let cbs = match bindings(&creply.value) {
                    Ok(b) => b,
                    Err(e) => { return Step::Done(upstream(e.as_str())); },
                };
                let pbs = match bindings(&reply.value) {
                    Ok(b) => b,
                    Err(e) => { return Step::Done(upstream(e.as_str())); },
                };
                let items = version_rows_of(pbs, cbs, &self.versions);
                let total = items.len();
                let mut f: Vec<(String, Json)> = Vec::new();
                push_field(&mut f, "family", jstr(self.family.as_str()));
                push_field(&mut f, "versions", crate::json::arr(items));
                push_field(&mut f, "versioned", Json::Bool(crate::scope::version_of(self.cube.as_str()).is_some()));
                push_field(&mut f, "limit", Json::Num(total as u64));
                push_field(&mut f, "returned", Json::Num(total as u64));
                push_field(&mut f, "total", Json::Num(total as u64));
                push_field(&mut f, "truncated", Json::Bool(false));
                push_field(&mut f, "note", jstr(VERSIONS_NOTE));
                push_field(&mut f, "kind", jstr("norm"));
                push_field(&mut f, "provenance", provenance(ctx, &reply, self.query.as_str()));
                assert(fields_view(f@) =~= match list_versions_answer(*ctx, self, reply, items_view(pbs@), items_view(cbs@)) {
                    JsonV::Obj(x) => x,
                    _ => Seq::empty(),
                });
                Step::Done(obj(f))
            },
        }
    }
}

} // verus!

verus! {

// --- find_cube ----------------------------------------------------------------

pub const QUERY_DETAIL: &'static str = "the query must be 2 to 100 characters";
pub const QUERY_ACCEPTED: &'static str = "a word of a cube's name — 2 to 100 characters, at most twelve words";
pub const QUERY_NOTE: &'static str = "lindas.list_cubes serves the 44 names to choose a word from; every word given must occur in the SAME name. This refusal costs no request";
pub const WORDS_WHY: &'static str = "every word must occur in the SAME cube name and becomes one CONTAINS in the query, so a pasted sentence is refused; name the distinctive words";

/// Does a binding name a cube and a name?
pub open spec fn is_hit(b: JsonV) -> bool {
    text_spec(b, "cube"@) is Some && text_spec(b, "name"@) is Some
}

/// The cube of every hit, in binding order, repeats included.
pub open spec fn hit_cubes(bs: Seq<JsonV>) -> Seq<Seq<char>>
    decreases bs.len(),
{
    if bs.len() == 0 {
        Seq::empty()
    } else if is_hit(bs.last()) {
        hit_cubes(bs.drop_last()).push(text_spec(bs.last(), "cube"@)->0)
    } else {
        hit_cubes(bs.drop_last())
    }
}

/// Every `(lang, name)` the hits of `cube` carry, repeats included.
pub open spec fn hit_names(bs: Seq<JsonV>, cube: Seq<char>) -> Seq<(Seq<char>, Seq<char>)>
    decreases bs.len(),
{
    if bs.len() == 0 {
        Seq::empty()
    } else if is_hit(bs.last()) && text_spec(bs.last(), "cube"@) == Some(cube) {
        hit_names(bs.drop_last(), cube).push((or_empty(text_spec(bs.last(), "nameLang"@)), text_spec(bs.last(), "name"@)->0))
    } else {
        hit_names(bs.drop_last(), cube)
    }
}

/// One hit as `find_cube` serves it.
pub open spec fn hit_row(bs: Seq<JsonV>, cbs: Seq<JsonV>, cube: Seq<char>, lang: Seq<char>) -> JsonV {
    let label = choose_label_spec(hit_names(bs, cube), Some(lang));
    let observations = count_for(cbs, cube);
    JsonV::Obj(seq![
        ("cube"@, JsonV::Str(cube)),
        ("name"@, opt_view(first_of(label))),
        ("name_lang"@, opt_view(second_of(label))),
        ("family"@, opt_view(crate::scope::family_spec(cube))),
        ("observations"@, JsonV::Num(observations)),
        ("placeholder"@, JsonV::Bool(observations == 0)),
    ])
}

/// The state `find_cube` resumes from; `found` holds the name answer once
/// it is back.
pub struct FindCubeRun {
    pub needle: String,
    pub lang: &'static str,
    pub limit: usize,
    pub query: String,
    pub found: Option<Reply>,
}

/// The answer of `find_cube`: the hits by cube IRI (`keys`, in order),
/// their names in the language asked, and their counts.
pub open spec fn find_answer(ctx: Ctx, run: FindCubeRun, freply: Reply, bs: Seq<JsonV>, cbs: Seq<JsonV>, keys: Seq<Seq<char>>) -> JsonV {
    let rows = window(keys, 0, run.limit as nat).map_values(|c: Seq<char>| hit_row(bs, cbs, c, run.lang@));
    JsonV::Obj(seq![
        ("query"@, JsonV::Str(run.needle@)),
        ("hits"@, JsonV::Arr(rows)),
        ("limit"@, JsonV::Num(run.limit as u64)),
        ("returned"@, JsonV::Num(rows.len() as u64)),
        ("total"@, JsonV::Num(keys.len() as u64)),
        ("truncated"@, JsonV::Bool(rows.len() < keys.len())),
        ("kind"@, JsonV::Str("hint"@)),
        ("provenance"@, provenance_spec(ctx, freply, run.query@)),
    ])
}

/// The cube IRIs of the hits, sorted, each once.
pub open spec fn hit_keys(keys: Seq<Seq<char>>, bs: Seq<JsonV>) -> bool {
    crate::text::strictly_sorted(keys) && keys.to_set() == hit_cubes(bs).to_set()
}

/// `find_cube:<needle>:<lang>:<limit>`.
pub open spec fn find_key(needle: Seq<char>, lang: Seq<char>, limit: nat) -> Seq<char> {
    "find_cube:"@ + needle + ":"@ + lang + ":"@ + crate::text::decimal(limit)
}

/// `lindas.find_cube` — a cube by the words of its name: every word of the
/// query, lower-cased, must occur in the same name.
pub fn find_cube(query: &str, lang: Option<&str>, limit: Option<u32>) -> (s: Step<FindCubeRun>)
    ensures
        ({
            let asked = match lang { Some(l) => l@, None => "de"@ };
            let needle = crate::text::trim_ws(query@);
            let words = crate::text::words_of(crate::text::lowercase(needle));
            if !crate::domain::is_language(asked) {
                s matches Step::Done(j) && j@ == crate::domain::language_refusal(asked)
            } else if needle.len() < 2 || needle.len() > 100 {
                s matches Step::Done(j) && j@ == crate::domain::shaped(QUERY_DETAIL@, QUERY_ACCEPTED@, QUERY_NOTE@)
            } else if words.len() > crate::domain::MAX_QUERY_WORDS {
                s matches Step::Done(j) && j@ == crate::domain::too_many_spec(
                    "words: "@ + crate::text::decimal(words.len()) + " were given"@,
                    crate::domain::MAX_QUERY_WORDS as nat, "words"@, WORDS_WHY@, "lindas.list_cubes"@)
            } else {
                let limit_n = crate::domain::capped_spec(limit, crate::domain::MAX_HITS as nat, 10);
                s matches Step::Ask(run, req) && run.needle@ == needle && run.lang@ == asked
                    && run.limit == limit_n && run.found is None
                    && req.key@ == find_key(needle, asked, limit_n)
                    && req.query@ == crate::domain::find_cube_query_spec(crate::scope::all_iris(), words)
                    && run.query@ == req.query@ && !req.wide
            }
        }),
{
    let lang = match crate::domain::language(lang) {
        Ok(l) => l,
        Err(refusal) => { return Step::Done(refusal); },
    };
    let needle = crate::text::trim(query);
    let n = crate::text::chars_of(needle.as_str()).len();
    if n < 2 || n > 100 {
        return Step::Done(crate::domain::refusal_with_shape(QUERY_DETAIL, QUERY_ACCEPTED, QUERY_NOTE));
    }
    let lowered = crate::text::to_lowercase(needle.as_str());
    find_cube_words(needle, lowered.as_str(), lang, limit)
}

/// The rest of `lindas.find_cube` once the query is trimmed and lower-cased:
/// the words of `lowered` are capped, and every one of them must occur in
/// the same name.
pub fn find_cube_words(needle: String, lowered: &str, lang: &'static str, limit: Option<u32>) -> (s: Step<FindCubeRun>)
    ensures
        ({
            let words = crate::text::words_of(lowered@);
            if words.len() > crate::domain::MAX_QUERY_WORDS {
                s matches Step::Done(j) && j@ == crate::domain::too_many_spec(
                    "words: "@ + crate::text::decimal(words.len()) + " were given"@,
                    crate::domain::MAX_QUERY_WORDS as nat, "words"@, WORDS_WHY@, "lindas.list_cubes"@)
            } else {
                let limit_n = crate::domain::capped_spec(limit, crate::domain::MAX_HITS as nat, 10);
                s matches Step::Ask(run, req) && run.needle@ == needle@ && run.lang@ == lang@
                    && run.limit == limit_n && run.found is None
                    && req.key@ == find_key(needle@, lang@, limit_n)
                    && req.query@ == crate::domain::find_cube_query_spec(crate::scope::all_iris(), words)
                    && run.query@ == req.query@ && !req.wide
            }
        }),
{
    let words = crate::text::split_whitespace(lowered);
    if words.len() > crate::domain::MAX_QUERY_WORDS {
        let mut d = String::from_str("words: ");
        d.append(crate::text::fmt_u64(words.len() as u64).as_str());
        d.append(" were given");
        return Step::Done(crate::domain::too_many(d.as_str(), crate::domain::MAX_QUERY_WORDS, "words", WORDS_WHY, "lindas.list_cubes"));
    }
    let limit = crate::domain::capped(limit, crate::domain::MAX_HITS, 10);
    let cubes = crate::scope::all();
    let sparql = crate::domain::find_cube_query(cubes.as_slice(), words.as_slice());
    let mut key = String::from_str("find_cube:");
    key.append(needle.as_str());
    key.append(":");
    key.append(lang);
    key.append(":");
    key.append(crate::text::fmt_u64(limit as u64).as_str());
    let req = Request { key, query: sparql.clone(), wide: false };
    Step::Ask(FindCubeRun { needle, lang, limit, query: sparql, found: None }, req)
}

/// The cube IRIs of the hits, sorted and each once.
fn hit_keys_of(bs: &Vec<Json>) -> (r: Vec<String>)
    ensures
        hit_keys(views(r@), items_view(bs@)),
{
    let ghost items = items_view(bs@);
    let mut keys: Vec<String> = Vec::new();
    let mut i: usize = 0;
    assert(views(keys@).to_set() =~= hit_cubes(items.take(0)).to_set());
    while i < bs.len()
        invariant
            0 <= i <= bs@.len(),
            items == items_view(bs@),
            crate::text::strictly_sorted(views(keys@)),
            views(keys@).to_set() == hit_cubes(items.take(i as int)).to_set(),
        decreases bs@.len() - i,
    {
        assert(items.take(i + 1).drop_last() =~= items.take(i as int));
        assert(items.take(i + 1).last() == bs@[i as int]@);
        let cube = text(&bs[i], "cube");
        let name = text(&bs[i], "name");
        if cube.is_some() && name.is_some() {
            let c = cube.unwrap();
            proof {
                hit_cubes(items.take(i as int)).lemma_push_to_set_commute(c@);
            }
            crate::text::insert_sorted(&mut keys, c);
        }
        i = i + 1;
    }
    assert(items.take(bs@.len() as int) =~= items);
    keys
}

/// Every `(lang, name)` the hits of `cube` carry.
fn hit_names_of(bs: &Vec<Json>, cube: &str) -> (r: Vec<(String, String)>)
    ensures
        pairs_view(r@) == hit_names(items_view(bs@), cube@),
{
    let ghost items = items_view(bs@);
    let mut r: Vec<(String, String)> = Vec::new();
    let mut i: usize = 0;
    assert(pairs_view(r@) =~= Seq::empty());
    while i < bs.len()
        invariant
            0 <= i <= bs@.len(),
            items == items_view(bs@),
            pairs_view(r@) == hit_names(items.take(i as int), cube@),
        decreases bs@.len() - i,
    {
        assert(items.take(i + 1).drop_last() =~= items.take(i as int));
        assert(items.take(i + 1).last() == bs@[i as int]@);
        if carries(&bs[i], "cube", cube, "name") {
            let name = text(&bs[i], "name").unwrap();
            let lang = match text(&bs[i], "nameLang") {
                Some(l) => l,
                None => String::new(),
            };
            let ghost before = pairs_view(r@);
            let ghost pair = (lang@, name@);
            r.push((lang, name));
            assert(pairs_view(r@) =~= before.push(pair));
        }
        i = i + 1;
    }
    assert(items.take(bs@.len() as int) =~= items);
    r
}

fn hit_row_of(bs: &Vec<Json>, cbs: &Vec<Json>, cube: &str, lang: &str) -> (j: Json)
    ensures
        j@ == hit_row(items_view(bs@), items_view(cbs@), cube@, lang@),
{
    let names = hit_names_of(bs, cube);
    let label = choose_label(names.as_slice(), Some(lang));
    let observations = count_of(cbs, cube);
    let mut f: Vec<(String, Json)> = Vec::new();
    push_field(&mut f, "cube", jstr(cube));
    push_field(&mut f, "name", label_text(&label));
    push_field(&mut f, "name_lang", label_lang(&label));
    push_field(&mut f, "family", static_opt(crate::scope::family_of(cube)));
    push_field(&mut f, "observations", Json::Num(observations));
    push_field(&mut f, "placeholder", Json::Bool(observations == 0));
    assert(fields_view(f@) =~= match hit_row(items_view(bs@), items_view(cbs@), cube@, lang@) {
        JsonV::Obj(x) => x,
        _ => Seq::empty(),
    });
    obj(f)
}

/// The answer of `find_cube` from its two answers (the counts empty when
/// there was nothing to count).
fn find_answer_of(ctx: &Ctx, run: &FindCubeRun, freply: &Reply, bs: &Vec<Json>, cbs: &Vec<Json>) -> (j: Json)
    ensures
        exists|keys: Seq<Seq<char>>| hit_keys(keys, items_view(bs@))
            && j@ == find_answer(*ctx, *run, *freply, items_view(bs@), items_view(cbs@), keys),
{
    let keys = hit_keys_of(bs);
    let ghost kv = views(keys@);
    let ghost w = window(kv, 0, run.limit as nat);
    let ghost rows = w.map_values(|c: Seq<char>| hit_row(items_view(bs@), items_view(cbs@), c, run.lang@));
    let end: usize = if run.limit >= keys.len() { keys.len() } else { run.limit };
    let mut items: Vec<Json> = Vec::new();
    let mut i: usize = 0;
    while i < end
        invariant
            0 <= i <= end <= keys@.len(),
            end == (if run.limit >= keys@.len() { keys@.len() as int } else { run.limit as int }),
            kv == views(keys@),
            w == window(kv, 0, run.limit as nat),
            rows == w.map_values(|c: Seq<char>| hit_row(items_view(bs@), items_view(cbs@), c, run.lang@)),
            w.len() == end,
            items_view(items@) == rows.take(i as int),
        decreases end - i,
    {
        assert(w[i as int] == keys@[i as int]@);
        let row = hit_row_of(bs, cbs, keys[i].as_str(), run.lang);
        crate::json::push_item(&mut items, row);
        i = i + 1;
        assert(items_view(items@) =~= rows.take(i as int));
    }
    assert(rows.take(end as int) =~= rows);
    let returned = items.len();
    let total = keys.len();
    let mut f: Vec<(String, Json)> = Vec::new();
    push_field(&mut f, "query", jstr(run.needle.as_str()));
    push_field(&mut f, "hits", crate::json::arr(items));
    push_field(&mut f, "limit", Json::Num(run.limit as u64));
    push_field(&mut f, "returned", Json::Num(returned as u64));
    push_field(&mut f, "total", Json::Num(total as u64));
    push_field(&mut f, "truncated", Json::Bool(returned < total));
    push_field(&mut f, "kind", jstr("hint"));
    push_field(&mut f, "provenance", provenance(ctx, freply, run.query.as_str()));
    assert(fields_view(f@) =~= match find_answer(*ctx, *run, *freply, items_view(bs@), items_view(cbs@), kv) {
        JsonV::Obj(x) => x,
        _ => Seq::empty(),
    });
    obj(f)
}

impl FindCubeRun {
    /// The next step: once the names are back, the count request (or, with
    /// no hit, the answer: nothing to count); once the counts are back, the
    /// answer.
    pub fn resume(self, ctx: &Ctx, event: Event) -> (s: Step<FindCubeRun>)
        ensures
            match event {
                Err(text) => s matches Step::Done(j) && j@ == backend_refusal_spec(text@),
                Ok(reply) => match bindings_spec(reply.value@) {
                    None => s matches Step::Done(j) && j@ == crate::tools::no_bindings(),
                    Some(bs) => match self.found {
                        None => if hit_cubes(bs).len() == 0 {
                            s matches Step::Done(j) && j@ == find_answer(*ctx, self, reply, bs, Seq::empty(), Seq::empty())
                        } else {
                            s matches Step::Ask(run, req) && run.needle == self.needle && run.lang == self.lang
                                && run.limit == self.limit && run.query == self.query && run.found == Some(reply)
                                && req.key@ == "observation_counts:all"@
                                && req.query@ == counts_query_spec(crate::scope::all_iris()) && !req.wide
                        },
                        Some(freply) => match bindings_spec(freply.value@) {
                            None => s matches Step::Done(j) && j@ == crate::tools::no_bindings(),
                            Some(fbs) => s matches Step::Done(j) && exists|keys: Seq<Seq<char>>| hit_keys(keys, fbs)
                                && j@ == find_answer(*ctx, self, freply, fbs, bs, keys),
                        },
                    },
                },
            },
    {
        let reply = match event {
            Err(text) => { return Step::Done(backend_refusal(text.as_str())); },
            Ok(r) => r,
        };
        let bs = match bindings(&reply.value) {
            Ok(b) => b,
            Err(e) => { return Step::Done(upstream(e.as_str())); },
        };
        match &self.found {
            None => {
                let keys = hit_keys_of(bs);
                if keys.len() == 0 {
                    proof {
                        let h = hit_cubes(items_view(bs@));
                        if h.len() > 0 {
                            assert(h.to_set().contains(h[0]));
                            assert(views(keys@).to_set().contains(h[0]));
                        }
                    }
                    let none: Vec<Json> = Vec::new();
                    let j = find_answer_of(ctx, &self, &reply, bs, &none);
                    proof {
                        let kk = choose|keys: Seq<Seq<char>>| hit_keys(keys, items_view(bs@))
                            && j@ == find_answer(*ctx, self, reply, items_view(bs@), items_view(none@), keys);
                        assert(kk.to_set() =~= Set::empty());
                        if kk.len() > 0 {
                            assert(kk.to_set().contains(kk[0]));
                        }
                        assert(kk =~= Seq::empty());
                        assert(items_view(none@) =~= Seq::empty());
                    }
                    return Step::Done(j);
                }
                proof {
                    let h = hit_cubes(items_view(bs@));
                    assert(views(keys@).to_set().contains(views(keys@)[0]));
                    if h.len() == 0 {
                        assert(h.to_set() =~= Set::empty());
                    }
                }
                let cubes = crate::scope::all();
                let req = Request { key: String::from_str("observation_counts:all"), query: counts_query(cubes.as_slice()), wide: false };
                Step::Ask(FindCubeRun {
                    needle: self.needle, lang: self.lang, limit: self.limit, query: self.query, found: Some(reply),
                }, req)
            },
            Some(freply) => {
                let fbs = match bindings(&freply.value) {
                    Ok(b) => b,
                    Err(e) => { return Step::Done(upstream(e.as_str())); },
                };
                let j = find_answer_of(ctx, &self, freply, fbs, bs);
                proof {
                    let kk = choose|keys: Seq<Seq<char>>| hit_keys(keys, items_view(fbs@))
                        && j@ == find_answer(*ctx, self, *freply, items_view(fbs@), items_view(bs@), keys);
                    assert(hit_keys(kk, items_view(fbs@)) && j@ == find_answer(*ctx, self, self.found->0, bindings_spec(self.found->0.value@)->0, bindings_spec(reply.value@)->0, kk));
                }
                Step::Done(j)
            },
        }
    }
}

} // verus!
