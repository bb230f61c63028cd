use oh_mcp_lindas::backend::{Event, Reply, Request, Served};
use oh_mcp_lindas::catalogue::{find_cube, find_cube_words, list_cubes, list_versions};
use oh_mcp_lindas::cube::{describe_cube, dimension_values, DescribeCubeRun};
use oh_mcp_lindas::domain::Ctx;
use oh_mcp_lindas::json::{get, Json};
use oh_mcp_lindas::observe::{observations, ObsPhase, ObservationsRun};
use oh_mcp_lindas::tools::{describe, resolve_label, Step};

const VOTE: &str = "https://politics.ld.admin.ch/political-rights/popular-vote/1";

fn ctx() -> Ctx {
    Ctx { today: "2026-09-01".to_string(), endpoint: "https://lindas.admin.ch/query".to_string() }
}

fn obj(fields: Vec<(&str, Json)>) -> Json {
    Json::Obj(fields.into_iter().map(|(k, v)| (k.to_string(), v)).collect())
}

fn s(x: &str) -> Json {
    Json::Str(x.to_string())
}

fn lit(v: &str) -> Json {
    obj(vec![("type", s("literal")), ("value", s(v))])
}

fn tagged(v: &str, lang: &str) -> Json {
    obj(vec![("type", s("literal")), ("value", s(v)), ("xml:lang", s(lang))])
}

fn uri(v: &str) -> Json {
    obj(vec![("type", s("uri")), ("value", s(v))])
}

fn binding(vars: Vec<(&str, Json)>) -> Json {
    obj(vars)
}

fn answer(rows: Vec<Json>) -> Json {
    obj(vec![("results", obj(vec![("bindings", Json::Arr(rows))]))])
}

fn reply(value: Json) -> Event {
    Ok(Reply { value, served: Served::Fixture, retrieved_at: None })
}

fn ask<R>(step: Step<R>) -> (R, Request) {
    match step {
        Step::Ask(run, req) => (run, req),
        Step::Done(j) => panic!("expected a request, got an answer: {j:?}"),
    }
}

fn done<R>(step: Step<R>) -> Json {
    match step {
        Step::Done(j) => j,
        Step::Ask(_, req) => panic!("expected an answer, got the request {}", req.key),
    }
}

fn field<'a>(j: &'a Json, key: &str) -> &'a Json {
    get(j, key).unwrap_or_else(|| panic!("no «{key}» in {j:?}"))
}

fn text<'a>(j: &'a Json, key: &str) -> &'a str {
    match field(j, key) {
        Json::Str(t) => t.as_str(),
        other => panic!("«{key}» is no string: {other:?}"),
    }
}

fn num(j: &Json, key: &str) -> u64 {
    match field(j, key) {
        Json::Num(n) => *n,
        other => panic!("«{key}» is no number: {other:?}"),
    }
}

fn flag(j: &Json, key: &str) -> bool {
    match field(j, key) {
        Json::Bool(b) => *b,
        other => panic!("«{key}» is no flag: {other:?}"),
    }
}

fn items<'a>(j: &'a Json, key: &str) -> &'a Vec<Json> {
    match field(j, key) {
        Json::Arr(v) => v,
        other => panic!("«{key}» is no list: {other:?}"),
    }
}

fn strings(j: &Json, key: &str) -> Vec<String> {
    items(j, key)
        .iter()
        .map(|x| match x {
            Json::Str(t) => t.clone(),
            other => panic!("not a string: {other:?}"),
        })
        .collect()
}

fn total(n: &str) -> Json {
    answer(vec![binding(vec![("total", lit(n))])])
}

#[test]
fn a_label_is_asked_of_the_one_endpoint_and_served_in_the_language_asked() {
    let (run, req) = ask(resolve_label(&ctx(), " https://ld.admin.ch/canton/25\r\n", Some("de")));
    assert_eq!(req.key, "resolve_label:https://ld.admin.ch/canton/25:de");
    assert!(req.query.contains("<https://ld.admin.ch/canton/25> ?labelP ?label"));
    assert!(!req.wide);
    let labels = answer(vec![
        binding(vec![("known", lit("1")), ("label", tagged("Genève", "fr")), ("labelLang", lit("fr"))]),
        binding(vec![("known", lit("1")), ("label", tagged("Genf", "de")), ("labelLang", lit("de"))]),
        binding(vec![("known", lit("1")), ("label", tagged("Genf", "de")), ("labelLang", lit("de"))]),
    ]);
    let j = done(run.resume(&ctx(), reply(labels)));
    assert_eq!(text(&j, "label"), "Genf");
    assert_eq!(text(&j, "label_lang"), "de");
    assert_eq!(strings(&j, "languages"), vec!["de", "fr"]);
    assert!(flag(&j, "in_store"));
    let provenance = field(&j, "provenance");
    assert_eq!(text(provenance, "served"), "fixture");
    assert_eq!(text(provenance, "as_of"), "2026-09-01");
    assert_eq!(field(provenance, "retrieved_at"), &Json::Null);
}

#[test]
fn a_label_the_store_lacks_is_an_answer_and_no_fetch() {
    let (run, _) = ask(resolve_label(&ctx(), "https://example.org/x", None));
    let j = done(run.resume(&ctx(), reply(answer(vec![]))));
    assert!(!flag(&j, "in_store"));
    assert_eq!(field(&j, "label"), &Json::Null);
    assert_eq!(strings(&j, "languages"), Vec::<String>::new());
    let refused = done(resolve_label(&ctx(), "not an iri", None));
    assert_eq!(text(&refused, "error"), "invalid-input");
    let language = done(resolve_label(&ctx(), "https://example.org/x", Some("es")));
    assert_eq!(text(&language, "error"), "invalid-input");
}

#[test]
fn a_subject_that_says_nothing_is_not_found_without_a_page() {
    let (run, count) = ask(describe(&ctx(), "https://ld.admin.ch/canton/1", None, Some(1000), None));
    assert_eq!(run.limit, 400, "the cap holds");
    let j = done(run.resume(&ctx(), reply(total("0"))));
    assert_eq!(text(&j, "error"), "not-found");
    assert_eq!(text(&j, "subject"), "https://ld.admin.ch/canton/1");
    assert!(count.key.starts_with("describe:count:"));
}

#[test]
fn two_terms_that_differ_only_in_their_tag_are_two_statements() {
    let (run, _) = ask(describe(&ctx(), "https://ld.admin.ch/canton/1", Some("fr"), Some(2), Some(0)));
    let (run, page) = ask(run.resume(&ctx(), reply(total("3"))));
    assert_eq!(page.key, "describe:https://ld.admin.ch/canton/1:2:0");
    let name = "http://schema.org/name";
    let rows = answer(vec![
        binding(vec![("p", uri(name)), ("v", tagged("Uri", "de"))]),
        binding(vec![("p", uri(name)), ("v", tagged("Uri", "fr"))]),
        binding(vec![("p", uri(name)), ("v", tagged("Uri", "de"))]),
    ]);
    let j = done(run.resume(&ctx(), reply(rows)));
    assert_eq!(items(&j, "statements").len(), 2, "{j:?}");
    assert_eq!(num(&j, "returned"), 2);
    assert_eq!(num(&j, "total"), 3);
    assert!(flag(&j, "truncated"), "0 + 2 < 3");
    assert_eq!(text(&j, "via"), "endpoint");
    let first = &items(&j, "statements")[0];
    assert_eq!(text(first, "dimension"), name);
    assert_eq!(text(first, "lang"), "de");
    assert!(flag(first, "stated"));
}

fn profile(cube: &str, name: &str, lang: &str, status: Option<&str>) -> Json {
    let mut vars = vec![("cube", uri(cube)), ("name", tagged(name, lang)), ("nameLang", lit(lang))];
    if let Some(st) = status {
        vars.push(("status", uri(st)));
        vars.push(("statusLabel", tagged("Veröffentlicht", "de")));
        vars.push(("statusLabelLang", lit("de")));
    }
    binding(vars)
}

#[test]
fn list_cubes_serves_the_family_with_its_states_and_counts() {
    let (run, req) = ask(list_cubes(Some("fc"), None, None, None));
    assert_eq!(req.key, "list_cubes:fc:de");
    assert_eq!(run.cubes.len(), 5);
    assert!(req.query.contains("VALUES ?cube {"));
    let president = "https://politics.ld.admin.ch/fc/cube-president";
    let councillor = "https://politics.ld.admin.ch/fc/cube-councillor";
    let profiles = answer(vec![
        profile(president, "Bundespräsident", "de", Some("https://ld.admin.ch/vocabulary/CreativeWorkStatus/Published")),
        profile(councillor, "Bundesrat", "de", None),
    ]);
    let (run, counts) = ask(run.resume(&ctx(), reply(profiles)));
    assert_eq!(counts.key, "observation_counts:fc");
    let counted = answer(vec![
        binding(vec![("cube", uri(president)), ("observations", lit("12"))]),
        binding(vec![("cube", uri(president)), ("observations", lit("40"))]),
    ]);
    let j = done(run.resume(&ctx(), reply(counted)));
    assert_eq!(num(&j, "total"), 5);
    assert_eq!(num(&j, "returned"), 5);
    assert!(!flag(&j, "truncated"));
    assert_eq!(text(&j, "family"), "fc");
    let rows = items(&j, "cubes");
    let row = rows.iter().find(|r| text(r, "cube") == president).expect("the president cube");
    assert_eq!(num(row, "observations"), 40, "an aggregate key that repeats is folded to its largest count");
    assert!(!flag(row, "placeholder"));
    assert!(!flag(row, "status_unset"));
    assert_eq!(text(row, "status_label"), "Veröffentlicht");
    let other = rows.iter().find(|r| text(r, "cube") == councillor).expect("the councillor cube");
    assert!(flag(other, "placeholder"), "published and empty is an answer");
    assert!(flag(other, "status_unset"));
    assert_eq!(field(other, "version"), &Json::Null);
}

#[test]
fn a_family_that_is_none_of_the_four_costs_no_request() {
    let j = done(list_cubes(Some("nonsense"), None, None, None));
    assert_eq!(text(&j, "error"), "invalid-input");
    assert_eq!(text(&j, "detail"), "family «nonsense» is none of the four");
    assert_eq!(text(&j, "accepted"), "fc | fch/apg | national-council-election | political-rights");
}

#[test]
fn a_page_of_cubes_says_whether_more_follow() {
    let (run, _) = ask(list_cubes(None, Some("fr"), Some(10), Some(40)));
    let (run, _) = ask(run.resume(&ctx(), reply(answer(vec![]))));
    let j = done(run.resume(&ctx(), reply(answer(vec![]))));
    assert_eq!(num(&j, "returned"), 4);
    assert!(!flag(&j, "truncated"));
    assert_eq!(field(&j, "family"), &Json::Null);
    let (run, _) = ask(list_cubes(None, None, Some(10), Some(30)));
    let (run, _) = ask(run.resume(&ctx(), reply(answer(vec![]))));
    let j = done(run.resume(&ctx(), reply(answer(vec![]))));
    assert_eq!(num(&j, "returned"), 10);
    assert!(flag(&j, "truncated"));
}

#[test]
fn list_versions_filters_the_list_and_promises_nothing() {
    let (run, counts) = ask(list_versions("https://politics.ld.admin.ch/national-council-election/candidates/2019"));
    assert_eq!(counts.key, "observation_counts:family:https://politics.ld.admin.ch/national-council-election/candidates");
    let (run, profiles) = ask(run.resume(&ctx(), reply(answer(vec![]))));
    assert_eq!(profiles.key, "list_cubes:family:https://politics.ld.admin.ch/national-council-election/candidates:de");
    let j = done(run.resume(&ctx(), reply(answer(vec![]))));
    assert_eq!(items(&j, "versions").len(), 3);
    assert!(flag(&j, "versioned"));
    assert!(text(&j, "note").contains("no answer says «newer»"));
    let refused = done(list_versions("https://politics.ld.admin.ch/political-rights/popular-vote/2"));
    assert_eq!(text(&refused, "error"), "not-found");
}

#[test]
fn find_cube_asks_for_every_word_lowercased() {
    let (run, req) = ask(find_cube("  Abstimmungen KANTONE ", None, None));
    assert_eq!(req.key, "find_cube:Abstimmungen KANTONE:de:10");
    assert!(req.query.contains("CONTAINS(LCASE(STR(?name)), \"abstimmungen\")"), "{}", req.query);
    assert!(req.query.contains("CONTAINS(LCASE(STR(?name)), \"kantone\")"), "{}", req.query);
    let j = done(run.resume(&ctx(), reply(answer(vec![]))));
    assert_eq!(num(&j, "total"), 0, "no hit, and no count asked for it");
    assert_eq!(text(&j, "query"), "Abstimmungen KANTONE");
}

#[test]
fn find_cube_counts_its_hits_once_and_sorts_them() {
    let (run, _) = ask(find_cube("abstimmung", None, Some(1)));
    let b = "https://politics.ld.admin.ch/political-rights/popular-vote/1";
    let a = "https://politics.ld.admin.ch/political-rights/popular-vote-stat/1";
    let names = answer(vec![
        binding(vec![("cube", uri(b)), ("name", tagged("Volksabstimmungen", "de")), ("nameLang", lit("de"))]),
        binding(vec![("cube", uri(a)), ("name", tagged("Kennzahlen zu Volksabstimmungen", "de")), ("nameLang", lit("de"))]),
    ]);
    let (run, counts) = ask(run.resume(&ctx(), reply(names)));
    assert_eq!(counts.key, "observation_counts:all");
    let j = done(run.resume(&ctx(), reply(answer(vec![binding(vec![("cube", uri(b)), ("observations", lit("7"))])]))));
    assert_eq!(num(&j, "total"), 2);
    assert_eq!(num(&j, "returned"), 1);
    assert!(flag(&j, "truncated"));
    let hits = items(&j, "hits");
    assert_eq!(text(&hits[0], "cube"), a, "sorted by IRI: «…popular-vote-stat/1» before «…popular-vote/1»");
    assert_eq!(num(&hits[0], "observations"), 0);
    assert!(flag(&hits[0], "placeholder"));
    assert_eq!(text(&hits[0], "name"), "Kennzahlen zu Volksabstimmungen");
    let short = done(find_cube("a", None, None));
    assert_eq!(text(&short, "detail"), "the query must be 2 to 100 characters");
    let long = done(find_cube("a b c d e f g h i j k l m", None, None));
    assert_eq!(text(&long, "detail"), "words: 13 were given and at most 12 may be");
}

fn shape_row(dim: &str, extra: Vec<(&str, Json)>) -> Json {
    let mut vars = vec![("dim", uri(dim))];
    vars.extend(extra);
    binding(vars)
}

#[test]
fn describe_cube_serves_the_declared_shape_and_says_it_is_only_that() {
    let (run, req) = ask(describe_cube(VOTE, None, None, None));
    assert_eq!(req.key, format!("describe_cube:{VOTE}:de"));
    let profile = answer(vec![binding(vec![
        ("name", tagged("Volksabstimmungen", "de")),
        ("nameLang", lit("de")),
        ("modified", lit("2024-03-01T10:00:00")),
        ("observations", lit("9008")),
    ])]);
    let (run, shape) = ask(run.resume(&ctx(), reply(profile)));
    assert_eq!(shape.key, format!("describe_cube:shape:{VOTE}:de"));
    let date = format!("{VOTE}/date");
    let yes = format!("{VOTE}/yes");
    let shapes = answer(vec![
        shape_row(&date, vec![("class", uri("https://cube.link/KeyDimension")), ("minCount", lit("1"))]),
        shape_row(&yes, vec![("class", uri("https://cube.link/MeasureDimension")), ("minCount", lit("0"))]),
        shape_row(&date, vec![("name", tagged("Datum", "de")), ("nameLang", lit("de"))]),
    ]);
    let (run, sample) = ask(run.resume(&ctx(), reply(shapes)));
    assert_eq!(sample.key, format!("describe_cube:sample:{VOTE}"));
    let standes = format!("{VOTE}/standesstimmenJa");
    let carried = answer(vec![
        binding(vec![("p", uri(&date))]),
        binding(vec![("p", uri(&standes))]),
    ]);
    let j = done(run.resume(&ctx(), reply(carried)));
    assert_eq!(text(&j, "name"), "Volksabstimmungen");
    assert_eq!(num(&j, "observations"), 9008);
    assert!(!flag(&j, "placeholder"));
    assert_eq!(text(field(&j, "dates"), "granularity"), "dateTime");
    assert_eq!(num(&j, "dimensions_total"), 2);
    let dims = items(&j, "dimensions");
    assert_eq!(text(&dims[0], "dimension"), date);
    assert_eq!(text(&dims[0], "dimension_kind"), "key");
    assert_eq!(text(&dims[0], "name"), "Datum");
    assert!(!flag(&dims[0], "optional"));
    assert!(flag(&dims[1], "optional"));
    assert_eq!(text(&dims[1], "dimension_kind"), "measure");
    assert!(flag(&j, "declared_only"));
    assert_eq!(strings(&j, "undeclared_in_sample"), vec![standes]);
    assert!(flag(&j, "status_unset"));
}

#[test]
fn a_declared_dimension_costs_no_request_and_an_undeclared_one_one_ask() {
    let date = format!("{VOTE}/date");
    let shapes = || answer(vec![
        shape_row(&date, vec![("inList", uri("_:b0"))]),
    ]);
    let (run, _) = ask(dimension_values(VOTE, &date, None, None));
    let (run, values) = ask(run.resume(&ctx(), reply(shapes())));
    assert!(values.key.starts_with("dimension_values:enum:"), "a closed dimension is read from its list: {}", values.key);
    let members = answer(vec![
        binding(vec![("value", uri("https://ld.admin.ch/canton/1")), ("label", tagged("Zürich", "de")), ("labelLang", lit("de"))]),
        binding(vec![("value", uri("https://ld.admin.ch/canton/1")), ("label", tagged("Zurich", "fr")), ("labelLang", lit("fr"))]),
    ]);
    let j = done(run.resume(&ctx(), reply(members)));
    assert_eq!(text(&j, "source"), "enumeration");
    assert_eq!(num(&j, "total"), 1);
    assert_eq!(field(&items(&j, "values")[0], "observations"), &Json::Null);
    assert_eq!(strings(&j, "undeclared_dimensions"), Vec::<String>::new());

    let standes = format!("{VOTE}/standesstimmenJa");
    let (run, _) = ask(dimension_values(VOTE, &standes, None, Some(0)));
    assert_eq!(run.limit, 1, "a limit below one answers at one");
    let (run, gate) = ask(run.resume(&ctx(), reply(shapes())));
    assert_eq!(gate.key, format!("ask_dimension:{VOTE}:{standes}"));
    assert!(gate.query.starts_with("PREFIX") && gate.query.contains("ASK {"));
    let (run, values) = ask(run.resume(&ctx(), reply(obj(vec![("boolean", Json::Bool(true))]))));
    assert_eq!(values.key, format!("dimension_values:{VOTE}:{standes}:de:1"));
    let counted = answer(vec![
        binding(vec![("value", lit("15.5")), ("observations", lit("3"))]),
        binding(vec![("value", lit("6.5")), ("observations", lit("2"))]),
    ]);
    let j = done(run.resume(&ctx(), reply(counted)));
    assert_eq!(text(&j, "source"), "observations");
    assert_eq!(num(&j, "total"), 2);
    assert_eq!(num(&j, "returned"), 1);
    assert!(flag(&j, "truncated"));
    assert_eq!(strings(&j, "undeclared_dimensions"), vec![standes.clone()]);

    let (run, _) = ask(dimension_values(VOTE, &standes, None, None));
    let (run, _) = ask(run.resume(&ctx(), reply(shapes())));
    let j = done(run.resume(&ctx(), reply(obj(vec![("boolean", Json::Bool(false))]))));
    assert_eq!(text(&j, "error"), "not-found");
}

fn obs_row(obs: &str, p: &str, v: Json) -> Json {
    binding(vec![("obs", uri(obs)), ("p", uri(p)), ("v", v)])
}

#[test]
fn a_filter_or_a_projection_on_a_short_name_costs_no_request() {
    let short = done(observations(VOTE, &[("date".to_string(), "1971-02-07".to_string())], &[], None, None, None));
    assert_eq!(text(&short, "error"), "invalid-input");
    assert!(text(&short, "detail").starts_with("filter: "));
    let value = done(observations(VOTE, &[(format!("{VOTE}/date"), "https://a b".to_string())], &[], None, None, None));
    assert_eq!(text(&value, "detail"), "filter value: «https://a b» begins like an IRI and is none");
    let projection = done(observations(VOTE, &[], &["date".to_string()], None, None, None));
    assert!(text(&projection, "detail").starts_with("dimensions: "));
    let many: Vec<(String, String)> = (0..25).map(|i| (format!("{VOTE}/d{i}"), "x".to_string())).collect();
    let refused = done(observations(VOTE, &many, &[], None, None, None));
    assert_eq!(text(&refused, "detail"), "filters: 25 were named and at most 24 may be");
}

#[test]
fn one_ask_per_undeclared_dimension_and_never_for_a_declared_one() {
    let date = format!("{VOTE}/date");
    let standes = format!("{VOTE}/standesstimmenJa");
    let filters = vec![(standes.clone(), "15.5".to_string()), (date.clone(), "1971-02-07".to_string())];
    let projection = vec![standes.clone(), date.clone(), standes.clone()];
    let (run, shape) = ask(observations(VOTE, &filters, &projection, None, Some(5), None));
    assert_eq!(run.projected.len(), 2, "sorted, each once");
    assert!(shape.key.starts_with("describe_cube:shape:"));
    let (run, gate) = ask(run.resume(&ctx(), reply(answer(vec![shape_row(&date, vec![])]))));
    assert_eq!(gate.key, format!("ask_dimension:{VOTE}:{standes}"));
    let (run, count) = ask(run.resume(&ctx(), reply(obj(vec![("boolean", Json::Bool(true))]))));
    assert!(matches!(run.phase, ObsPhase::Count), "the same dimension filtered again costs no second ASK");
    assert_eq!(count.key, format!("observations:count:{VOTE}:{date}=1971-02-07;{standes}=15.5"), "the filters sorted");
    assert!(count.query.contains("FILTER(STR(?filterValue0) = \"15.5\")"));
    assert!(count.query.contains("FILTER(STR(?filterValue1) = \"1971-02-07\")"));
    assert_eq!(strings_of(&run.undeclared), vec![standes.clone()]);
}

fn strings_of(v: &Vec<String>) -> Vec<String> {
    v.clone()
}

#[test]
fn a_filter_that_matches_nothing_is_a_miss_and_never_a_placeholder() {
    let date = format!("{VOTE}/date");
    let filters = vec![(date.clone(), "1800-01-01".to_string())];
    let (run, _) = ask(observations(VOTE, &filters, &[], None, None, None));
    let (run, _) = ask(run.resume(&ctx(), reply(answer(vec![shape_row(&date, vec![])]))));
    let (run, own) = ask(run.resume(&ctx(), reply(total("0"))));
    assert_eq!(own.key, format!("observations:count:{VOTE}:"));
    let (run, page) = ask(run.resume(&ctx(), reply(total("9008"))));
    assert!(matches!(run.phase, ObsPhase::Page { total: 0, placeholder: false, matched_nothing: true }));
    assert_eq!(page.key, format!("observations:{VOTE}:{date}=1800-01-01:50:0"));
    let j = done(run.resume(&ctx(), reply(answer(vec![]))));
    assert!(flag(&j, "filters_matched_nothing"));
    assert!(!flag(&j, "placeholder"));
    assert_eq!(num(&j, "returned"), 0);
    assert_eq!(strings(&j, "filters"), vec![format!("{date}=1800-01-01")]);
}

#[test]
fn a_page_of_one_region_names_it_and_a_mixed_page_refuses_to_choose() {
    let region = format!("{VOTE}/region");
    let yes = format!("{VOTE}/yes");
    let run_to_page = || {
        let (run, _) = ask(observations(VOTE, &[], &[], None, None, None));
        let (run, _) = ask(run.resume(&ctx(), reply(answer(vec![shape_row(&region, vec![])]))));
        let (run, _) = ask(run.resume(&ctx(), reply(total("2"))));
        run
    };
    let one = answer(vec![
        obs_row("https://o/1", &region, uri("https://ld.admin.ch/canton/1")),
        obs_row("https://o/1", &yes, lit("69.91")),
    ]);
    let j = done(run_to_page().resume(&ctx(), reply(one)));
    assert_eq!(text(&j, "region_state"), "read");
    assert_eq!(text(field(&j, "region"), "value"), "https://ld.admin.ch/canton/1");
    assert_eq!(num(&j, "stated_cells"), 2);
    assert_eq!(num(&j, "cells_per_row"), 2);
    assert!(!flag(&j, "placeholder"));
    let mixed = answer(vec![
        obs_row("https://o/1", &region, uri("https://ld.admin.ch/canton/1")),
        obs_row("https://o/2", &region, uri("https://ld.admin.ch/country/CHE")),
    ]);
    let j = done(run_to_page().resume(&ctx(), reply(mixed)));
    assert!(text(&j, "region_state").starts_with("mixed"));
    assert_eq!(field(&j, "region"), &Json::Null);
    assert_eq!(num(&j, "regions_on_page"), 2);
    assert_eq!(text(&j, "national_row"), "https://o/2");
    assert_eq!(num(&j, "returned"), 2);
}

#[test]
fn the_advice_is_charged_on_the_first_page_and_pointed_at_afterwards() {
    let region = format!("{VOTE}/region");
    let standes = format!("{VOTE}/standesstimmenJa");
    let rows = || answer(vec![
        obs_row("https://o/1", &region, uri("https://ld.admin.ch/canton/1")),
        obs_row("https://o/1", &standes, lit("15.5")),
    ]);
    for (offset, full) in [(0u32, true), (50, false)] {
        let (run, _) = ask(observations(VOTE, &[], &[], None, None, Some(offset)));
        let (run, _) = ask(run.resume(&ctx(), reply(answer(vec![shape_row(&region, vec![])]))));
        let (run, _) = ask(run.resume(&ctx(), reply(total("100"))));
        let j = done(run.resume(&ctx(), reply(rows())));
        let advice = field(&j, "fewer_cells");
        assert_eq!(num(advice, "cells_per_row"), 2);
        assert!(num(advice, "rows_bytes") > 0);
        if full {
            let declared = field(advice, "declared_only");
            assert_eq!(strings(declared, "dimensions"), vec![region.clone()]);
            assert!(num(declared, "rows_bytes") < num(advice, "rows_bytes"));
        } else {
            assert_eq!(num(advice, "declared_dimensions"), 1);
            assert!(get(advice, "declared_only").is_none());
        }
    }
}

#[test]
fn a_projection_takes_cells_away_never_rows() {
    let region = format!("{VOTE}/region");
    let (run, _) = ask(observations(VOTE, &[], &[region.clone()], None, None, None));
    let (run, _) = ask(run.resume(&ctx(), reply(answer(vec![shape_row(&region, vec![])]))));
    let (run, page) = ask(run.resume(&ctx(), reply(total("2"))));
    assert!(page.key.contains(&format!(":dims={region}:50:0")), "{}", page.key);
    let rows = answer(vec![
        binding(vec![("obs", uri("https://o/1"))]),
        obs_row("https://o/2", &region, uri("https://ld.admin.ch/canton/2")),
    ]);
    let j = done(run.resume(&ctx(), reply(rows)));
    assert_eq!(num(&j, "returned"), 2, "a row carrying none of the projected cells still comes back");
    assert_eq!(items(&items(&j, "observations")[0], "cells").len(), 0);
    assert_eq!(field(&j, "fewer_cells"), &Json::Null);
    assert_eq!(strings(&j, "dimensions"), vec![region]);
    assert!(text(&j, "citation_shape_read_over").starts_with("the projected cells only"));
}

const VOTE_DIM: &str = "https://politics.ld.admin.ch/political-rights/popular-vote";

/// Every cap refuses before a request, names how many were given and how
/// many may be, and claims no check it did not make.
#[test]
fn every_cap_is_held_and_each_refusal_names_only_the_count() {
    let names: Vec<String> = (0..30).map(|n| format!("{VOTE_DIM}/dimension{n}")).collect();
    let filters: Vec<(String, String)> = names.iter().map(|d| (d.clone(), "x".to_string())).collect();
    let mut mixed = filters.clone();
    mixed[7] = ("datum".to_string(), "1971-02-07".to_string());
    let long_query = (1..=13).map(|n| format!("w{n:02}")).collect::<Vec<_>>().join(" ");
    assert!(long_query.chars().count() <= 100);

    for (what, cap, out) in [
        ("dimensions", 24, done(observations(VOTE, &[], &names, None, Some(5), None))),
        ("filters", 24, done(observations(VOTE, &filters, &[], None, Some(5), None))),
        ("filters", 24, done(observations(VOTE, &mixed, &[], None, Some(5), None))),
        ("words", 12, done(find_cube(&long_query, None, None))),
    ] {
        assert_eq!(text(&out, "error"), "invalid-input", "{what}: {out:?}");
        let detail = text(&out, "detail");
        assert!(detail.contains(what) && detail.contains(&format!("at most {cap}")), "{what}: {detail}");
        let accepted = text(&out, "accepted");
        assert!(accepted.starts_with(&format!("at most {cap}")) && accepted.contains("a COUNT"), "{what}: {accepted}");
        assert!(!accepted.contains("well formed"), "{what}: {accepted}");
    }
}

/// The refusals a guessing caller meets all state what they accept, and
/// a name that is no IRI costs no request.
#[test]
fn the_refusals_a_guessing_model_meets_all_state_what_they_accept() {
    const ACCEPTED_DIMENSION: &str = "{dimension: <full IRI as describe_cube served it>, value: <IRI or plain literal>}";
    let refusal = oh_mcp_lindas::server::split_filters(&["datum 1971-02-07".to_string()]).expect_err("no «=» is no filter");
    assert_eq!(text(&refusal, "error"), "invalid-input");
    assert_eq!(text(&refusal, "accepted"), ACCEPTED_DIMENSION);
    assert!(text(&refusal, "detail").contains("«datum 1971-02-07»"));

    for (what, out) in [
        ("dimension_values", done(dimension_values(VOTE, "typologie", None, None))),
        ("a cube that is no IRI", done(describe_cube("popular-vote", None, None, None))),
    ] {
        assert_eq!(text(&out, "error"), "invalid-input", "{what}: {out:?}");
        assert!(matches!(field(&out, "accepted"), Json::Str(_)), "{what}: {out:?}");
        assert!(text(&out, "note").contains("lindas."), "{what}: {out:?}");
    }
    let cube = done(describe_cube("popular-vote", None, None, None));
    let note = text(&cube, "note");
    assert!(note.contains("lindas.list_cubes") && note.contains("lindas.find_cube"), "{note}");
}

/// Every clamp answers at its ceiling: a limit above it is served at it,
/// and the answer or the request key says so.
#[test]
fn every_clamp_answers_at_its_ceiling_and_says_so() {
    let over = 100_000;
    let (run, _) = ask(list_cubes(None, None, Some(over), None));
    let (run, _) = ask(run.resume(&ctx(), reply(answer(vec![]))));
    let cubes = done(run.resume(&ctx(), reply(answer(vec![]))));
    assert_eq!(num(&cubes, "limit"), 100, "at most 100 cubes");

    let (run, _) = ask(describe_cube(VOTE, None, Some(over), None));
    let profile = answer(vec![binding(vec![("name", tagged("Volksabstimmungen", "de")), ("nameLang", lit("de"))])]);
    let (run, _) = ask(run.resume(&ctx(), reply(profile)));
    let (run, _) = ask(run.resume(&ctx(), reply(answer(vec![shape_row(&format!("{VOTE}/date"), vec![])]))));
    let shape = done(run.resume(&ctx(), reply(answer(vec![]))));
    assert_eq!(num(&shape, "limit"), 100, "at most 100 dimensions");

    let date = format!("{VOTE}/date");
    let (run, _) = ask(dimension_values(VOTE, &date, None, Some(over)));
    assert_eq!(run.limit, 200, "at most 200 values");
    let (run, _) = ask(run.resume(&ctx(), reply(answer(vec![shape_row(&date, vec![("inList", uri("_:b0"))])]))));
    let values = done(run.resume(&ctx(), reply(answer(vec![]))));
    assert_eq!(num(&values, "limit"), 200);

    let (_, hits) = ask(find_cube("Abstimmung", None, Some(over)));
    assert!(hits.key.ends_with(":de:50"), "at most 50 hits: {}", hits.key);

    let (run, _) = ask(observations(VOTE, &[(date.clone(), "1971-02-07".to_string())], &[], None, Some(over), None));
    let (run, _) = ask(run.resume(&ctx(), reply(answer(vec![shape_row(&date, vec![])]))));
    let (_, rows) = ask(run.resume(&ctx(), reply(total("3"))));
    assert!(rows.key.ends_with(":200:0"), "at most 200 rows: {}", rows.key);

    let (run, _) = ask(describe(&ctx(), "https://ld.admin.ch/canton/1", None, Some(over), None));
    let (_, statements) = ask(run.resume(&ctx(), reply(total("3"))));
    assert!(statements.key.ends_with(":400:0"), "at most 400 statements: {}", statements.key);
}

const UNDEFINED: &str = "https://cube.link/Undefined";

/// «Not stated» is answered for both forms, with no value, and the answer
/// counts stated against not-stated cells.
#[test]
fn both_forms_of_not_stated_are_answered_as_such() {
    let region = format!("{VOTE}/region");
    let yes = format!("{VOTE}/yes");
    let mm = format!("{VOTE}/mmDate");
    let (run, _) = ask(observations(VOTE, &[], &[], None, Some(5), None));
    let (run, _) = ask(run.resume(&ctx(), reply(answer(vec![shape_row(&region, vec![])]))));
    let (run, _) = ask(run.resume(&ctx(), reply(total("1"))));
    let rows = answer(vec![
        obs_row("https://o/1", &region, uri("https://ld.admin.ch/country/CHE")),
        obs_row("https://o/1", &yes, uri(UNDEFINED)),
        obs_row("https://o/1", &mm, obj(vec![("type", s("literal")), ("value", s("")), ("datatype", s(UNDEFINED))])),
    ]);
    let out = done(run.resume(&ctx(), reply(rows)));
    let cells = items(&items(&out, "observations")[0], "cells");
    let not_stated: Vec<&Json> = cells.iter().filter(|c| !flag(c, "stated")).collect();
    assert_eq!(not_stated.len(), 2);
    assert!(not_stated.iter().all(|c| get(c, "value").is_none()), "never 0, never «»");
    let forms: std::collections::BTreeSet<&str> = not_stated.iter().map(|c| text(c, "form")).collect();
    assert!(forms.contains("iri") && forms.contains("literal"), "{forms:?}");
    assert_eq!(num(&out, "not_stated_cells"), not_stated.len() as u64);
    assert!(num(&out, "stated_cells") > 0);
}

/// A candidate the store names without a language tag reaches the row
/// with that name as its label, tagged «und».
#[test]
fn an_untagged_candidate_name_reaches_the_row_as_its_label() {
    let cube = "https://politics.ld.admin.ch/national-council-election/candidates/2023";
    let stem = "https://politics.ld.admin.ch/national-council-election/candidates";
    let canton = format!("{stem}/hasCanton");
    let elected = format!("{stem}/elected");
    let candidate = format!("{stem}/hasCandidate");
    let filters = vec![(canton.clone(), "https://ld.admin.ch/canton/1".to_string()), (elected.clone(), "true".to_string())];
    let (run, _) = ask(observations(cube, &filters, &[], None, Some(5), None));
    let shape = answer(vec![shape_row(&canton, vec![]), shape_row(&elected, vec![]), shape_row(&candidate, vec![])]);
    let (run, _) = ask(run.resume(&ctx(), reply(shape)));
    let (run, _) = ask(run.resume(&ctx(), reply(total("1"))));
    let row = binding(vec![
        ("obs", uri("https://o/7")),
        ("p", uri(&candidate)),
        ("v", uri("https://politics.ld.admin.ch/person/42")),
        ("label", lit("Muster Anna")),
        ("labelLang", lit("")),
    ]);
    let out = done(run.resume(&ctx(), reply(answer(vec![row]))));
    let cells = items(&items(&out, "observations")[0], "cells");
    let labelled: Vec<&Json> = cells.iter().filter(|c| text(c, "dimension").ends_with("/hasCandidate")).collect();
    assert_eq!(labelled.len(), 1);
    assert_eq!(text(labelled[0], "label"), "Muster Anna");
    assert_eq!(text(labelled[0], "label_lang"), "und", "the store tagged no language");
}

/// A typed cell answers a plain-text filter: the comparison is on the
/// lexical form, and no typed literal stands in the pattern.
#[test]
fn a_lexical_filter_is_immune_to_typed_numerics() {
    let date = format!("{VOTE}/date");
    let standes = format!("{VOTE}/standesstimmenJa");
    let filters = vec![(date.clone(), "1971-02-07".to_string()), (standes.clone(), "15.5".to_string())];
    let (run, _) = ask(observations(VOTE, &filters, &[], None, Some(5), None));
    let (run, _) = ask(run.resume(&ctx(), reply(answer(vec![shape_row(&date, vec![]), shape_row(&standes, vec![])]))));
    let (run, count) = ask(run.resume(&ctx(), reply(total("1"))));
    assert!(count.query.contains("FILTER(STR("), "{}", count.query);
    assert!(!count.query.contains("^^"), "{}", count.query);
    let row = obs_row(
        "https://o/1",
        &standes,
        obj(vec![("type", s("literal")), ("value", s("15.5")), ("datatype", s("http://www.w3.org/2001/XMLSchema#decimal"))]),
    );
    let out = done(run.resume(&ctx(), reply(answer(vec![row]))));
    assert_eq!(num(&out, "total"), 1);
    let query = text(field(&out, "provenance"), "query");
    assert!(query.contains("FILTER(STR(") && !query.contains("^^"), "{query}");
}

/// Runs an observations call to its answer: the shape, the bound ASKs,
/// the counts and the page each get the reply given for them.
fn drive_observations(step: Step<ObservationsRun>, shape: impl Fn() -> Json, carried: bool, count: &str, rows: impl Fn() -> Json) -> Json {
    drive_observations_counted(step, shape, carried, count, rows).0
}

/// As [`drive_observations`], with the number of requests the call made.
fn drive_observations_counted(
    mut step: Step<ObservationsRun>,
    shape: impl Fn() -> Json,
    carried: bool,
    count: &str,
    rows: impl Fn() -> Json,
) -> (Json, usize) {
    let mut requests = 0;
    loop {
        match step {
            Step::Done(j) => return (j, requests),
            Step::Ask(run, req) => {
                requests += 1;
                let value = if req.key.starts_with("describe_cube:shape:") {
                    shape()
                } else if req.key.starts_with("ask_dimension:") {
                    obj(vec![("boolean", Json::Bool(carried))])
                } else if req.key.starts_with("observations:count:") {
                    total(count)
                } else {
                    rows()
                };
                step = run.resume(&ctx(), reply(value));
            },
        }
    }
}

/// Runs a describe_cube call to its answer with the profile given, and
/// empty answers for what follows it.
fn drive_describe_cube(step: Step<DescribeCubeRun>, profile: Json) -> Json {
    let (run, _) = ask(step);
    let mut step = run.resume(&ctx(), reply(profile));
    loop {
        match step {
            Step::Done(j) => return j,
            Step::Ask(run, _) => step = run.resume(&ctx(), reply(answer(vec![]))),
        }
    }
}

/// A cube with no rows answers that it is a placeholder — an answer, not
/// a refusal, with no shape and no rows.
#[test]
fn a_placeholder_cube_answers_that_it_is_one() {
    let cube = "https://politics.ld.admin.ch/national-council-election/candidates/2027";
    let profile = answer(vec![binding(vec![
        ("name", tagged("Kandidierende 2027", "de")),
        ("nameLang", lit("de")),
        ("observations", lit("0")),
    ])]);
    let out = drive_describe_cube(describe_cube(cube, None, None, None), profile);
    assert!(get(&out, "error").is_none(), "{out:?}");
    assert_eq!(num(&out, "observations"), 0);
    assert!(flag(&out, "placeholder"));
    assert_eq!(num(&out, "dimensions_total"), 0, "a cube with no rows has no shape");
    let rows = drive_observations(observations(cube, &[], &[], None, Some(5), None), || answer(vec![]), true, "0", || answer(vec![]));
    assert!(get(&rows, "error").is_none(), "{rows:?}");
    assert_eq!(num(&rows, "total"), 0);
    assert!(flag(&rows, "placeholder"));
    assert_eq!(items(&rows, "observations").len(), 0);
}

/// The three-step rule decides every filter: declared costs no request,
/// undeclared but carried is admitted and named, absent is not-found
/// echoing the pair; what needs no request stays invalid-input.
#[test]
fn the_three_step_dimension_rule_decides_every_filter() {
    let date = format!("{VOTE}/date");
    let region = format!("{VOTE}/region");
    let standes = format!("{VOTE}/standesstimmenJa");
    let shape = || answer(vec![shape_row(&date, vec![]), shape_row(&region, vec![])]);
    let national = || answer(vec![obs_row("https://o/1", &region, uri("https://ld.admin.ch/country/CHE"))]);

    let declared = drive_observations(
        observations(VOTE, &[(date.clone(), "1971-02-07".to_string()), (region.clone(), "https://ld.admin.ch/country/CHE".to_string())], &[], None, Some(5), None),
        shape,
        true,
        "1",
        national,
    );
    assert!(get(&declared, "error").is_none(), "{declared:?}");
    assert_eq!(items(&declared, "undeclared_dimensions").len(), 0);

    let undeclared = drive_observations(
        observations(VOTE, &[(date.clone(), "1971-02-07".to_string()), (standes.clone(), "15.5".to_string())], &[], None, Some(5), None),
        shape,
        true,
        "1",
        national,
    );
    assert!(get(&undeclared, "error").is_none(), "{undeclared:?}");
    assert_eq!(strings(&undeclared, "undeclared_dimensions"), vec![standes.clone()]);
    assert_eq!(num(&undeclared, "total"), 1);

    let absent_dim = format!("{VOTE}/gibtEsNicht");
    let absent = drive_observations(observations(VOTE, &[(absent_dim.clone(), "x".to_string())], &[], None, Some(5), None), shape, false, "1", national);
    assert_eq!(text(&absent, "error"), "not-found", "{absent:?}");
    assert_eq!(text(field(&absent, "subject"), "cube"), VOTE);
    assert_eq!(text(field(&absent, "subject"), "dimension"), absent_dim);

    let malformed = done(observations(VOTE, &[("not-an-iri".to_string(), "x".to_string())], &[], None, None, None));
    assert_eq!(text(&malformed, "error"), "invalid-input");
    let unknown = done(observations("https://politics.ld.admin.ch/political-rights/popular-vote/2", &[], &[], None, None, None));
    assert_eq!(text(&unknown, "error"), "not-found");
    let bad_lang = done(observations(VOTE, &[], &[], Some("es"), None, None));
    assert_eq!(text(&bad_lang, "error"), "invalid-input");
}

/// The Ständemehr is read as the store holds it, never derived, and the
/// answer says which region it read; the outcome is an IRI with a label.
#[test]
fn the_staendemehr_is_read_and_never_derived() {
    let date = format!("{VOTE}/date");
    let region = format!("{VOTE}/region");
    let dec = |v: &str| obj(vec![("type", s("literal")), ("value", s(v)), ("datatype", s("http://www.w3.org/2001/XMLSchema#decimal"))]);
    let o = "https://o/ch-1971";
    let outcome = "https://politics.ld.admin.ch/political-rights/popular-vote/ergebnis/1";
    let rows = || answer(vec![
        obs_row(o, &region, uri("https://ld.admin.ch/country/CHE")),
        obs_row(o, &format!("{VOTE}/standesstimmenJa"), dec("15.5")),
        obs_row(o, &format!("{VOTE}/standesstimmenNein"), dec("6.5")),
        obs_row(o, &format!("{VOTE}/kantoneJaGanzeStandesstimme"), lit("14")),
        obs_row(o, &format!("{VOTE}/kantoneJaHalbeStandesstimme"), lit("3")),
        obs_row(o, &format!("{VOTE}/staendeJaText"), lit("14 3/2")),
        obs_row(o, &format!("{VOTE}/jaAnteil"), dec("65.73")),
        binding(vec![("obs", uri(o)), ("p", uri(&format!("{VOTE}/ergebnis"))), ("v", uri(outcome)), ("label", tagged("angenommen", "de")), ("labelLang", lit("de"))]),
    ]);
    let out = drive_observations(
        observations(VOTE, &[(date.clone(), "1971-02-07".to_string()), (region.clone(), "https://ld.admin.ch/country/CHE".to_string())], &[], None, Some(5), None),
        || answer(vec![shape_row(&date, vec![]), shape_row(&region, vec![])]),
        true,
        "1",
        rows,
    );
    let observed = items(&out, "observations");
    assert_eq!(observed.len(), 1, "one vote, one region");
    let cells = items(&observed[0], "cells");
    let value_of = |suffix: &str| -> Option<String> {
        cells.iter().find(|c| text(c, "dimension").ends_with(suffix)).and_then(|c| match get(c, "value") {
            Some(Json::Str(v)) => Some(v.clone()),
            _ => None,
        })
    };
    assert_eq!(value_of("/standesstimmenJa").as_deref(), Some("15.5"));
    assert_eq!(value_of("/standesstimmenNein").as_deref(), Some("6.5"));
    assert_eq!(value_of("/kantoneJaGanzeStandesstimme").as_deref(), Some("14"));
    assert_eq!(value_of("/kantoneJaHalbeStandesstimme").as_deref(), Some("3"));
    assert_eq!(value_of("/staendeJaText").as_deref(), Some("14 3/2"));
    assert_eq!(value_of("/jaAnteil").as_deref(), Some("65.73"));
    assert_eq!(text(field(&out, "region"), "value"), "https://ld.admin.ch/country/CHE");
    let result = cells.iter().find(|c| text(c, "dimension").ends_with("/ergebnis")).expect("the outcome cell");
    assert!(text(result, "value").contains("/ergebnis/"));
    assert!(text(result, "label").contains("angenommen"));
}

/// The publisher is named once, in the cube's profile, and never repeated
/// on a row.
#[test]
fn attribution_is_named_once_and_never_repeated_per_row() {
    let profile = answer(vec![binding(vec![
        ("name", tagged("Volksabstimmungen", "de")),
        ("nameLang", lit("de")),
        ("publisher", uri("https://register.ld.admin.ch/opendataswiss/org/bundeskanzlei-bk")),
        ("observations", lit("9008")),
    ])]);
    let described = drive_describe_cube(describe_cube(VOTE, None, None, None), profile);
    assert!(text(&described, "publisher").starts_with("https://"), "{described:?}");
    let region = format!("{VOTE}/region");
    let rows = || answer(vec![obs_row("https://o/1", &region, uri("https://ld.admin.ch/country/CHE"))]);
    let out = drive_observations(observations(VOTE, &[], &[], None, Some(5), None), || answer(vec![shape_row(&region, vec![])]), true, "1", rows);
    for row in items(&out, "observations") {
        for name in ["publisher", "creator", "contributor"] {
            assert!(get(row, name).is_none(), "a row repeats «{name}»: {row:?}");
        }
    }
}

/// A label is asked of the one endpoint whatever host the IRI has: a
/// foreign IRI is a subject, and one the store does not know is an
/// answer without a label.
#[test]
fn a_label_is_asked_of_the_one_endpoint_whatever_host_the_iri_has() {
    let (run, req) = ask(resolve_label(&ctx(), "https://ld.admin.ch/canton/1", None));
    assert!(!req.wide);
    let labels = answer(vec![
        binding(vec![("known", lit("1")), ("label", tagged("Zürich", "de")), ("labelLang", lit("de"))]),
        binding(vec![("known", lit("1")), ("label", tagged("Zurich", "fr")), ("labelLang", lit("fr"))]),
        binding(vec![("known", lit("1")), ("label", tagged("Zurigo", "it")), ("labelLang", lit("it"))]),
        binding(vec![("known", lit("1")), ("label", tagged("Zurich", "en")), ("labelLang", lit("en"))]),
    ]);
    let canton = done(run.resume(&ctx(), reply(labels)));
    assert_eq!(text(&canton, "kind"), "hint");
    assert_eq!(text(&canton, "label"), "Zürich");
    assert_eq!(text(&canton, "label_lang"), "de");
    assert!(flag(&canton, "in_store"));
    assert!(items(&canton, "languages").len() >= 4);

    let concept = "https://www.i14y.admin.ch/resources/codelists/CL_SEX/1/concepts/1";
    let (run, _) = ask(resolve_label(&ctx(), concept, None));
    let sex = done(run.resume(&ctx(), reply(answer(vec![]))));
    assert!(get(&sex, "error").is_none(), "a foreign IRI is a subject: {sex:?}");
    assert!(!flag(&sex, "in_store"));
    assert_eq!(field(&sex, "label"), &Json::Null, "an answer, not a fetch");

    let malformed = done(resolve_label(&ctx(), "canton/1", None));
    assert_eq!(text(&malformed, "error"), "invalid-input");
}

/// `describe` answers from the one endpoint, caps its rows, and a subject
/// the store says nothing of is not found.
#[test]
fn describe_answers_from_the_one_endpoint_and_caps_its_rows() {
    let (run, _) = ask(describe(&ctx(), "https://ld.admin.ch/canton/1", None, Some(50), None));
    let (run, _) = ask(run.resume(&ctx(), reply(total("228"))));
    let name = "http://schema.org/name";
    let rows = answer(vec![
        binding(vec![("p", uri(name)), ("v", tagged("Zürich", "de"))]),
        binding(vec![("p", uri("http://schema.org/identifier")), ("v", lit("1"))]),
    ]);
    let out = done(run.resume(&ctx(), reply(rows)));
    assert_eq!(text(&out, "kind"), "norm");
    assert_eq!(text(&out, "via"), "endpoint");
    assert!(num(&out, "total") > 0);
    assert_eq!(num(&out, "returned"), items(&out, "statements").len() as u64);
    assert!(num(&out, "limit") <= 400);
    let (run, _) = ask(describe(&ctx(), "https://politics.ld.admin.ch/nothing/at/all", None, None, None));
    let unknown = done(run.resume(&ctx(), reply(total("0"))));
    assert_eq!(text(&unknown, "error"), "not-found");
}

/// A projection asks for the cells the question needs: three cells, the
/// undeclared Ständemehr admitted and named, and no advice to project.
#[test]
fn a_projection_asks_for_the_cells_the_question_needs() {
    let date = format!("{VOTE}/date");
    let region = format!("{VOTE}/region");
    let standes = format!("{VOTE}/standesstimmenJa");
    let filters = vec![(date.clone(), "1971-02-07".to_string()), (region.clone(), "https://ld.admin.ch/country/CHE".to_string())];
    let projection = vec![date.clone(), region.clone(), standes.clone()];
    let o = "https://o/ch-1971";
    let rows = || {
        answer(vec![
            obs_row(o, &date, lit("1971-02-07")),
            obs_row(o, &region, uri("https://ld.admin.ch/country/CHE")),
            obs_row(o, &standes, obj(vec![("type", s("literal")), ("value", s("15.5")), ("datatype", s("http://www.w3.org/2001/XMLSchema#decimal"))])),
        ])
    };
    let out = drive_observations(
        observations(VOTE, &filters, &projection, None, Some(5), None),
        || answer(vec![shape_row(&date, vec![]), shape_row(&region, vec![])]),
        true,
        "1",
        rows,
    );
    assert_eq!(text(&out, "kind"), "norm", "{out:?}");
    assert_eq!(num(&out, "returned"), 1);
    assert_eq!(num(&out, "cells_per_row"), 3);
    assert_eq!(items(&out, "dimensions").len(), 3, "the answer echoes the projection it served");
    let cells = items(&items(&out, "observations")[0], "cells");
    assert_eq!(cells.len(), 3);
    assert!(cells.iter().any(|c| text(c, "dimension").ends_with("/standesstimmenJa") && text(c, "value") == "15.5"));
    assert_eq!(strings(&out, "undeclared_dimensions"), vec![standes.clone()]);
    assert_eq!(field(&out, "fewer_cells"), &Json::Null, "a caller that projected needs no advice about projecting");
}

/// The three-step rule applies to a projected dimension as to a filtered
/// one, and each step costs what it says.
#[test]
fn p12s_three_steps_apply_to_a_projection_too() {
    let date = format!("{VOTE}/date");
    let region = format!("{VOTE}/region");
    let standes = format!("{VOTE}/standesstimmenJa");
    let shape = || answer(vec![shape_row(&date, vec![]), shape_row(&region, vec![])]);
    let rows = || answer(vec![obs_row("https://o/1", &region, uri("https://ld.admin.ch/country/CHE"))]);
    let filters = vec![(date.clone(), "1971-02-07".to_string()), (region.clone(), "https://ld.admin.ch/country/CHE".to_string())];
    let cost_of = |projection: &[String], carried: bool| {
        drive_observations_counted(observations(VOTE, &filters, projection, None, Some(5), None), shape, carried, "1", rows)
    };

    let (declared, declared_cost) = cost_of(&[date.clone(), region.clone()], true);
    assert_eq!(text(&declared, "kind"), "norm", "{declared:?}");
    assert_eq!(declared_cost, 3, "shape, count, page");

    let (undeclared, undeclared_cost) = cost_of(&[date.clone(), region.clone(), standes.clone()], true);
    assert_eq!(undeclared_cost, 4, "one ASK for the one undeclared dimension");
    assert_eq!(items(&undeclared, "undeclared_dimensions").len(), 1);

    let absent_dim = format!("{VOTE}/gibtEsNicht");
    let (absent, absent_cost) = cost_of(&[absent_dim.clone()], false);
    assert_eq!(text(&absent, "error"), "not-found", "{absent:?}");
    assert_eq!(text(field(&absent, "subject"), "cube"), VOTE);
    assert!(text(field(&absent, "subject"), "dimension").ends_with("/gibtEsNicht"));
    assert_eq!(absent_cost, 2, "the shape and the false ASK, and the refusal before the count and the page");

    let both = vec![(date.clone(), "1971-02-07".to_string()), (standes.clone(), "15.5".to_string())];
    let cost = |projection: &[String]| {
        drive_observations_counted(observations(VOTE, &both, projection, None, Some(5), None), shape, true, "1", rows)
    };
    let (filtered, filtered_cost) = cost(&[]);
    assert_eq!(text(&filtered, "kind"), "norm");
    assert_eq!(filtered_cost, 4, "shape, the ASK, count, page");
    let (_, both_cost) = cost(&[standes.clone()]);
    assert_eq!(both_cost, filtered_cost, "the same dimension named twice is asked once");
}

/// An unprojected wide answer says which projection would fit, measured
/// on that answer; a narrow one says nothing.
#[test]
fn the_answer_says_which_projection_would_fit() {
    let date = format!("{VOTE}/date");
    let region = format!("{VOTE}/region");
    let o = "https://o/ch-1971";
    let wide = || {
        let mut rows = vec![obs_row(o, &date, lit("1971-02-07")), obs_row(o, &region, uri("https://ld.admin.ch/country/CHE"))];
        for n in 0..20 {
            rows.push(obs_row(o, &format!("{VOTE}/figure{n:02}"), lit(&format!("{}", 1000 + n))));
        }
        answer(rows)
    };
    let shape = || answer(vec![shape_row(&date, vec![]), shape_row(&region, vec![])]);
    let filters = vec![(date.clone(), "1971-02-07".to_string()), (region.clone(), "https://ld.admin.ch/country/CHE".to_string())];
    let out = drive_observations(observations(VOTE, &filters, &[], None, Some(5), None), shape, true, "1", wide);
    assert_eq!(num(&out, "cells_per_row"), 22, "the row as the record carries it");
    let advice = field(&out, "fewer_cells");
    assert_eq!(num(advice, "cells_per_row"), 22);
    let declared = field(advice, "declared_only");
    assert_eq!(num(declared, "cells_per_row"), 2, "the shape declares two of them");
    let now = num(advice, "rows_bytes");
    let projected = num(declared, "rows_bytes");
    assert!(projected * 2 < now, "measured on this answer: {now} bytes against {projected}");
    assert!(text(declared, "warning").contains("Ständemehr"));

    let narrow = || answer(vec![obs_row(o, &date, lit("1971-02-07")), obs_row(o, &region, uri("https://ld.admin.ch/country/CHE"))]);
    let out = drive_observations(observations(VOTE, &[], &[], None, Some(3), None), shape, true, "1", narrow);
    assert_eq!(num(&out, "cells_per_row"), 2);
    assert_eq!(field(&out, "fewer_cells"), &Json::Null, "nothing to save, nothing said");
}

/// A projection says whether the region and the citation shape could be
/// read: read, not projected, carried by no row of the page, or neither
/// carried nor declared.
#[test]
fn a_projection_says_whether_the_region_and_the_citation_shape_could_be_read() {
    let date = format!("{VOTE}/date");
    let region = format!("{VOTE}/region");
    let standes = format!("{VOTE}/standesstimmenJa");
    let o = "https://o/ch-1971";
    let filters = vec![(date.clone(), "1971-02-07".to_string()), (region.clone(), "https://ld.admin.ch/country/CHE".to_string())];
    let shape = || answer(vec![shape_row(&date, vec![]), shape_row(&region, vec![])]);
    let full = || answer(vec![obs_row(o, &date, lit("1971-02-07")), obs_row(o, &region, uri("https://ld.admin.ch/country/CHE"))]);

    let all = drive_observations(observations(VOTE, &filters, &[], None, Some(5), None), shape, true, "1", full);
    assert!(matches!(field(&all, "region"), Json::Obj(_)), "the region is read: {all:?}");
    assert_eq!(text(&all, "region_state"), "read");
    assert_eq!(text(&all, "citation_shape_read_over"), "every cell of the row");

    let narrow = drive_observations(
        observations(VOTE, &filters, &[date.clone(), region.clone(), standes.clone()], None, Some(5), None),
        shape,
        true,
        "1",
        full,
    );
    assert_eq!(text(&narrow, "region_state"), "read");
    assert!(text(&narrow, "citation_shape_read_over").contains("projected cells only"), "{narrow:?}");

    let dated = || answer(vec![obs_row(o, &date, lit("1971-02-07"))]);
    let out = drive_observations(observations(VOTE, &[], &[date.clone()], None, Some(5), None), shape, true, "1", dated);
    assert_eq!(field(&out, "region"), &Json::Null);
    assert!(text(&out, "region_state").starts_with("not projected"), "{out:?}");

    let date_only = || answer(vec![shape_row(&date, vec![])]);
    let out = drive_observations(observations(VOTE, &[], &[date.clone(), region.clone()], None, Some(5), None), date_only, true, "1", dated);
    assert_eq!(items(&out, "undeclared_dimensions").len(), 1, "the ASK admitted the region");
    assert_eq!(text(&out, "region_state"), "the rows of this page carry none");

    let vested = "https://politics.ld.admin.ch/fch/apg/vested-interest/1";
    let person = "https://politics.ld.admin.ch/fch/apg/vested-interest/person";
    let out = drive_observations(
        observations(vested, &[], &[], None, Some(3), None),
        || answer(vec![shape_row(person, vec![])]),
        true,
        "1",
        || answer(vec![obs_row("https://o/v1", person, uri("https://politics.ld.admin.ch/fch/apg/person/1"))]),
    );
    assert_eq!(field(&out, "region"), &Json::Null);
    assert_eq!(
        text(&out, "region_state"),
        "no row of this page carries a region cell, and the shape declares no region dimension"
    );
}

/// `list_cubes` serves the whole scope with its states: a missing status
/// and an empty cube are two independent facts, a status is served with
/// its label, and a description carries its own language.
#[test]
fn list_cubes_serves_the_scope_with_its_states() {
    let iris = oh_mcp_lindas::scope::all();
    assert_eq!(iris.len(), 44);
    let published = "https://ld.admin.ch/vocabulary/CreativeWorkStatus/Published";
    let empty: Vec<&String> = iris.iter().filter(|c| c.contains("national-council-election") && c.ends_with("/2027")).take(4).collect();
    let unset: Vec<&String> = iris.iter().filter(|c| !c.ends_with("/2027")).take(12).chain(empty.iter().take(2).copied()).collect();
    let profiles = answer(
        iris.iter()
            .map(|c| {
                let mut vars = vec![("cube", uri(c)), ("name", tagged(&format!("Würfel {c}"), "de")), ("nameLang", lit("de"))];
                if !unset.contains(&c) {
                    vars.push(("status", uri(published)));
                    vars.push(("statusLabel", tagged("Publiziert", "de")));
                    vars.push(("statusLabelLang", lit("de")));
                }
                if c.ends_with("popular-vote/1") {
                    vars.push(("description", tagged("Eidgenössische Volksabstimmungen", "de")));
                    vars.push(("descriptionLang", lit("de")));
                }
                binding(vars)
            })
            .collect(),
    );
    let counts = answer(
        iris.iter().filter(|c| !empty.contains(c)).map(|c| binding(vec![("cube", uri(c)), ("observations", lit("12"))])).collect(),
    );
    let (run, _) = ask(list_cubes(None, None, Some(50), None));
    let (run, _) = ask(run.resume(&ctx(), reply(profiles)));
    let out = done(run.resume(&ctx(), reply(counts)));
    assert_eq!(text(&out, "kind"), "norm");
    assert_eq!(num(&out, "total"), 44);
    assert_eq!(num(&out, "returned"), 44, "the whole scope fits under a limit of 50");
    assert!(!flag(&out, "truncated"));
    let provenance = field(&out, "provenance");
    assert_eq!(text(provenance, "licence"), "not stated at the source");
    assert_eq!(text(provenance, "access"), "public (I14Y)");
    assert_eq!(text(provenance, "as_of"), "2026-09-01");
    let cubes = items(&out, "cubes");
    assert_eq!(cubes.iter().filter(|c| flag(c, "status_unset")).count(), 14);
    assert_eq!(cubes.iter().filter(|c| flag(c, "placeholder")).count(), 4);
    assert_eq!(cubes.iter().filter(|c| flag(c, "status_unset") && flag(c, "placeholder")).count(), 2);
    let with_status = cubes.iter().find(|c| !flag(c, "status_unset")).expect("a published cube");
    assert!(text(with_status, "status").contains("CreativeWorkStatus/Published"));
    assert_eq!(text(with_status, "status_label"), "Publiziert");
    assert_eq!(text(with_status, "status_label_lang"), "de");
    let described = cubes.iter().find(|c| matches!(get(c, "description"), Some(Json::Str(_)))).expect("a description");
    assert_eq!(text(described, "description_lang"), "de");
    assert!(cubes.iter().all(|c| matches!(get(c, "name"), Some(Json::Str(_)))), "every cube has a name of its own");
}

/// Names the store carries without a language tag are served as «und»,
/// never dropped, and are found by a word of them.
#[test]
fn the_untagged_names_of_the_fch_apg_family_are_served() {
    let family: Vec<String> = oh_mcp_lindas::scope::all().into_iter().filter(|c| c.contains("/fch/apg/")).collect();
    let vested = "https://politics.ld.admin.ch/fch/apg/vested-interest/1";
    let name_of = |c: &str| if c == vested { "Interessenbindungen".to_string() } else { format!("Register {c}") };
    let profiles = answer(family.iter().map(|c| binding(vec![("cube", uri(c)), ("name", lit(&name_of(c))), ("nameLang", lit(""))])).collect());
    let (run, _) = ask(list_cubes(Some("fch/apg"), None, None, None));
    let (run, _) = ask(run.resume(&ctx(), reply(profiles)));
    let out = done(run.resume(&ctx(), reply(answer(vec![]))));
    let cubes = items(&out, "cubes");
    assert_eq!(cubes.len(), 9, "the register is nine cubes");
    assert!(cubes.iter().all(|c| text(c, "name_lang") == "und"), "{out:?}");
    assert!(cubes.iter().any(|c| text(c, "name").contains("Interessenbindungen")));

    let (run, _) = ask(find_cube("Interessenbindung", None, None));
    let names = answer(vec![binding(vec![("cube", uri(vested)), ("name", lit("Interessenbindungen")), ("nameLang", lit(""))])]);
    let (run, _) = ask(run.resume(&ctx(), reply(names)));
    let found = done(run.resume(&ctx(), reply(answer(vec![]))));
    assert_eq!(text(&found, "kind"), "hint");
    assert!(items(&found, "hits").iter().any(|h| text(h, "cube") == vested), "{found:?}");
}

/// A cube is found by two words of its name with a third between them.
#[test]
fn find_cube_finds_a_cube_by_two_words_of_its_name() {
    let (run, req) = ask(find_cube("Kennzahlen Volksabstimmungen", None, None));
    assert!(req.query.contains("\"kennzahlen\"") && req.query.contains("\"volksabstimmungen\""), "{}", req.query);
    let stat = "https://politics.ld.admin.ch/political-rights/popular-vote-stat/1";
    let names = answer(vec![binding(vec![("cube", uri(stat)), ("name", tagged("Kennzahlen zu Volksabstimmungen", "de")), ("nameLang", lit("de"))])]);
    let (run, _) = ask(run.resume(&ctx(), reply(names)));
    let out = done(run.resume(&ctx(), reply(answer(vec![]))));
    assert_eq!(text(&out, "kind"), "hint");
    assert_eq!(num(&out, "returned"), 1);
    assert_eq!(text(&items(&out, "hits")[0], "cube"), stat);
}

/// An aggregate key the store answers twice is folded before it is
/// served: no cube twice, and the count is not the repeat.
#[test]
fn an_aggregate_key_that_repeats_is_folded() {
    let iris = oh_mcp_lindas::scope::all();
    let chancellor = "https://politics.ld.admin.ch/fc/cube-chancellor";
    let mut counted: Vec<Json> = iris.iter().map(|c| binding(vec![("cube", uri(c)), ("observations", lit("250"))])).collect();
    counted.insert(1, binding(vec![("cube", uri(chancellor)), ("observations", lit("1"))]));
    let (run, _) = ask(list_cubes(None, None, Some(50), None));
    let (run, _) = ask(run.resume(&ctx(), reply(answer(vec![]))));
    let out = done(run.resume(&ctx(), reply(answer(counted))));
    let cubes = items(&out, "cubes");
    assert_eq!(cubes.len(), 44, "the repeated key does not add a cube");
    let distinct: std::collections::BTreeSet<&str> = cubes.iter().map(|c| text(c, "cube")).collect();
    assert_eq!(distinct.len(), 44, "and it does not duplicate one either");
    let folded = cubes.iter().find(|c| text(c, "cube") == chancellor).expect("the chancellor cube");
    assert!(num(folded, "observations") > 1, "{folded:?}");
}

/// A value the store knows without a label in the five languages is in
/// the store, with no label — and the query asks whether it is known.
#[test]
fn a_value_the_store_knows_without_a_label_is_in_store() {
    let (run, req) = ask(resolve_label(&ctx(), "https://ld.admin.ch/canton/1", None));
    assert!(req.query.contains("(1 AS ?known)"), "{}", req.query);
    assert!(req.query.contains("OPTIONAL {"), "{}", req.query);
    let j = done(run.resume(&ctx(), reply(answer(vec![binding(vec![("known", lit("1"))])]))));
    assert!(flag(&j, "in_store"));
    assert_eq!(field(&j, "label"), &Json::Null);
    assert_eq!(field(&j, "label_lang"), &Json::Null);
    assert_eq!(strings(&j, "languages"), Vec::<String>::new());
}

/// The same filters in two orders ask one count key and one page key.
#[test]
fn the_same_filters_in_another_order_ask_the_same_keys() {
    let date = format!("{VOTE}/date");
    let region = format!("{VOTE}/region");
    let a = vec![(date.clone(), "1971-02-07".to_string()), (region.clone(), "https://ld.admin.ch/country/CHE".to_string())];
    let b = vec![a[1].clone(), a[0].clone()];
    let keys = |filters: &[(String, String)]| {
        let (run, _) = ask(observations(VOTE, filters, &[], None, Some(5), None));
        let (run, count) = ask(run.resume(&ctx(), reply(answer(vec![shape_row(&date, vec![]), shape_row(&region, vec![])]))));
        let (_, page) = ask(run.resume(&ctx(), reply(total("1"))));
        (count.key, page.key)
    };
    let (count_a, page_a) = keys(&a);
    let (count_b, page_b) = keys(&b);
    assert_eq!(count_a, count_b);
    assert_eq!(page_a, page_b);
    assert_eq!(count_a, format!("observations:count:{VOTE}:{date}=1971-02-07;{region}=https://ld.admin.ch/country/CHE"));
}

/// Once the query is lower-cased, its words are capped before any request,
/// and every one of them is asked for.
#[test]
fn the_words_of_a_lowered_query_are_capped_and_asked_for() {
    let many = (1..=13).map(|n| format!("w{n:02}")).collect::<Vec<_>>().join(" ");
    let refused = done(find_cube_words(many.clone(), &many, "de", None));
    assert_eq!(text(&refused, "detail"), "words: 13 were given and at most 12 may be");
    let (run, req) = ask(find_cube_words("Kennzahlen VOLKS".to_string(), "kennzahlen volks", "fr", Some(3)));
    assert_eq!(req.key, "find_cube:Kennzahlen VOLKS:fr:3");
    assert_eq!(run.limit, 3);
    assert!(req.query.contains("\"kennzahlen\"") && req.query.contains("\"volks\""), "{}", req.query);
}

/// A filter given twice stays twice in the key, sorted among the others.
#[test]
fn a_repeated_filter_stays_in_the_key() {
    let date = format!("{VOTE}/date");
    let region = format!("{VOTE}/region");
    let filters = vec![
        (region.clone(), "https://ld.admin.ch/country/CHE".to_string()),
        (date.clone(), "1971-02-07".to_string()),
        (region.clone(), "https://ld.admin.ch/country/CHE".to_string()),
    ];
    let (run, _) = ask(observations(VOTE, &filters, &[], None, Some(5), None));
    let (_, count) = ask(run.resume(&ctx(), reply(answer(vec![shape_row(&date, vec![]), shape_row(&region, vec![])]))));
    assert_eq!(
        count.key,
        format!("observations:count:{VOTE}:{date}=1971-02-07;{region}=https://ld.admin.ch/country/CHE;{region}=https://ld.admin.ch/country/CHE")
    );
}
