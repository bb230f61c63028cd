use oh_mcp_lindas::domain::{
    backend_refusal, cell, choose_label, describe_count_query, describe_page_query, find_cube_query,
    language, name_filter, observations_page_query, served_cube, values_block, UNDEFINED,
};
use oh_mcp_lindas::json::{get, Json};
use oh_mcp_lindas::observe::looks_like_citation;
use oh_mcp_lindas::scope;

fn obj(fields: Vec<(&str, Json)>) -> Json {
    Json::Obj(fields.into_iter().map(|(k, v)| (k.to_string(), v)).collect())
}

fn s(x: &str) -> Json {
    Json::Str(x.to_string())
}

fn text_of<'a>(j: &'a Json, key: &str) -> &'a str {
    match get(j, key) {
        Some(Json::Str(t)) => t.as_str(),
        other => panic!("«{key}» is no string: {other:?}"),
    }
}

fn binding(value: Json) -> Json {
    obj(vec![("v", value)])
}

/// The projection is IN the query, and it can never drop a row.
#[test]
fn the_projection_binds_its_predicates_and_never_drops_a_row() {
    let cube = "https://politics.ld.admin.ch/political-rights/popular-vote/1";
    let dims = vec![
        "https://politics.ld.admin.ch/political-rights/popular-vote/date".to_string(),
        "https://politics.ld.admin.ch/political-rights/popular-vote/standesstimmenJa".to_string(),
    ];
    let clauses = "?obs <https://politics.ld.admin.ch/political-rights/popular-vote/date> ?filterValue0 .\n";

    let plain = observations_page_query(cube, clauses, &[], 5, 0);
    assert!(!plain.contains("VALUES ?p"), "without a projection nothing binds the predicate: {plain}");
    assert!(plain.contains("?obs ?p ?v ."), "and the cells are required: {plain}");
    let clause_at = plain.find("?filterValue0").expect("the filter clauses are in the query");
    let inner_bound = plain.find("ORDER BY ?obs LIMIT").expect("the inner select bounds the page");
    assert!(clause_at < inner_bound, "the filters belong INSIDE the inner SELECT: {plain}");

    let projected = observations_page_query(cube, clauses, &dims, 5, 0);
    assert!(
        projected.contains("?filterValue0") && projected.find("?filterValue0") < Some(inner_bound + 200),
        "and they keep that place under a projection: {projected}"
    );
    let values_from = projected.find("VALUES ?p {").expect("the projection binds ?p");
    let values_to = values_from + projected[values_from..].find('}').expect("the VALUES set closes");
    let values = &projected[values_from..values_to];
    for dimension in &dims {
        assert!(values.contains(&format!("<{dimension}>")), "the VALUES set binds «{dimension}»: {values}");
    }
    assert!(
        projected.contains("VALUES ?p {")
            && projected.contains("<https://politics.ld.admin.ch/political-rights/popular-vote/standesstimmenJa>"),
        "the projection binds the PREDICATE: {projected}"
    );
    let optional_at = projected.find("OPTIONAL { VALUES ?p").expect("the projected cells are optional");
    let inner_select_end = projected.find("ORDER BY ?obs LIMIT").expect("the inner select bounds the page");
    assert!(inner_select_end < optional_at, "the row is bound first and the cells hang off it: {projected}");
    assert_eq!(projected.matches("?obs ?p ?v .").count(), 1, "the cell pattern appears once: {projected}");
    assert!(projected.contains("cube:observationSet ?set"));

    let labels_at = projected.find("VALUES ?labelP").expect("the labels are joined");
    let mut depth = 0usize;
    let mut closes_at = None;
    for (index, byte) in projected.bytes().enumerate().skip(optional_at) {
        match byte {
            b'{' => depth += 1,
            b'}' => {
                depth -= 1;
                if depth == 0 {
                    closes_at = Some(index);
                    break;
                }
            }
            _ => {}
        }
    }
    let closes_at = closes_at.expect("the projected OPTIONAL closes");
    assert!(
        optional_at < labels_at && labels_at < closes_at,
        "the label join belongs inside the projected OPTIONAL, which closes at {closes_at}: {projected}"
    );
}

/// `find_cube`'s query binds the scope and asks for every word.
#[test]
fn the_find_cube_query_binds_the_scope_and_asks_for_every_word() {
    let cubes = vec![
        "https://politics.ld.admin.ch/political-rights/popular-vote-stat/1".to_string(),
        "https://politics.ld.admin.ch/political-rights/popular-vote/1".to_string(),
    ];
    let words: Vec<String> = "kennzahlen volksabstimmungen".split_whitespace().map(str::to_string).collect();
    let query = find_cube_query(&cubes, &words);
    assert!(
        query.contains("VALUES ?cube {") && query.contains("popular-vote-stat/1>"),
        "the scope is bound, never scanned: {query}"
    );
    assert_eq!(query.matches("CONTAINS(").count(), 2, "two words, two tests: {query}");
    assert!(
        query.contains(" && ") && !query.contains("kennzahlen volksabstimmungen"),
        "joined by AND, and the phrase is never sent as one string: {query}"
    );
    let one = find_cube_query(&cubes, &["abstimmung".to_string()]);
    assert!(one.contains("FILTER(CONTAINS(LCASE(STR(?name)), \"abstimmung\"))"), "{one}");
}

/// `find_cube` asks for every WORD in the same name, and for one word it
/// is the filter it always was.
#[test]
fn the_name_filter_asks_for_every_word() {
    let one = vec!["abstimmung".to_string()];
    assert_eq!(name_filter(&one), "CONTAINS(LCASE(STR(?name)), \"abstimmung\")", "one word: unchanged");
    let two: Vec<String> = "kennzahlen volksabstimmungen".split_whitespace().map(str::to_string).collect();
    let filter = name_filter(&two);
    assert_eq!(filter.matches("CONTAINS(").count(), 2);
    assert!(filter.contains(" && "), "both words, same name: {filter}");
    assert!(!filter.contains("kennzahlen volksabstimmungen"), "never the phrase: {filter}");
    assert_eq!(name_filter(&[]), "true");
}

/// The page's bound sits INSIDE the `DISTINCT ?p ?v` subselect, and
/// nowhere else.
#[test]
fn the_page_bound_sits_inside_the_distinct_subselect() {
    let query = describe_page_query("https://ld.admin.ch/canton/1", 50, 50);
    let subselect = query.find("SELECT DISTINCT ?p ?v").expect("the page is a page of statements");
    let bound = query.find("LIMIT 50 OFFSET 50").expect("the page is bounded");
    let optional = query.find("OPTIONAL").expect("the labels are joined");
    assert!(subselect < bound && bound < optional, "the bound belongs between the DISTINCT and the label join: {query}");
    assert_eq!(query.matches("LIMIT").count(), 1, "one bound, one place");
    assert!(query.trim_end().ends_with("ORDER BY ?p ?v"), "no bound on the outer pattern: {query}");
    assert!(query.contains("<https://ld.admin.ch/canton/1> ?p ?v"));
    assert!(!query.contains("STRSTARTS") && !query.contains("GRAPH ?"));

    let count = describe_count_query("https://ld.admin.ch/canton/1");
    assert!(
        count.contains("COUNT(*)") && count.contains("SELECT DISTINCT ?p ?v"),
        "the count counts what the pages page: {count}"
    );
}

/// «Not stated» is recognised in BOTH forms, and the form is carried
/// without being interpreted.
#[test]
fn both_forms_of_not_stated_are_recognised() {
    let iri_form = cell(&binding(obj(vec![("type", s("uri")), ("value", s(UNDEFINED))])), "v").expect("a cell");
    assert!(!iri_form.stated);
    assert_eq!(iri_form.form, "iri");
    assert_eq!(iri_form.value, None);

    let literal_form = cell(
        &binding(obj(vec![("type", s("literal")), ("value", s("")), ("datatype", s(UNDEFINED))])),
        "v",
    )
    .expect("a cell");
    assert!(!literal_form.stated);
    assert_eq!(literal_form.form, "literal");
    assert_eq!(literal_form.value, None);

    let stated = cell(
        &binding(obj(vec![
            ("type", s("literal")),
            ("value", s("15.5")),
            ("datatype", s("http://www.w3.org/2001/XMLSchema#decimal")),
        ])),
        "v",
    )
    .expect("a cell");
    assert!(stated.stated);
    assert_eq!(stated.value.as_deref(), Some("15.5"), "the lexical form");
    assert_eq!(stated.datatype.as_deref(), Some("http://www.w3.org/2001/XMLSchema#decimal"));
}

/// A decimal is served as it stands — no float, no rounding.
#[test]
fn a_decimal_is_served_as_the_store_holds_it() {
    for lexical in ["15.5", "0.5", "69.91", "6.5"] {
        let c = cell(
            &binding(obj(vec![
                ("type", s("literal")),
                ("value", s(lexical)),
                ("datatype", s("http://www.w3.org/2001/XMLSchema#decimal")),
            ])),
            "v",
        )
        .expect("a cell");
        assert_eq!(c.value.as_deref(), Some(lexical));
    }
}

/// The caller's language first, then de → fr → it → en → rm; an
/// untagged literal is «und» and is never dropped.
#[test]
fn a_label_is_chosen_in_the_language_the_store_has() {
    let l = |lang: &str, text: &str| (lang.to_string(), text.to_string());
    let five = [l("fr", "Code"), l("de", "Kodex"), l("it", "Codice")];
    assert_eq!(choose_label(&five, Some("de")).unwrap().1, "de");
    assert_eq!(choose_label(&five, Some("it")).unwrap().1, "it");
    assert_eq!(choose_label(&[l("fr", "Code")], Some("de")).unwrap().1, "fr", "the fallback answers rather than refusing");
    assert_eq!(
        choose_label(&[l("", "BK-APG Personen")], Some("de")).unwrap(),
        ("BK-APG Personen".to_string(), "und".to_string()),
        "an untagged name is served, not dropped"
    );
    assert_eq!(choose_label(&[], Some("de")), None);
}

/// Every scope-wide query binds its subjects with VALUES — there is no
/// prefix scan in this server.
#[test]
fn a_scope_wide_query_binds_its_subjects() {
    let block = values_block("cube", &scope::all());
    assert!(block.starts_with("VALUES ?cube {"));
    assert_eq!(block.matches("https://politics.ld.admin.ch/").count(), 44);
    assert!(!block.contains("STRSTARTS"), "no prefix filter, ever");
}

/// The SHAPE of a citation, and nothing about what it resolves to.
#[test]
fn a_citation_shape_is_a_shape_and_no_claim() {
    assert!(looks_like_citation("Bundesbeschluss vom 26.09.1952 über die Brotgetreideversorgung des Landes"));
    assert!(looks_like_citation("Bundesgesetz vom 01.10.2021 über …"));
    assert!(looks_like_citation("Änderung vom 03.10.2003 des …"));
    assert!(!looks_like_citation("Volksinitiative «für sauberes Wasser»"));
    assert!(!looks_like_citation("Bundesbeschluss über die Sache"));
    assert!(!looks_like_citation("Bundesbeschluss vom Sommer"));
}

/// The language is decidable without a request.
#[test]
fn an_unsupported_language_is_refused_before_any_request() {
    assert_eq!(language(Some("de")), Ok("de"));
    assert_eq!(language(None), Ok("de"));
    assert_eq!(language(Some("rm")), Ok("rm"));
    let refusal = language(Some("es")).expect_err("es is not one of the five");
    assert_eq!(text_of(&refusal, "error"), "invalid-input");
    assert_eq!(text_of(&refusal, "accepted"), "de | fr | it | en | rm");
    assert!(text_of(&refusal, "note").contains("costs no request"));
    assert!(text_of(&refusal, "detail").contains("«es»"));
}

/// A cube outside the served list is not-found — and it is decided
/// without a request.
#[test]
fn a_cube_outside_the_list_is_not_found() {
    assert!(served_cube("https://politics.ld.admin.ch/political-rights/popular-vote/1").is_ok());
    let refusal = served_cube("https://politics.ld.admin.ch/political-rights/popular-vote/2").expect_err("not served");
    assert_eq!(text_of(&refusal, "error"), "not-found");
    let malformed = served_cube("nonsense").expect_err("malformed");
    assert_eq!(text_of(&malformed, "error"), "invalid-input");
}

/// A 406 is a permanent answer about the request.
#[test]
fn the_endpoints_refusals_are_typed_apart() {
    let busy = backend_refusal("upstream-busy: retry_after_ms=1200: the polite brake …");
    assert_eq!(text_of(&busy, "error"), "upstream-busy");
    assert_eq!(get(&busy, "retry_after_ms"), Some(&Json::Num(1200)));
    let unacceptable = backend_refusal("bad-request: HTTP 406");
    assert_eq!(text_of(&unacceptable, "error"), "invalid-input");
    let down = backend_refusal("upstream-unavailable: SPARQL select …");
    assert_eq!(text_of(&down, "error"), "upstream-unavailable");
    let refused = backend_refusal("bad-request: HTTP 400");
    assert_eq!(text_of(&refused, "detail"), "the endpoint refused the request: bad-request: HTTP 400");
}

/// No stated cell ever carries an empty value: an empty plain literal and
/// an empty `xsd:string` are silence, and a stated zero stays a fact.
#[test]
fn no_stated_cell_ever_carries_an_empty_value() {
    let empty_plain = cell(&binding(obj(vec![("type", s("literal")), ("value", s(""))])), "v").expect("a cell");
    assert!(!empty_plain.stated, "an empty plain literal is silence");
    assert_eq!(empty_plain.value, None);
    let empty_typed = cell(
        &binding(obj(vec![
            ("type", s("literal")),
            ("value", s("")),
            ("datatype", s("http://www.w3.org/2001/XMLSchema#string")),
        ])),
        "v",
    )
    .expect("a cell");
    assert!(!empty_typed.stated, "an empty xsd:string is silence too");
    assert_eq!(empty_typed.datatype.as_deref(), Some("http://www.w3.org/2001/XMLSchema#string"));
    let zero = cell(
        &binding(obj(vec![
            ("type", s("literal")),
            ("value", s("0.0")),
            ("datatype", s("http://www.w3.org/2001/XMLSchema#decimal")),
        ])),
        "v",
    )
    .expect("a cell");
    assert!(zero.stated, "a stated zero is a fact, not an absence");
    assert_eq!(zero.value.as_deref(), Some("0.0"));
}
