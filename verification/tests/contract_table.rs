use oh_mcp_lindas::backend::{classes_of, describe_body_class, describe_class, select_body_class, select_class, DESCRIBE_TIMEOUT_SECS, SELECT_TIMEOUT_SECS};
use oh_mcp_lindas::catalogue::{counts_query, profiles_query};
use oh_mcp_lindas::cube::profile_query;
use oh_mcp_lindas::domain::{describe_count_query, describe_page_query, find_cube_query, observations_page_query, values_block, Ctx};
use oh_mcp_lindas::json::Json;
use oh_mcp_lindas::scope;
use oh_mcp_lindas::server::TOOLS;
use oh_mcp_lindas::shape::{sample_query, shape_query};
use oh_mcp_lindas::tools::{describe, Step};
use oh_mcp_lindas::backend::{Reply, Served};

/// One row of a contract table.
#[derive(Debug)]
struct Point {
    id: String,
    pinned_by: Vec<String>,
    deferred: Option<String>,
}

/// Reads a table: `| **P7** | … | … | … | test, test |`.
fn points(page: &str) -> Vec<Point> {
    page.lines()
        .filter(|line| line.starts_with("| **P"))
        .filter_map(|line| {
            let guarded = line.replace("\\|", "\u{1}");
            let cells: Vec<String> = guarded
                .trim_matches('|')
                .split('|')
                .map(|c| c.trim().replace('\u{1}', "|"))
                .collect();
            if cells.len() < 5 {
                return None;
            }
            let id = cells[0].as_str().trim_matches('*').trim_end_matches(" ⊘").trim().trim_matches('*').to_string();
            let last = cells[4].as_str();
            let deferred = last.strip_prefix("deferred:").map(|reason| reason.trim().to_string());
            let pinned_by = if deferred.is_some() {
                Vec::new()
            } else {
                last.split(';')
                    .map(|t| t.trim().trim_matches('`').to_string())
                    .filter(|t| !t.is_empty() && t != "—")
                    .collect()
            };
            Some(Point { id, pinned_by, deferred })
        })
        .collect()
}

/// Is `function` a test that runs? `#[test]` immediately above the
/// definition, and `#[ignore]` disqualifies it.
fn is_a_test(source: &str, function: &str) -> Result<(), String> {
    let lines: Vec<&str> = source.lines().collect();
    let needle = format!("fn {function}(");
    let Some(at) = lines.iter().position(|line| line.trim_start().starts_with(&needle)) else {
        return Err(format!("no «fn {function}»"));
    };
    let mut attributes = Vec::new();
    for line in lines[..at].iter().rev() {
        let trimmed = line.trim();
        if trimmed.starts_with("#[") {
            attributes.push(trimmed);
            continue;
        }
        if trimmed.starts_with("///") || trimmed.starts_with("//") || trimmed.is_empty() {
            continue;
        }
        break;
    }
    if attributes.iter().any(|a| a.starts_with("#[ignore")) {
        return Err(format!("«fn {function}» carries #[ignore] — a recording pass proves nothing offline"));
    }
    if attributes.contains(&"#[test]") {
        Ok(())
    } else {
        Err(format!("«fn {function}» carries no #[test] — a helper is not a proof"))
    }
}

/// What a table says wrong, given a way of reading sources.
fn problems_of(page: &str, source_of: &dyn Fn(&str) -> Option<String>) -> Vec<String> {
    let points = points(page);
    let mut findings = Vec::new();
    if points.is_empty() {
        return vec!["no point rows («| **P1** | …») found".into()];
    }
    for point in &points {
        if let Some(reason) = &point.deferred {
            if reason.len() < 10 {
                findings.push(format!("{}: «deferred» without a reason — a point may wait, but it must say why", point.id));
            }
            continue;
        }
        if point.pinned_by.is_empty() {
            findings.push(format!("{}: no test named — a contract point is pinned or it is deferred with a reason", point.id));
            continue;
        }
        for reference in &point.pinned_by {
            let Some((file, function)) = reference.split_once("::") else {
                findings.push(format!("{}: «{reference}» is no «file::function»", point.id));
                continue;
            };
            let Some(text) = source_of(file) else {
                findings.push(format!("{}: «{file}» is not a file of this crate", point.id));
                continue;
            };
            if let Err(why) = is_a_test(&text, function) {
                findings.push(format!("{}: {why} (in {file})", point.id));
            }
        }
    }
    findings
}

/// The table reader itself, proven to bite over synthetic text: a point with no
/// test, a point naming a function nobody wrote, a point naming a helper,
/// a point naming an `#[ignore]`d recorder, and a «deferred» with no
/// reason.
#[test]
fn the_gate_refuses_a_point_the_suite_does_not_pin() {
    const SOURCE: &str = "\
/// A real test.
#[test]
fn a_real_test() { assert!(true); }

/// A helper, not a test.
fn a_helper() {}

/// A recorder.
#[test]
#[ignore = \"hits the endpoint\"]
fn a_recorder() {}
";
    let page = |cell: &str| {
        format!(
            "| # | Contract point | Rules | Owner | Pinned by |\n\
             |---|---|---|---|---|\n\
             | **P1** | something | C0.1 | list_cubes | {cell} |\n"
        )
    };
    let sources = |file: &str| (file == "tests/x.rs").then(|| SOURCE.to_string());

    assert!(problems_of(&page("tests/x.rs::a_real_test"), &sources).is_empty(), "a point pinned by a real test passes");
    let missing = problems_of(&page("tests/x.rs::nobody_wrote_this"), &sources);
    assert!(missing.iter().any(|f| f.contains("no «fn nobody_wrote_this»")), "{missing:?}");
    let helper = problems_of(&page("tests/x.rs::a_helper"), &sources);
    assert!(helper.iter().any(|f| f.contains("carries no #[test]")), "{helper:?}");
    let recorder = problems_of(&page("tests/x.rs::a_recorder"), &sources);
    assert!(recorder.iter().any(|f| f.contains("#[ignore]")), "{recorder:?}");
    let empty = problems_of(&page("—"), &sources);
    assert!(empty.iter().any(|f| f.contains("no test named")), "{empty:?}");
    let unreasoned = problems_of(&page("deferred: x"), &sources);
    assert!(unreasoned.iter().any(|f| f.contains("without a reason")), "{unreasoned:?}");
    let reasoned = problems_of(&page("deferred: the manifest is written in commit 2, with the entry"), &sources);
    assert!(reasoned.is_empty(), "a reasoned deferral passes: {reasoned:?}");
}

/// Every query this library builds, over a cube, an IRI and the scope.
fn every_query() -> Vec<String> {
    let cube = "https://politics.ld.admin.ch/political-rights/popular-vote/1";
    let iri = "https://ld.admin.ch/canton/1";
    let cubes = scope::all();
    let dims = vec![format!("{cube}/date")];
    vec![
        profiles_query(&cubes),
        counts_query(&cubes),
        find_cube_query(&cubes, &["abstimmung".to_string()]),
        profile_query(cube),
        shape_query(cube),
        sample_query(cube),
        observations_page_query(cube, "", &[], 50, 0),
        observations_page_query(cube, "", &dims, 50, 0),
        describe_count_query(iri),
        describe_page_query(iri, 100, 0),
    ]
}

/// No dimension name, no vocabulary and no family is written into a
/// query: the served scope is the ONE place that names IRIs of the
/// holding, and a query names only what it was handed.
#[test]
fn nothing_of_the_holding_is_hard_coded_outside_the_scope() {
    let foreign = "https://ld.admin.ch/canton/1";
    for query in [
        describe_count_query(foreign),
        describe_page_query(foreign, 10, 0),
        profile_query(foreign),
        shape_query(foreign),
        sample_query(foreign),
        observations_page_query(foreign, "", &[], 10, 0),
    ] {
        for forbidden in ["politics.ld.admin.ch", "popular-vote", "standesstimmen", "hasCanton", "creativeWorkStatus/"] {
            assert!(!query.contains(forbidden), "«{forbidden}» is hard-coded: {query}");
        }
    }
    assert_eq!(scope::SCOPE_PREFIX, "https://politics.ld.admin.ch/");
    assert!(scope::CUBES.iter().all(|p| !p.contains("politics.ld.admin.ch")), "the 44 are relative paths");
}

/// The eight tools are the contract's eight, and none of them joins two
/// cubes.
#[test]
fn the_eight_tools_are_the_contracts_eight_and_none_joins() {
    let ids = [
        "lindas.list_cubes",
        "lindas.find_cube",
        "lindas.describe_cube",
        "lindas.dimension_values",
        "lindas.observations",
        "lindas.list_versions",
        "lindas.describe",
        "lindas.resolve_label",
    ];
    assert_eq!(TOOLS.len(), 8, "eight tools, no more");
    for id in ids {
        assert!(TOOLS.iter().any(|(name, _)| *name == id), "{id} is not mounted");
    }
    assert!(TOOLS.iter().all(|(name, line)| !name.contains("join") && !line.contains("join")));
}

/// The description PAGE asks through the wide class, the count keeps
/// the narrow one, and both classes have a call half and a body half.
#[test]
fn the_description_page_asks_through_the_wide_class() {
    let ctx = Ctx { today: "2026-09-01".to_string(), endpoint: "https://lindas.admin.ch/query".to_string() };
    let (run, count) = match describe(&ctx, "https://ld.admin.ch/canton/1", None, None, None) {
        Step::Ask(run, req) => (run, req),
        Step::Done(j) => panic!("asks first: {j:?}"),
    };
    assert!(!count.wide, "the count is one row and keeps the select bound");
    assert_eq!(count.timeout_secs(), SELECT_TIMEOUT_SECS);
    assert_eq!(count.key, "describe:count:https://ld.admin.ch/canton/1");
    let total = Json::Obj(vec![(
        "results".to_string(),
        Json::Obj(vec![(
            "bindings".to_string(),
            Json::Arr(vec![Json::Obj(vec![(
                "total".to_string(),
                Json::Obj(vec![("type".to_string(), Json::Str("literal".to_string())), ("value".to_string(), Json::Str("3".to_string()))]),
            )])]),
        )]),
    )]);
    let reply = Reply { value: total, served: Served::Fixture, retrieved_at: None };
    match run.resume(&ctx, Ok(reply)) {
        Step::Ask(_, page) => {
            assert!(page.wide, "the description PAGE — the one that reads a wide body — asks at the describe bound");
            assert_eq!(page.timeout_secs(), DESCRIBE_TIMEOUT_SECS);
            assert_eq!(page.key, "describe:https://ld.admin.ch/canton/1:100:0");
        },
        Step::Done(j) => panic!("a subject with statements is paged: {j:?}"),
    }
    assert_eq!(classes_of(DESCRIBE_TIMEOUT_SECS), (describe_class(), describe_body_class()));
    assert_eq!(classes_of(SELECT_TIMEOUT_SECS), (select_class(), select_body_class()));
}

/// Every query binds a subject or a predicate — no unbound scan, and no
/// graph enumeration at all.
#[test]
fn no_query_of_this_crate_is_unbound() {
    let queries = every_query();
    for query in &queries {
        for forbidden in ["STRSTARTS", "GRAPH ?", "DISTINCT ?g", "?s ?p ?o"] {
            assert!(!query.contains(forbidden), "«{forbidden}» would be an unbound scan: {query}");
        }
    }
    let selects: usize = queries.iter().map(|q| q.matches("SELECT").count()).sum();
    assert!(selects >= 8, "the tools ask real queries: {selects}");
    assert!(queries.iter().any(|q| q.contains("VALUES ?cube")), "the scope-wide queries bind their subjects with VALUES");
    assert!(values_block("cube", &scope::all()).starts_with("VALUES ?cube {"));
}
