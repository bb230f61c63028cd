use oh_mcp_lindas::json::{text_len_of, Json};
use oh_mcp_lindas::server::{split_filters, summary_conforms, TOOLS};

/// The table of the eight stage-one lines as the tool contract writes it.
const CONTRACT_TABLE: &str = "\
| `lindas.list_cubes` | 2 | List the 44 political data cubes of the Confederation (Abstimmungen, Wahlen, Bundesrat, Interessenbindungen): use to see what data exists. norm. |
| `lindas.find_cube` | 2 | Find the cube behind a question by a word of its name («Volksinitiative», «Petition», «Parteienregister»): use before reading rows. hint. |
| `lindas.describe_cube` | 2 | Show a cube's declared dimensions and profile — the record may carry more: use to learn the filters a question needs. norm. |
| `lindas.dimension_values` | 2 | List the values one dimension takes (Kantone, Abstimmungstypen, Geschäftsstände): use to filter by IRI instead of by text. hint. |
| `lindas.observations` | 2 | Read a cube's rows with filters (Abstimmung, Referendum, Volksinitiative, Ständemehr, Kanton, Datum): use for the figures themselves. norm. |
| `lindas.list_versions` | 2 | List the versions of a cube family (Nationalratswahl 2019/2023/2027): use before reading a year; nothing links old to new. norm. |
| `lindas.describe` | 2 | Show everything the holding says about one IRI (a cube, an observation, a Kanton): use to follow an address you were handed. norm. |
| `lindas.resolve_label` | 2 | Resolve an IRI to its label in one language with a fallback (Kanton, Partei, Gremium, Interessenbindung): use to name a value. hint. |
";

#[test]
fn every_stage_one_line_follows_the_house_rule_and_is_the_contracts() {
    let served: std::collections::BTreeMap<String, String> = TOOLS
        .iter()
        .map(|(id, line)| (id.to_string(), line.split_whitespace().collect::<Vec<_>>().join(" ")))
        .collect();
    assert_eq!(served.len(), 8, "eight tools");
    let promised: std::collections::BTreeMap<String, String> = CONTRACT_TABLE
        .lines()
        .filter(|line| line.starts_with("| `lindas."))
        .filter_map(|line| {
            let guarded = line.replace("\\|", "\u{1}");
            let cells: Vec<String> =
                guarded.trim_matches('|').split('|').map(|cell| cell.trim().replace('\u{1}', "|")).collect();
            if cells.len() == 3 {
                Some((cells[0].trim_matches('`').to_string(), cells[2].split_whitespace().collect::<Vec<_>>().join(" ")))
            } else {
                None
            }
        })
        .collect();
    assert_eq!(promised.len(), 8);
    assert_eq!(served, promised);
    for (id, summary) in &served {
        assert_eq!(summary_conforms(summary), Ok(()), "{id}");
        assert!(id.starts_with("lindas."), "one domain, one prefix");
    }
    let all: String = served.values().cloned().collect::<Vec<_>>().join(" ");
    for trigger in
        ["Abstimmung", "Kanton", "Ständemehr", "Referendum", "Volksinitiative", "Bundesrat", "Nationalratswahl", "Interessenbindung"]
    {
        assert!(all.contains(trigger), "the trigger «{trigger}» is in no line");
    }
}

#[test]
fn a_line_that_breaks_the_house_rule_is_told_why() {
    let long = format!("List {} use it. norm.", "x".repeat(160));
    assert_eq!(summary_conforms(&long).unwrap_err(), format!("{} characters, the stage-one limit is 160", long.chars().count()));
    assert_eq!(summary_conforms("list the cubes: use to see. norm.").unwrap_err(), "must begin with the verb, capitalised");
    assert_eq!(summary_conforms("Ärger: use it. norm.").map_err(|e| e.len()), Ok(()), "a capital umlaut is a capital");
    assert_eq!(summary_conforms("List the cubes: use to see.").unwrap_err(), "must end with «norm.» or «hint.»");
    assert_eq!(
        summary_conforms("List the cubes to see them. hint.").unwrap_err(),
        "must say WHEN to use the tool («use when/for/to/before …»)"
    );
}

#[test]
fn a_filter_is_split_at_its_first_equals_sign() {
    let pairs = split_filters(&[" https://a/d = x=y ".to_string(), "https://a/e=".to_string()]).expect("two pairs");
    assert_eq!(pairs, vec![("https://a/d".to_string(), "x=y".to_string()), ("https://a/e".to_string(), String::new())]);
    let refused = split_filters(&["https://a/d=1".to_string(), "hasCanton".to_string(), "nope".to_string()]).expect_err("no «=»");
    match refused {
        Json::Obj(fields) => {
            let detail = fields.iter().find(|(k, _)| k == "detail").map(|(_, v)| v);
            assert_eq!(detail, Some(&Json::Str("filter «hasCanton» must be «dimension=value»".to_string())));
        },
        other => panic!("a refusal object: {other:?}"),
    }
    assert_eq!(split_filters(&[]), Ok(vec![]));
}

fn to_serde(j: &Json) -> serde_json::Value {
    match j {
        Json::Null => serde_json::Value::Null,
        Json::Bool(b) => serde_json::Value::Bool(*b),
        Json::Num(n) => serde_json::Value::from(*n),
        Json::Str(s) => serde_json::Value::String(s.clone()),
        Json::Arr(v) => serde_json::Value::Array(v.iter().map(to_serde).collect()),
        Json::Obj(v) => {
            let mut m = serde_json::Map::new();
            for (k, x) in v {
                m.insert(k.clone(), to_serde(x));
            }
            serde_json::Value::Object(m)
        },
    }
}

/// The byte count of a value's compact text is what `serde_json` writes.
#[test]
fn the_text_length_of_a_value_is_what_serde_json_writes() {
    let value = Json::Arr(vec![
        Json::Obj(vec![
            ("observation".to_string(), Json::Str("https://o/1".to_string())),
            ("cells".to_string(), Json::Arr(vec![Json::Null, Json::Bool(true), Json::Bool(false), Json::Num(1234567)])),
            ("note".to_string(), Json::Str("Ständemehr «15.5» \"quoted\" \\ tab\t nl\n ctrl\u{1} 🇨🇭".to_string())),
        ]),
        Json::Arr(vec![]),
        Json::Obj(vec![]),
    ]);
    let expected = serde_json::to_string(&to_serde(&value)).expect("text").len();
    assert_eq!(text_len_of(&value), expected as u64);
}
