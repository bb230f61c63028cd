use oh_mcp_lindas::scope::{
    all, dimension_base, family_of, is_region_dimension, is_region_value, is_served, iri_of,
    of_family, version_family, version_of, versions_of, CUBES,
};

/// The scope is a list of 44, and membership is the list.
#[test]
fn the_served_scope_is_a_list_of_forty_four() {
    assert_eq!(CUBES.len(), 44);
    assert_eq!(all().len(), 44);
    assert!(is_served("https://politics.ld.admin.ch/political-rights/popular-vote/1"));
    assert!(
        !is_served("https://politics.ld.admin.ch/political-rights/popular-vote/2"),
        "a cube that only LOOKS served is not served"
    );
    assert!(!is_served("https://politics.ld.admin.ch/some/other/cube"));
    assert!(!is_served("https://example.org/cube"));
}

/// Four families, and the counts the rulebook measured.
#[test]
fn the_four_families_carry_the_counts_the_rulebook_measured() {
    let count = |f: &str| of_family(Some(f)).expect("a family").len();
    assert_eq!(count("fc"), 5);
    assert_eq!(count("fch/apg"), 9);
    assert_eq!(count("political-rights"), 12);
    assert_eq!(count("national-council-election"), 18);
    assert_eq!(of_family(None).expect("all").len(), 44);
    assert!(of_family(Some("nonsense")).is_none(), "decidable without a request");
}

/// The version is the last segment when there is one, and five cubes
/// carry none.
#[test]
fn the_version_is_the_last_segment_when_there_is_one() {
    assert_eq!(
        version_of("https://politics.ld.admin.ch/national-council-election/candidates/2023").as_deref(),
        Some("2023")
    );
    assert_eq!(
        version_of("https://politics.ld.admin.ch/political-rights/popular-vote/1").as_deref(),
        Some("1")
    );
    assert_eq!(
        version_of("https://politics.ld.admin.ch/fc/cube-councillor"),
        None,
        "five cubes carry no version segment"
    );
    assert_eq!(all().iter().filter(|c| version_of(c).is_none()).count(), 5);
}

/// The version list is a filter over the scope — and the unversioned
/// cubes are their own family of one.
#[test]
fn the_versions_of_a_family_come_from_the_list() {
    let years = versions_of("https://politics.ld.admin.ch/national-council-election/candidates/2019");
    assert_eq!(years.len(), 3, "{years:?}");
    assert!(years.iter().all(|c| c.contains("/candidates/")));
    let alone = versions_of("https://politics.ld.admin.ch/fc/cube-councillor");
    assert_eq!(alone.len(), 1);
}

/// The dimension base drops the version segment.
#[test]
fn the_dimension_base_drops_the_version() {
    assert_eq!(
        dimension_base("https://politics.ld.admin.ch/political-rights/popular-vote/1"),
        "https://politics.ld.admin.ch/political-rights/popular-vote"
    );
    assert_eq!(
        dimension_base("https://politics.ld.admin.ch/fc/cube-councillor"),
        "https://politics.ld.admin.ch/fc/cube-councillor"
    );
}

#[test]
fn a_path_of_the_list_names_its_cube_and_its_family() {
    assert_eq!(
        iri_of("political-rights/popular-vote/1").as_deref(),
        Some("https://politics.ld.admin.ch/political-rights/popular-vote/1")
    );
    assert_eq!(iri_of("political-rights/popular-vote/2"), None);
    assert_eq!(family_of("https://politics.ld.admin.ch/political-rights/popular-vote/1"), Some("political-rights"));
    assert_eq!(family_of("https://politics.ld.admin.ch/fc/cube-councillor"), Some("fc"));
    assert_eq!(family_of("https://example.org/cube"), None);
    assert_eq!(
        version_family("https://politics.ld.admin.ch/national-council-election/candidates/2019"),
        "https://politics.ld.admin.ch/national-council-election/candidates"
    );
}

#[test]
fn a_region_is_recognised_by_its_value_host_or_its_dimension() {
    assert!(is_region_value("https://ld.admin.ch/canton/1"));
    assert!(is_region_value("https://ld.admin.ch/country/CHE"));
    assert!(!is_region_value("https://politics.ld.admin.ch/political-rights/vocabulary/MilitarySchool"));
    assert!(is_region_dimension("https://politics.ld.admin.ch/political-rights/popular-vote/region"));
    assert!(is_region_dimension("https://politics.ld.admin.ch/national-council-election/candidates/hasCanton"));
    assert!(!is_region_dimension("https://politics.ld.admin.ch/political-rights/popular-vote/date"));
}

/// Every listed cube is served and has a family (law, on the whole list).
#[test]
fn every_listed_cube_is_served_and_belongs_to_a_family() {
    for cube in all() {
        assert!(is_served(&cube), "{cube}");
        assert!(family_of(&cube).is_some(), "{cube}");
        assert!(versions_of(&cube).contains(&cube), "{cube}");
        for v in versions_of(&cube) {
            assert_eq!(version_family(&v), version_family(&cube));
        }
    }
}

/// The served scope is the list the tool contract names, family by family:
/// five `fc` cubes without a version, nine `fch/apg` and twelve
/// `political-rights` cubes at `/1`, and six election cubes in three years.
#[test]
fn the_served_scope_is_the_list_the_contract_names() {
    let base = "https://politics.ld.admin.ch/";
    let mut from_contract: Vec<String> = Vec::new();
    for name in ["cube-chancellor", "cube-councillor", "cube-declined-election", "cube-department", "cube-president"] {
        from_contract.push(format!("{base}fc/{name}"));
    }
    for name in [
        "committee",
        "committee-canton-statistic",
        "committee-function-statistic",
        "committee-gender-language-statistic",
        "committee-type-department-statistic",
        "committee-type-statistic",
        "membership",
        "person",
        "vested-interest",
    ] {
        from_contract.push(format!("{base}fch/apg/{name}/1"));
    }
    for name in [
        "petition",
        "political-party-register",
        "political-party-register-persons",
        "popular-initiative",
        "popular-initiative-keyfigures-stat",
        "popular-initiative-stat",
        "popular-vote",
        "popular-vote/voting_dates",
        "popular-vote-stat",
        "referendum",
        "referendum-keyfigures-stat",
        "referendum-stat",
    ] {
        from_contract.push(format!("{base}political-rights/{name}/1"));
    }
    for name in [
        "candidates",
        "canton-candidate-statistics",
        "canton-election-statistics",
        "list-results",
        "seats-in-connected-lists",
        "seats-per-list",
    ] {
        for year in ["2019", "2023", "2027"] {
            from_contract.push(format!("{base}national-council-election/{name}/{year}"));
        }
    }
    let mut from_code = all();
    from_code.sort();
    from_contract.sort();
    assert_eq!(from_code, from_contract, "the scope is the list, not a pattern");
}

/// On every served cube `version_family` strips exactly the version, and
/// applied twice gives what it gives once; `dimension_base` is the same.
#[test]
fn the_version_family_strips_exactly_the_version() {
    for iri in all() {
        let stem = version_family(&iri);
        assert_eq!(version_family(&stem), stem, "{iri}");
        assert_eq!(dimension_base(&iri), stem);
        match version_of(&iri) {
            Some(v) => {
                assert_eq!(format!("{stem}/{v}"), iri);
                assert_eq!(version_of(&stem), None);
            },
            None => assert_eq!(stem, iri),
        }
    }
}
