//! The served scope: a LIST of 44 cube IRIs, not a pattern. A cube that
//! is not in it is `not-found` and is never fetched; widening the scope
//! changes this list, not code.

use vstd::prelude::*;
use vstd::string::StringExecFns;
use vstd::string::StrSliceExecFns;

use crate::text::{
    after_last, after_last_index_of, all_ascii_digits, before_char, chars_of, concat, ends_with,
    first_index_of, has_prefix, has_suffix, is_all_ascii_digits, slice_string, starts_with, str_eq,
    strip_prefix, strip_suffix, views,
};

verus! {

/// The prefix every served cube carries. It is NOT a membership test —
/// membership is the list below.
pub const SCOPE_PREFIX: &'static str = "https://politics.ld.admin.ch/";

/// The 44 cubes, as relative paths under [`SCOPE_PREFIX`].
pub const CUBES: [&'static str; 44] = [
    "fc/cube-chancellor",
    "fc/cube-councillor",
    "fc/cube-declined-election",
    "fc/cube-department",
    "fc/cube-president",
    "fch/apg/committee-canton-statistic/1",
    "fch/apg/committee-function-statistic/1",
    "fch/apg/committee-gender-language-statistic/1",
    "fch/apg/committee-type-department-statistic/1",
    "fch/apg/committee-type-statistic/1",
    "fch/apg/committee/1",
    "fch/apg/membership/1",
    "fch/apg/person/1",
    "fch/apg/vested-interest/1",
    "national-council-election/candidates/2019",
    "national-council-election/candidates/2023",
    "national-council-election/candidates/2027",
    "national-council-election/canton-candidate-statistics/2019",
    "national-council-election/canton-candidate-statistics/2023",
    "national-council-election/canton-candidate-statistics/2027",
    "national-council-election/canton-election-statistics/2019",
    "national-council-election/canton-election-statistics/2023",
    "national-council-election/canton-election-statistics/2027",
    "national-council-election/list-results/2019",
    "national-council-election/list-results/2023",
    "national-council-election/list-results/2027",
    "national-council-election/seats-in-connected-lists/2019",
    "national-council-election/seats-in-connected-lists/2023",
    "national-council-election/seats-in-connected-lists/2027",
    "national-council-election/seats-per-list/2019",
    "national-council-election/seats-per-list/2023",
    "national-council-election/seats-per-list/2027",
    "political-rights/petition/1",
    "political-rights/political-party-register-persons/1",
    "political-rights/political-party-register/1",
    "political-rights/popular-initiative-keyfigures-stat/1",
    "political-rights/popular-initiative-stat/1",
    "political-rights/popular-initiative/1",
    "political-rights/popular-vote-stat/1",
    "political-rights/popular-vote/1",
    "political-rights/popular-vote/voting_dates/1",
    "political-rights/referendum-keyfigures-stat/1",
    "political-rights/referendum-stat/1",
    "political-rights/referendum/1",
];

/// The four families the scope divides into.
pub const FAMILIES: [&'static str; 4] = ["fc", "fch/apg", "national-council-election", "political-rights"];

/// The served paths, as character sequences.
pub open spec fn paths() -> Seq<Seq<char>> {
    CUBES@.map_values(|c: &str| c@)
}

/// The family names, as character sequences.
pub open spec fn family_names() -> Seq<Seq<char>> {
    FAMILIES@.map_values(|f: &str| f@)
}

/// The full IRI of a path.
pub open spec fn full_iri(path: Seq<char>) -> Seq<char> {
    SCOPE_PREFIX@ + path
}

/// The path of a full IRI under the prefix.
pub open spec fn path_of(iri: Seq<char>) -> Seq<char> {
    iri.skip(SCOPE_PREFIX@.len() as int)
}

/// Membership: the prefix, then one of the 44 paths.
pub open spec fn served(iri: Seq<char>) -> bool {
    has_prefix(iri, SCOPE_PREFIX@) && paths().contains(path_of(iri))
}

/// The family a path belongs to.
pub open spec fn path_family(path: Seq<char>) -> Seq<char> {
    if has_prefix(path, "fch/apg/"@) {
        "fch/apg"@
    } else {
        before_char(path, '/')
    }
}

/// The full IRIs of the paths of `ps` that belong to `family`, in order.
pub open spec fn family_members(ps: Seq<Seq<char>>, family: Seq<char>) -> Seq<Seq<char>>
    decreases ps.len(),
{
    if ps.len() == 0 {
        Seq::empty()
    } else {
        let rest = family_members(ps.drop_last(), family);
        if path_family(ps.last()) == family {
            rest.push(full_iri(ps.last()))
        } else {
            rest
        }
    }
}

/// Every served cube as a full IRI, in the list's order.
pub open spec fn all_iris() -> Seq<Seq<char>> {
    paths().map_values(|p: Seq<char>| full_iri(p))
}

/// The version segment of an IRI under the prefix: its last path
/// segment, when that is a non-empty run of digits.
pub open spec fn version_spec(iri: Seq<char>) -> Option<Seq<char>> {
    if !has_prefix(iri, SCOPE_PREFIX@) {
        None
    } else {
        let last = after_last(path_of(iri), '/');
        if last.len() > 0 && all_ascii_digits(last) {
            Some(last)
        } else {
            None
        }
    }
}

/// The family stem of a cube: its IRI without the version segment.
pub open spec fn version_family_spec(iri: Seq<char>) -> Seq<char> {
    match version_spec(iri) {
        Some(v) => {
            let suffix = seq!['/'] + v;
            if has_suffix(iri, suffix) {
                iri.take(iri.len() - suffix.len())
            } else {
                iri
            }
        },
        None => iri,
    }
}

/// The IRIs of `cs` whose family stem is `stem`, in order.
pub open spec fn same_stem(cs: Seq<Seq<char>>, stem: Seq<char>) -> Seq<Seq<char>>
    decreases cs.len(),
{
    if cs.len() == 0 {
        Seq::empty()
    } else {
        let rest = same_stem(cs.drop_last(), stem);
        if version_family_spec(cs.last()) == stem {
            rest.push(cs.last())
        } else {
            rest
        }
    }
}

/// The full IRI of a served cube, or `None` when the path is not in
/// the list.
pub fn iri_of(path: &str) -> (r: Option<String>)
    ensures
        r is Some <==> paths().contains(path@),
        r matches Some(iri) ==> iri@ == full_iri(path@),
{
    let mut i: usize = 0;
    while i < 44
        invariant
            0 <= i <= 44,
            forall|k: int| 0 <= k < i ==> paths()[k] != path@,
        decreases 44 - i,
    {
        if str_eq(CUBES[i], path) {
            assert(paths()[i as int] == path@);
            return Some(concat(SCOPE_PREFIX, path));
        }
        i = i + 1;
    }
    assert(!paths().contains(path@));
    None
}

/// Is `path` one of the 44?
fn is_listed_path(path: &str) -> (b: bool)
    ensures
        b == paths().contains(path@),
{
    iri_of(path).is_some()
}

/// Is this IRI one of the 44? The only membership test there is.
pub fn is_served(iri: &str) -> (b: bool)
    ensures
        b == served(iri@),
{
    match strip_prefix(iri, SCOPE_PREFIX) {
        Some(rest) => is_listed_path(rest.as_str()),
        None => false,
    }
}

/// Every served cube as a full IRI, in the list's order.
pub fn all() -> (r: Vec<String>)
    ensures
        views(r@) == all_iris(),
{
    let mut r: Vec<String> = Vec::new();
    let mut i: usize = 0;
    while i < 44
        invariant
            0 <= i <= 44,
            views(r@) == all_iris().take(i as int),
        decreases 44 - i,
    {
        let p = CUBES[i];
        assert(paths()[i as int] == p@);
        assert(all_iris()[i as int] == full_iri(p@));
        let ghost old_r = r@;
        r.push(concat(SCOPE_PREFIX, p));
        assert(views(r@) =~= views(old_r).push(full_iri(p@)));
        assert(all_iris().take(i + 1) =~= all_iris().take(i as int).push(full_iri(p@)));
        i = i + 1;
        assert(views(r@) =~= all_iris().take(i as int));
    }
    assert(all_iris().take(44) =~= all_iris());
    r
}

/// Is `f` one of the four family names?
fn is_family_name(f: &str) -> (b: bool)
    ensures
        b == family_names().contains(f@),
{
    let mut i: usize = 0;
    while i < 4
        invariant
            0 <= i <= 4,
            forall|k: int| 0 <= k < i ==> family_names()[k] != f@,
        decreases 4 - i,
    {
        if str_eq(FAMILIES[i], f) {
            assert(family_names()[i as int] == f@);
            return true;
        }
        i = i + 1;
    }
    false
}

/// The cubes of one family, or all of them when no family is named. An
/// unknown family name answers `None`, decidable without a request.
pub fn of_family(family: Option<&str>) -> (r: Option<Vec<String>>)
    ensures
        family is None ==> (r matches Some(v) && views(v@) == all_iris()),
        family matches Some(f) ==> (r is Some <==> family_names().contains(f@)),
        family matches Some(f) ==> (r matches Some(v) ==> views(v@) == family_members(paths(), f@)),
{
    let f = match family {
        None => { return Some(all()); },
        Some(f) => f,
    };
    if !is_family_name(f) {
        return None;
    }
    let mut r: Vec<String> = Vec::new();
    let mut i: usize = 0;
    while i < 44
        invariant
            0 <= i <= 44,
            views(r@) == family_members(paths().take(i as int), f@),
        decreases 44 - i,
    {
        let p = CUBES[i];
        assert(paths().take(i + 1).drop_last() =~= paths().take(i as int));
        let fam = family_of_path(p);
        if str_eq(fam, f) {
            r.push(concat(SCOPE_PREFIX, p));
            assert(views(r@) =~= views(r@).drop_last().push(full_iri(p@)));
        }
        i = i + 1;
    }
    assert(paths().take(44) =~= paths());
    Some(r)
}

/// The family a served path belongs to.
pub fn family_of_path(path: &str) -> (r: &str)
    ensures
        r@ == path_family(path@),
{
    if starts_with(path, "fch/apg/") {
        "fch/apg"
    } else {
        let v = chars_of(path);
        let k = first_index_of(&v, '/');
        path.substring_char(0, k)
    }
}

/// The family of a full IRI, `None` when it is not served.
pub open spec fn family_spec(iri: Seq<char>) -> Option<Seq<char>> {
    if !served(iri) {
        None
    } else if path_family(path_of(iri)) == "fch/apg"@ {
        Some("fch/apg"@)
    } else if path_family(path_of(iri)) == "fc"@ {
        Some("fc"@)
    } else if path_family(path_of(iri)) == "national-council-election"@ {
        Some("national-council-election"@)
    } else {
        Some("political-rights"@)
    }
}

/// The family of a full IRI (`None` when it is not served).
pub fn family_of(iri: &str) -> (r: Option<&'static str>)
    ensures
        family_spec(iri@) == match r { Some(f) => Some(f@), None => None },
        r is Some <==> served(iri@),
        r matches Some(f) ==> f@ == (
            if path_family(path_of(iri@)) == "fch/apg"@ {
                "fch/apg"@
            } else if path_family(path_of(iri@)) == "fc"@ {
                "fc"@
            } else if path_family(path_of(iri@)) == "national-council-election"@ {
                "national-council-election"@
            } else {
                "political-rights"@
            }
        ),
{
    let rest = match strip_prefix(iri, SCOPE_PREFIX) {
        Some(rest) => rest,
        None => { return None; },
    };
    if !is_listed_path(rest.as_str()) {
        return None;
    }
    let fam = family_of_path(rest.as_str());
    if str_eq(fam, "fch/apg") {
        Some("fch/apg")
    } else if str_eq(fam, "fc") {
        Some("fc")
    } else if str_eq(fam, "national-council-election") {
        Some("national-council-election")
    } else {
        Some("political-rights")
    }
}

/// The version segment of a cube IRI — its LAST path segment, when it
/// is one (`/1`, `/2019`; five cubes carry none).
pub fn version_of(iri: &str) -> (r: Option<String>)
    ensures
        r is Some <==> version_spec(iri@) is Some,
        r matches Some(v) ==> version_spec(iri@) == Some(v@),
{
    let rest = match strip_prefix(iri, SCOPE_PREFIX) {
        Some(rest) => rest,
        None => { return None; },
    };
    let v = chars_of(rest.as_str());
    let k = after_last_index_of(&v, '/');
    let n = v.len();
    let last = slice_string(&v, k, n);
    assert(last@ =~= v@.skip(k as int));
    let lv = chars_of(last.as_str());
    if lv.len() > 0 && is_all_ascii_digits(&lv) {
        Some(last)
    } else {
        None
    }
}

/// The family stem of a versioned cube: its IRI without the version
/// segment. For an unversioned cube the IRI itself, because that IS
/// its family.
pub fn version_family(iri: &str) -> (r: String)
    ensures
        r@ == version_family_spec(iri@),
{
    match version_of(iri) {
        Some(version) => {
            let mut suffix = String::from_str("/");
            suffix.append(version.as_str());
            proof {
                reveal_strlit("/");
                assert(suffix@ =~= seq!['/'] + version@);
            }
            match strip_suffix(iri, suffix.as_str()) {
                Some(stem) => stem,
                None => String::from_str(iri),
            }
        },
        None => String::from_str(iri),
    }
}

/// The dimension base of a cube: the IRI WITHOUT its version segment,
/// which is where this holding writes its dimension IRIs (a dimension
/// IRI is never built by appending to the cube IRI).
pub fn dimension_base(iri: &str) -> (r: String)
    ensures
        r@ == version_family_spec(iri@),
{
    version_family(iri)
}

/// Every served cube of the same family as `iri`, version by version:
/// the version list is a filter over the scope, not a query.
pub fn versions_of(iri: &str) -> (r: Vec<String>)
    ensures
        views(r@) == same_stem(all_iris(), version_family_spec(iri@)),
{
    let stem = version_family(iri);
    let cubes = all();
    let mut r: Vec<String> = Vec::new();
    let mut i: usize = 0;
    while i < cubes.len()
        invariant
            0 <= i <= cubes@.len(),
            views(cubes@) == all_iris(),
            stem@ == version_family_spec(iri@),
            views(r@) == same_stem(all_iris().take(i as int), stem@),
        decreases cubes@.len() - i,
    {
        assert(all_iris().take(i + 1).drop_last() =~= all_iris().take(i as int));
        assert(all_iris()[i as int] == cubes@[i as int]@);
        let f = version_family(cubes[i].as_str());
        if str_eq(f.as_str(), stem.as_str()) {
            r.push(cubes[i].clone());
            assert(views(r@) =~= views(r@).drop_last().push(cubes@[i as int]@));
        }
        i = i + 1;
    }
    assert(all_iris().take(cubes@.len() as int) =~= all_iris());
    r
}

/// Whether an IRI names a region by its HOST: the canton and country
/// value hosts.
pub open spec fn region_value(iri: Seq<char>) -> bool {
    has_prefix(iri, "https://ld.admin.ch/canton/"@) || has_prefix(iri, "https://ld.admin.ch/country/"@)
}

/// Whether a dimension IRI carries a row's region (`region`, or the
/// election families' `hasCanton`).
pub open spec fn region_dimension(dimension: Seq<char>) -> bool {
    has_suffix(dimension, "/region"@) || has_suffix(dimension, "/hasCanton"@)
}

/// Whether an IRI names a region by its HOST: the canton and country
/// value hosts.
pub fn is_region_value(iri: &str) -> (b: bool)
    ensures
        b == region_value(iri@),
{
    starts_with(iri, "https://ld.admin.ch/canton/") || starts_with(iri, "https://ld.admin.ch/country/")
}

/// Whether a dimension IRI is one that carries a row's region: the
/// political-rights family calls it `region`, the election families
/// call it `hasCanton`.
pub fn is_region_dimension(dimension: &str) -> (b: bool)
    ensures
        b == region_dimension(dimension@),
{
    ends_with(dimension, "/region") || ends_with(dimension, "/hasCanton")
}

} // verus!
