//! The tool surface: the eight tools' stage-one lines, the house rule
//! every such line keeps, the parameter shapes, and the one parser of
//! `dimension=value` filters that both doors share.

use vstd::prelude::*;
use vstd::string::StringExecFns;

use crate::json::{Json, JsonV};
use crate::text::{contains_str, ends_with, has_infix, has_suffix};

verus! {

// --- the stage-one lines ---------------------------------------------------------

/// The eight tools: id and stage-one line. Every line is at most 160
/// characters, begins with its verb, says when to use the tool and ends
/// with the answer class — and carries the German words that make a chat
/// model reach for this domain.
pub const TOOLS: [(&'static str, &'static str); 8] = [
    ("lindas.list_cubes", "List the 44 political data cubes of the Confederation (Abstimmungen, Wahlen, Bundesrat, Interessenbindungen): use to see what data exists. norm."),
    ("lindas.find_cube", "Find the cube behind a question by a word of its name («Volksinitiative», «Petition», «Parteienregister»): use before reading rows. hint."),
    ("lindas.describe_cube", "Show a cube's declared dimensions and profile — the record may carry more: use to learn the filters a question needs. norm."),
    ("lindas.dimension_values", "List the values one dimension takes (Kantone, Abstimmungstypen, Geschäftsstände): use to filter by IRI instead of by text. hint."),
    ("lindas.observations", "Read a cube's rows with filters (Abstimmung, Referendum, Volksinitiative, Ständemehr, Kanton, Datum): use for the figures themselves. norm."),
    ("lindas.list_versions", "List the versions of a cube family (Nationalratswahl 2019/2023/2027): use before reading a year; nothing links old to new. norm."),
    ("lindas.describe", "Show everything the holding says about one IRI (a cube, an observation, a Kanton): use to follow an address you were handed. norm."),
    ("lindas.resolve_label", "Resolve an IRI to its label in one language with a fallback (Kanton, Partei, Gremium, Interessenbindung): use to name a value. hint."),
];

/// What `char::is_uppercase` answers: the Unicode `Uppercase` property.
pub uninterp spec fn uppercase(c: char) -> bool;

/// `char::is_uppercase`. The contract names the result and states nothing
/// of the Unicode property itself.
#[verifier::external_body]
fn is_uppercase(c: char) -> (b: bool)
    ensures
        b == uppercase(c),
{
    c.is_uppercase()
}

/// The house rule for a stage-one line, checked in order: the length, the
/// capitalised verb, the answer class at the end, the word «use ».
pub open spec fn summary_rule(s: Seq<char>) -> Result<(), Seq<char>> {
    if s.len() > 160 {
        Err(crate::text::decimal(s.len()) + " characters, the stage-one limit is 160"@)
    } else if !(s.len() > 0 && uppercase(s[0])) {
        Err("must begin with the verb, capitalised"@)
    } else if !(has_suffix(s, " norm."@) || has_suffix(s, " hint."@)) {
        Err("must end with «norm.» or «hint.»"@)
    } else if !has_infix(s, "use "@) {
        Err("must say WHEN to use the tool («use when/for/to/before …»)"@)
    } else {
        Ok(())
    }
}

/// The house rule for a stage-one line, as a checkable predicate.
pub fn summary_conforms(summary: &str) -> (r: Result<(), String>)
    ensures
        match r {
            Ok(()) => summary_rule(summary@) is Ok,
            Err(e) => summary_rule(summary@) == Err::<(), Seq<char>>(e@),
        },
{
    let v = crate::text::chars_of(summary);
    let n = v.len();
    if n > 160 {
        let mut e = crate::text::fmt_u64(n as u64);
        e.append(" characters, the stage-one limit is 160");
        return Err(e);
    }
    if !(n > 0 && is_uppercase(v[0])) {
        return Err(String::from_str("must begin with the verb, capitalised"));
    }
    if !(ends_with(summary, " norm.") || ends_with(summary, " hint.")) {
        return Err(String::from_str("must end with «norm.» or «hint.»"));
    }
    if !contains_str(summary, "use ") {
        return Err(String::from_str("must say WHEN to use the tool («use when/for/to/before …»)"));
    }
    Ok(())
}

// --- the parameter shapes -----------------------------------------------------------

/// `lindas.list_cubes`: a family (absent = all 44), the label language, a page.
pub struct ListCubesParams {
    pub family: Option<String>,
    pub lang: Option<String>,
    pub limit: Option<u32>,
    pub offset: Option<u32>,
}

/// `lindas.find_cube`: a word of the cube's name, 2–100 characters.
pub struct FindCubeParams {
    pub query: String,
    pub lang: Option<String>,
    pub limit: Option<u32>,
}

/// `lindas.describe_cube`: a cube IRI of the served scope.
pub struct CubeParams {
    pub cube: String,
    pub lang: Option<String>,
    pub limit: Option<u32>,
    pub offset: Option<u32>,
}

/// `lindas.dimension_values`: a cube and one dimension IRI as
/// `lindas.describe_cube` served it.
pub struct DimensionValuesParams {
    pub cube: String,
    pub dimension: String,
    pub lang: Option<String>,
    pub limit: Option<u32>,
}

/// `lindas.observations`: filters as `dimension=value` pairs, and the
/// dimension IRIs to project.
pub struct ObservationsParams {
    pub cube: String,
    pub filters: Option<Vec<String>>,
    pub dimensions: Option<Vec<String>>,
    pub lang: Option<String>,
    pub limit: Option<u32>,
    pub offset: Option<u32>,
}

/// `lindas.list_versions`: any version of the family.
pub struct VersionsParams {
    pub cube: String,
}

/// `lindas.describe`: any IRI — the store is asked about it; no host is
/// fetched.
pub struct IriParams {
    pub iri: String,
    pub lang: Option<String>,
    pub limit: Option<u32>,
    pub offset: Option<u32>,
}

/// `lindas.resolve_label`: any IRI, of any host.
pub struct LabelParams {
    pub iri: String,
    pub lang: Option<String>,
}

// --- the filter argument -------------------------------------------------------------

/// `dimension=value` split at its FIRST `=` (a value may carry one), both
/// halves trimmed; `None` without an `=`.
pub open spec fn split_pair(f: Seq<char>) -> Option<(Seq<char>, Seq<char>)> {
    if f.contains('=') {
        let k = crate::text::pos_in(f, '=');
        Some((crate::text::trim_ws(f.take(k)), crate::text::trim_ws(f.skip(k + 1))))
    } else {
        None
    }
}

/// The refusal of a filter without `=`.
pub open spec fn pair_refusal(f: Seq<char>) -> JsonV {
    crate::domain::shaped("filter «"@ + f + "» must be «dimension=value»"@, crate::domain::FILTER_ACCEPTED@, crate::domain::FILTER_NOTE@)
}

/// Every filter split, in order; the first that carries no `=` decides.
pub open spec fn split_all(fs: Seq<Seq<char>>) -> Result<Seq<(Seq<char>, Seq<char>)>, JsonV>
    decreases fs.len(),
{
    if fs.len() == 0 {
        Ok(Seq::empty())
    } else {
        match split_all(fs.drop_last()) {
            Err(e) => Err(e),
            Ok(acc) => match split_pair(fs.last()) {
                None => Err(pair_refusal(fs.last())),
                Some(p) => Ok(acc.push(p)),
            },
        }
    }
}

proof fn lemma_split_all_err(fs: Seq<Seq<char>>, k: int)
    requires
        0 <= k <= fs.len(),
        split_all(fs.take(k)) is Err,
    ensures
        split_all(fs) == split_all(fs.take(k)),
    decreases fs.len() - k,
{
    if k < fs.len() {
        assert(fs.take(k + 1).drop_last() =~= fs.take(k));
        lemma_split_all_err(fs, k + 1);
    } else {
        assert(fs.take(k) =~= fs);
    }
}

fn split_one(f: &str) -> (r: Option<(String, String)>)
    ensures
        match r {
            Some(p) => split_pair(f@) == Some((p.0@, p.1@)),
            None => split_pair(f@) is None,
        },
{
    let v = crate::text::chars_of(f);
    let mut k: usize = 0;
    while k < v.len() && v[k] != '='
        invariant
            0 <= k <= v@.len(),
            v@ == f@,
            forall|j: int| 0 <= j < k ==> #[trigger] v@[j] != '=',
        decreases v@.len() - k,
    {
        k = k + 1;
    }
    if k == v.len() {
        assert(!f@.contains('=')) by {
            if f@.contains('=') {
                let j = choose|j: int| 0 <= j < f@.len() && f@[j] == '=';
                assert(v@[j] != '=');
            }
        }
        return None;
    }
    proof {
        crate::text::lemma_pos_in(f@, '=', k as int);
        assert(f@[k as int] == '=');
    }
    let d = crate::text::slice_string(v.as_slice(), 0, k);
    let rest = crate::text::slice_string(v.as_slice(), k + 1, v.len());
    assert(d@ =~= f@.take(k as int));
    assert(rest@ =~= f@.skip(k + 1));
    Some((crate::text::trim(d.as_str()), crate::text::trim(rest.as_str())))
}

/// `dimension=value` → the pair the domain filters on. A filter without
/// `=` is refused with the filter shape, naming it.
pub fn split_filters(filters: &[String]) -> (r: Result<Vec<(String, String)>, Json>)
    ensures
        match r {
            Ok(v) => split_all(crate::text::views(filters@)) == Ok::<Seq<(Seq<char>, Seq<char>)>, JsonV>(crate::observe::pairs_of(v@)),
            Err(j) => split_all(crate::text::views(filters@)) == Err::<Seq<(Seq<char>, Seq<char>)>, JsonV>(j@),
        },
{
    let ghost all = crate::text::views(filters@);
    let mut acc: Vec<(String, String)> = Vec::new();
    let mut i: usize = 0;
    assert(crate::observe::pairs_of(acc@) =~= Seq::empty());
    assert(all.take(0) =~= Seq::empty());
    while i < filters.len()
        invariant
            0 <= i <= filters@.len(),
            all == crate::text::views(filters@),
            split_all(all.take(i as int)) == Ok::<Seq<(Seq<char>, Seq<char>)>, JsonV>(crate::observe::pairs_of(acc@)),
        decreases filters@.len() - i,
    {
        assert(all.take(i + 1).drop_last() =~= all.take(i as int));
        assert(all.take(i + 1).last() == filters@[i as int]@);
        match split_one(filters[i].as_str()) {
            None => {
                let mut d = String::from_str("filter «");
                d.append(filters[i].as_str());
                d.append("» must be «dimension=value»");
                proof {
                    lemma_split_all_err(all, i as int + 1);
                }
                return Err(crate::domain::invalid_dimension(d.as_str()));
            },
            Some(p) => {
                let ghost before = crate::observe::pairs_of(acc@);
                let ghost pv = (p.0@, p.1@);
                acc.push(p);
                assert(crate::observe::pairs_of(acc@) =~= before.push(pv));
            },
        }
        i = i + 1;
    }
    assert(all.take(filters@.len() as int) =~= all);
    Ok(acc)
}

} // verus!
