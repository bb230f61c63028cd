//! `observations`: the rows of a cube, filtered, projected, capped and
//! honest. Everything decidable about the filters and the projection is
//! decided before any request; every dimension is admitted by the
//! three-step rule (one bound ASK per undeclared dimension, not per
//! mention); a filter that matches nothing is told apart from an empty
//! cube by the cube's own count.

use vstd::prelude::*;
use vstd::string::StringExecFns;

use crate::backend::{iri_safe, iri_safe_spec, literal_escaped, literal_safe, normalise_value, normalised};
use crate::domain::{
    invalid_dimension, invalid_projection, shaped, FILTER_ACCEPTED, FILTER_NOTE, PROJECTION_ACCEPTED,
    PROJECTION_NOTE,
};
use crate::json::{Json, JsonV};
use crate::domain::{choose_label, choose_label_spec};
use crate::json::{opt_view, strs_view};
use crate::backend::{Event, Reply, Request};
use crate::domain::Ctx;
use crate::tools::Step;
use crate::shape::{declares, dims_view, is_declared, DimV, Gate, ShapeDimension};
use crate::text::{decimal, fmt_u64, has_prefix, starts_with, strictly_sorted, views};

verus! {

// --- before any request: the filters and the projection ------------------------

pub const FILTERS_WHY: &'static str = "every dimension the shape does not declare costs one bound ASK before the page is read, and every filter adds a clause to the query";
pub const PROJECTION_WHY: &'static str = "every dimension the shape does not declare costs one bound ASK before the page is read, so the list is capped; name the cells the question needs";

/// Does a value begin like an IRI?
pub open spec fn iri_like(v: Seq<char>) -> bool {
    has_prefix(v, "https://"@) || has_prefix(v, "http://"@)
}

/// One filter checked: its dimension an IRI, its value normalised, and a
/// value that begins like an IRI one indeed.
pub open spec fn check_filter(d: Seq<char>, v: Seq<char>) -> Result<(Seq<char>, Seq<char>), JsonV> {
    match iri_safe_spec(d) {
        Err(e) => Err(shaped("filter: "@ + e, FILTER_ACCEPTED@, FILTER_NOTE@)),
        Ok(d1) => {
            let vn = normalised(v);
            if iri_like(vn) && iri_safe_spec(vn) is Err {
                Err(shaped("filter value: «"@ + vn + "» begins like an IRI and is none"@, FILTER_ACCEPTED@, FILTER_NOTE@))
            } else {
                Ok((normalised(d1), vn))
            }
        },
    }
}

/// Every filter checked, in order; the first that fails decides.
pub open spec fn check_filters(fs: Seq<(Seq<char>, Seq<char>)>) -> Result<Seq<(Seq<char>, Seq<char>)>, JsonV>
    decreases fs.len(),
{
    if fs.len() == 0 {
        Ok(Seq::empty())
    } else {
        match check_filters(fs.drop_last()) {
            Err(e) => Err(e),
            Ok(acc) => match check_filter(fs.last().0, fs.last().1) {
                Err(e) => Err(e),
                Ok(p) => Ok(acc.push(p)),
            },
        }
    }
}

/// The model of a list of string pairs.
pub open spec fn pairs_of(v: Seq<(String, String)>) -> Seq<(Seq<char>, Seq<char>)> {
    v.map_values(|p: (String, String)| (p.0@, p.1@))
}

fn check_filter_of(d: &str, v: &str) -> (r: Result<(String, String), Json>)
    ensures
        match r {
            Ok(p) => check_filter(d@, v@) == Ok::<(Seq<char>, Seq<char>), JsonV>((p.0@, p.1@)),
            Err(j) => check_filter(d@, v@) == Err::<(Seq<char>, Seq<char>), JsonV>(j@),
        },
{
    let d1 = match iri_safe(d) {
        Ok(x) => x,
        Err(e) => {
            let mut m = String::from_str("filter: ");
            m.append(e.as_str());
            return Err(invalid_dimension(m.as_str()));
        },
    };
    let vn = normalise_value(v);
    if (starts_with(vn.as_str(), "https://") || starts_with(vn.as_str(), "http://")) && iri_safe(vn.as_str()).is_err() {
        let mut m = String::from_str("filter value: «");
        m.append(vn.as_str());
        m.append("» begins like an IRI and is none");
        return Err(invalid_dimension(m.as_str()));
    }
    Ok((normalise_value(d1.as_str()), vn))
}

/// The filters checked, or the refusal of the first that fails.
pub fn checked_filters(fs: &[(String, String)]) -> (r: Result<Vec<(String, String)>, Json>)
    ensures
        match r {
            Ok(v) => check_filters(pairs_of(fs@)) == Ok::<Seq<(Seq<char>, Seq<char>)>, JsonV>(pairs_of(v@)),
            Err(j) => check_filters(pairs_of(fs@)) == Err::<Seq<(Seq<char>, Seq<char>)>, JsonV>(j@),
        },
{
    let ghost all = pairs_of(fs@);
    let mut acc: Vec<(String, String)> = Vec::new();
    let mut i: usize = 0;
    assert(pairs_of(acc@) =~= Seq::empty());
    assert(all.take(0) =~= Seq::empty());
    while i < fs.len()
        invariant
            0 <= i <= fs@.len(),
            all == pairs_of(fs@),
            check_filters(all.take(i as int)) == Ok::<Seq<(Seq<char>, Seq<char>)>, JsonV>(pairs_of(acc@)),
        decreases fs@.len() - i,
    {
        assert(all.take(i + 1).drop_last() =~= all.take(i as int));
        assert(all.take(i + 1).last() == (fs@[i as int].0@, fs@[i as int].1@));
        match check_filter_of(fs[i].0.as_str(), fs[i].1.as_str()) {
            Err(j) => {
                proof {
                    lemma_check_filters_err(all, i as int + 1);
                }
                return Err(j);
            },
            Ok(p) => {
                let ghost before = pairs_of(acc@);
                let ghost pv = (p.0@, p.1@);
                acc.push(p);
                assert(pairs_of(acc@) =~= before.push(pv));
            },
        }
        i = i + 1;
    }
    assert(all.take(fs@.len() as int) =~= all);
    Ok(acc)
}

/// A refusal at a prefix is the refusal of the whole list.
proof fn lemma_check_filters_err(fs: Seq<(Seq<char>, Seq<char>)>, k: int)
    requires
        0 <= k <= fs.len(),
        check_filters(fs.take(k)) is Err,
    ensures
        check_filters(fs) == check_filters(fs.take(k)),
    decreases fs.len() - k,
{
    if k < fs.len() {
        assert(fs.take(k + 1).drop_last() =~= fs.take(k));
        lemma_check_filters_err(fs, k + 1);
    } else {
        assert(fs.take(k) =~= fs);
    }
}

/// Checking keeps every filter.
proof fn lemma_check_filters_len(fs: Seq<(Seq<char>, Seq<char>)>)
    requires
        check_filters(fs) is Ok,
    ensures
        check_filters(fs)->Ok_0.len() == fs.len(),
    decreases fs.len(),
{
    if fs.len() > 0 {
        lemma_check_filters_len(fs.drop_last());
    }
}

/// One projected dimension checked.
pub open spec fn check_dim(d: Seq<char>) -> Result<Seq<char>, JsonV> {
    match iri_safe_spec(d) {
        Err(e) => Err(shaped("dimensions: "@ + e, PROJECTION_ACCEPTED@, PROJECTION_NOTE@)),
        Ok(d1) => Ok(normalised(d1)),
    }
}

/// Every projected dimension checked, in order; the first that fails
/// decides.
pub open spec fn check_dims(ps: Seq<Seq<char>>) -> Result<Seq<Seq<char>>, JsonV>
    decreases ps.len(),
{
    if ps.len() == 0 {
        Ok(Seq::empty())
    } else {
        match check_dims(ps.drop_last()) {
            Err(e) => Err(e),
            Ok(acc) => match check_dim(ps.last()) {
                Err(e) => Err(e),
                Ok(d) => Ok(acc.push(d)),
            },
        }
    }
}

proof fn lemma_check_dims_err(ps: Seq<Seq<char>>, k: int)
    requires
        0 <= k <= ps.len(),
        check_dims(ps.take(k)) is Err,
    ensures
        check_dims(ps) == check_dims(ps.take(k)),
    decreases ps.len() - k,
{
    if k < ps.len() {
        assert(ps.take(k + 1).drop_last() =~= ps.take(k));
        lemma_check_dims_err(ps, k + 1);
    } else {
        assert(ps.take(k) =~= ps);
    }
}

/// The projection checked, sorted and each dimension once — or the refusal
/// of the first dimension that is no IRI.
pub fn checked_projection(ps: &[String]) -> (r: Result<Vec<String>, Json>)
    ensures
        match r {
            Ok(v) => check_dims(views(ps@)) is Ok && strictly_sorted(views(v@))
                && views(v@).to_set() == check_dims(views(ps@))->Ok_0.to_set(),
            Err(j) => check_dims(views(ps@)) == Err::<Seq<Seq<char>>, JsonV>(j@),
        },
{
    let ghost all = views(ps@);
    let mut acc: Vec<String> = Vec::new();
    let ghost mut checked: Seq<Seq<char>> = Seq::empty();
    let mut i: usize = 0;
    assert(all.take(0) =~= Seq::empty());
    assert(views(acc@).to_set() =~= checked.to_set());
    while i < ps.len()
        invariant
            0 <= i <= ps@.len(),
            all == views(ps@),
            check_dims(all.take(i as int)) == Ok::<Seq<Seq<char>>, JsonV>(checked),
            strictly_sorted(views(acc@)),
            views(acc@).to_set() == checked.to_set(),
        decreases ps@.len() - i,
    {
        assert(all.take(i + 1).drop_last() =~= all.take(i as int));
        assert(all.take(i + 1).last() == ps@[i as int]@);
        match iri_safe(ps[i].as_str()) {
            Err(e) => {
                let mut m = String::from_str("dimensions: ");
                m.append(e.as_str());
                proof {
                    lemma_check_dims_err(all, i as int + 1);
                }
                return Err(invalid_projection(m.as_str()));
            },
            Ok(d) => {
                let n = normalise_value(d.as_str());
                proof {
                    checked.lemma_push_to_set_commute(n@);
                    checked = checked.push(n@);
                }
                crate::text::insert_sorted(&mut acc, n);
            },
        }
        i = i + 1;
    }
    assert(all.take(ps@.len() as int) =~= all);
    Ok(acc)
}

// --- the filter clauses and the keys ---------------------------------------------

/// The clauses the filters add, and how many literal variables they use:
/// an IRI value matches exactly; a literal is compared on its lexical form.
pub open spec fn clauses_of(fs: Seq<(Seq<char>, Seq<char>)>) -> (Seq<char>, nat)
    decreases fs.len(),
{
    if fs.len() == 0 {
        (Seq::empty(), 0)
    } else {
        let (c, k) = clauses_of(fs.drop_last());
        let d = fs.last().0;
        let v = fs.last().1;
        if iri_like(v) {
            (c + "?obs <"@ + d + "> <"@ + v + "> .\n"@, k)
        } else {
            (c + "?obs <"@ + d + "> ?filterValue"@ + decimal(k) + " . FILTER(STR(?filterValue"@ + decimal(k) + ") = \""@
                + literal_escaped(v) + "\")\n"@, k + 1)
        }
    }
}

/// The filter clauses of a checked filter list.
pub fn filter_clauses(fs: &Vec<(String, String)>) -> (r: String)
    ensures
        r@ == clauses_of(pairs_of(fs@)).0,
{
    let ghost all = pairs_of(fs@);
    let mut r = String::new();
    let mut k: u64 = 0;
    let mut i: usize = 0;
    assert(all.take(0) =~= Seq::empty());
    while i < fs.len()
        invariant
            0 <= i <= fs@.len(),
            all == pairs_of(fs@),
            (r@, k as nat) == clauses_of(all.take(i as int)),
            k <= i,
        decreases fs@.len() - i,
    {
        assert(all.take(i + 1).drop_last() =~= all.take(i as int));
        assert(all.take(i + 1).last() == (fs@[i as int].0@, fs@[i as int].1@));
        let d = fs[i].0.as_str();
        let v = fs[i].1.as_str();
        if starts_with(v, "https://") || starts_with(v, "http://") {
            r.append("?obs <");
            r.append(d);
            r.append("> <");
            r.append(v);
            r.append("> .\n");
        } else {
            let n = fmt_u64(k);
            r.append("?obs <");
            r.append(d);
            r.append("> ?filterValue");
            r.append(n.as_str());
            r.append(" . FILTER(STR(?filterValue");
            r.append(n.as_str());
            r.append(") = \"");
            r.append(literal_safe(v).as_str());
            r.append("\")\n");
            k = k + 1;
        }
        i = i + 1;
    }
    assert(all.take(fs@.len() as int) =~= all);
    r
}

/// `d=v` for every filter as it was given, sorted (a repeat kept), joined
/// by `;` — so the same filters in another order ask the same key.
pub open spec fn filter_key_spec(fs: Seq<(Seq<char>, Seq<char>)>) -> Seq<char> {
    crate::domain::joined(crate::text::sorted_of(filter_pairs(fs)), ";"@)
}

/// `d=v` for every filter, as the answer echoes them.
pub open spec fn filter_pairs(fs: Seq<(Seq<char>, Seq<char>)>) -> Seq<Seq<char>> {
    fs.map_values(|p: (Seq<char>, Seq<char>)| p.0 + "="@ + p.1)
}

pub fn filter_strings(fs: &[(String, String)]) -> (r: Vec<String>)
    ensures
        views(r@) == filter_pairs(pairs_of(fs@)),
{
    let mut r: Vec<String> = Vec::new();
    let mut i: usize = 0;
    while i < fs.len()
        invariant
            0 <= i <= fs@.len(),
            views(r@) == filter_pairs(pairs_of(fs@)).take(i as int),
        decreases fs@.len() - i,
    {
        let mut s = String::from_str(fs[i].0.as_str());
        s.append("=");
        s.append(fs[i].1.as_str());
        let ghost before = views(r@);
        let ghost sv = s@;
        assert(sv == pairs_of(fs@)[i as int].0 + "="@ + pairs_of(fs@)[i as int].1);
        r.push(s);
        assert(views(r@) =~= before.push(sv));
        i = i + 1;
        assert(views(r@) =~= filter_pairs(pairs_of(fs@)).take(i as int));
    }
    assert(filter_pairs(pairs_of(fs@)).take(fs@.len() as int) =~= filter_pairs(pairs_of(fs@)));
    r
}

/// Items joined by a separator.
pub fn join(items: &Vec<String>, sep: &str) -> (r: String)
    ensures
        r@ == crate::domain::joined(views(items@), sep@),
{
    let ghost all = views(items@);
    let mut r = String::new();
    let mut i: usize = 0;
    assert(all.take(0) =~= Seq::empty());
    while i < items.len()
        invariant
            0 <= i <= items@.len(),
            all == views(items@),
            r@ == crate::domain::joined(all.take(i as int), sep@),
        decreases items@.len() - i,
    {
        assert(all.take(i + 1).drop_last() =~= all.take(i as int));
        if i > 0 {
            r.append(sep);
        } else {
            assert(all.take(1) =~= seq![all[0]]);
        }
        r.append(items[i].as_str());
        i = i + 1;
    }
    assert(all.take(items@.len() as int) =~= all);
    r
}

/// `dims=a,b:` under a projection, nothing without one.
pub open spec fn projection_key_spec(projected: Seq<Seq<char>>) -> Seq<char> {
    if projected.len() == 0 {
        Seq::empty()
    } else {
        "dims="@ + crate::domain::joined(projected, ","@) + ":"@
    }
}

pub fn projection_key(projected: &Vec<String>) -> (r: String)
    ensures
        r@ == projection_key_spec(views(projected@)),
{
    if projected.len() == 0 {
        return String::new();
    }
    let mut r = String::from_str("dims=");
    r.append(join(projected, ",").as_str());
    r.append(":");
    r
}

// --- the shape of a citation ----------------------------------------------------

pub const CITATION_NOTE: &'static str = "a title of this row is written like a Swiss legal citation. It is handed over verbatim: no server resolves a dated act title today (fedlex's citation parser reads the last capitalised word as an abbreviation and answers unresolved), so nothing here claims an act";

/// What follows the opener of a citation-like title.
pub open spec fn after_opener(label: Seq<char>) -> Option<Seq<char>> {
    if has_prefix(label, "Bundesbeschluss"@) {
        Some(label.skip(15))
    } else if has_prefix(label, "Bundesgesetz"@) {
        Some(label.skip(12))
    } else if has_prefix(label, "Verordnung"@) {
        Some(label.skip(10))
    } else if has_prefix(label, "Änderung"@) {
        Some(label.skip(8))
    } else {
        None
    }
}

/// «Bundesbeschluss vom 26.09.1952 über …»: an opener, whitespace, `vom `
/// and a digit — the form, and nothing about what it resolves to.
pub open spec fn citation_like(label: Seq<char>) -> bool {
    match after_opener(label) {
        None => false,
        Some(rest) => {
            let r = rest.skip(crate::text::lead(rest, crate::text::trim_pred(true)) as int);
            has_prefix(r, "vom "@) && r.len() > 4 && '0' <= r[4] && r[4] <= '9'
        },
    }
}

fn opener_rest(label: &str) -> (r: Option<String>)
    ensures
        match r {
            Some(s) => after_opener(label@) == Some(s@),
            None => after_opener(label@) is None,
        },
{
    proof {
        reveal_strlit("Bundesbeschluss");
        reveal_strlit("Bundesgesetz");
        reveal_strlit("Verordnung");
        reveal_strlit("Änderung");
    }
    if let Some(r) = crate::text::strip_prefix(label, "Bundesbeschluss") {
        Some(r)
    } else if let Some(r) = crate::text::strip_prefix(label, "Bundesgesetz") {
        Some(r)
    } else if let Some(r) = crate::text::strip_prefix(label, "Verordnung") {
        Some(r)
    } else if let Some(r) = crate::text::strip_prefix(label, "Änderung") {
        Some(r)
    } else {
        None
    }
}

/// Does a label have the SHAPE of a legal citation? The shape is all this
/// says: the resolution is open.
pub fn looks_like_citation(label: &str) -> (b: bool)
    ensures
        b == citation_like(label@),
{
    let rest = match opener_rest(label) {
        Some(r) => r,
        None => { return false; },
    };
    let v = crate::text::chars_of(rest.as_str());
    let mut a: usize = 0;
    while a < v.len() && crate::text::is_whitespace(v[a])
        invariant
            a <= v@.len(),
            v@ == rest@,
            forall|j: int| 0 <= j < a ==> crate::text::is_ws(v@[j]),
        decreases v@.len() - a,
    {
        a = a + 1;
    }
    proof {
        assert forall|j: int| 0 <= j < a implies (crate::text::trim_pred(true))(v@[j]) by {}
        crate::text::lemma_lead(v@, crate::text::trim_pred(true), a as int);
    }
    let ghost r = rest@.skip(a as int);
    proof {
        reveal_strlit("vom ");
    }
    if v.len() - a <= 4 {
        return false;
    }
    let ok = v[a] == 'v' && v[a + 1] == 'o' && v[a + 2] == 'm' && v[a + 3] == ' ' && '0' <= v[a + 4] && v[a + 4] <= '9';
    assert(ok == (has_prefix(r, "vom "@) && r.len() > 4 && '0' <= r[4] && r[4] <= '9')) by {
        assert(r[0] == v@[a as int]);
        assert(r[1] == v@[a + 1]);
        assert(r[2] == v@[a + 2]);
        assert(r[3] == v@[a + 3]);
        assert(r[4] == v@[a + 4]);
        if has_prefix(r, "vom "@) {
            assert(r.take(4)[0] == r[0]);
            assert(r.take(4)[1] == r[1]);
            assert(r.take(4)[2] == r[2]);
            assert(r.take(4)[3] == r[3]);
        }
        if ok {
            assert(r.take(4) =~= "vom "@);
        }
    }
    ok
}

} // verus!

verus! {

// --- the rows of a page -----------------------------------------------------------

/// A cell of a row: the predicate, the cell, and the labels of its object.
pub type Entry = (Seq<char>, crate::domain::CellV, Seq<(Seq<char>, Seq<char>)>);

/// A row: its observation and its cells.
pub type RowV = (Seq<char>, Seq<Entry>);

/// A cell is identified within its row by predicate and lexical form.
pub open spec fn entry_keys(cells: Seq<Entry>) -> Seq<(Seq<char>, Option<Seq<char>>)> {
    cells.map_values(|e: Entry| (e.0, e.1.value))
}

pub open spec fn row_keys(rows: Seq<RowV>) -> Seq<Seq<char>> {
    rows.map_values(|r: RowV| r.0)
}

/// `cells` with the cell a binding carries and the label it carries.
pub open spec fn add_entry(cells: Seq<Entry>, p: Seq<char>, c: crate::domain::CellV, b: JsonV) -> Seq<Entry> {
    let ci = crate::text::pos_in(entry_keys(cells), (p, c.value));
    let cells1 = if ci == cells.len() {
        cells.push((p, c, Seq::empty()))
    } else {
        cells
    };
    cells1.update(ci, (cells1[ci].0, cells1[ci].1, crate::domain::with_label(cells1[ci].2, b, "label"@, "labelLang"@)))
}

/// `rows` with what one binding says: the row exists because the inner
/// SELECT bound it, whether or not the binding carries a cell.
pub open spec fn add_obs(rows: Seq<RowV>, b: JsonV) -> Seq<RowV> {
    match crate::domain::text_spec(b, "obs"@) {
        None => rows,
        Some(o) => {
            let k = crate::text::pos_in(row_keys(rows), o);
            let rows1 = if k == rows.len() {
                rows.push((o, Seq::empty()))
            } else {
                rows
            };
            match (crate::domain::text_spec(b, "p"@), crate::domain::cell_spec(b, "v"@)) {
                (Some(p), Some(c)) => rows1.update(k, (rows1[k].0, add_entry(rows1[k].1, p, c, b))),
                _ => rows1,
            }
        },
    }
}

/// The rows of a page, each observation once, in the order served.
pub open spec fn fold_rows(bs: Seq<JsonV>) -> Seq<RowV>
    decreases bs.len(),
{
    if bs.len() == 0 {
        Seq::empty()
    } else {
        add_obs(fold_rows(bs.drop_last()), bs.last())
    }
}

/// A row while it is folded.
pub struct ObsRow {
    pub observation: String,
    pub cells: Vec<crate::tools::Statement>,
}

pub open spec fn rows_view(v: Seq<ObsRow>) -> Seq<RowV> {
    v.map_values(|r: ObsRow| (r.observation@, crate::tools::statements_view(r.cells@)))
}

fn add_entry_of(cells: &mut Vec<crate::tools::Statement>, p: String, c: crate::domain::Cell, b: &Json)
    ensures
        crate::tools::statements_view(final(cells)@) == add_entry(crate::tools::statements_view(old(cells)@), p@, c@, b@),
{
    let ghost old_v = crate::tools::statements_view(cells@);
    let ghost keys = entry_keys(old_v);
    let ghost key = (p@, c@.value);
    let mut k: usize = 0;
    let mut found = false;
    while !found && k < cells.len()
        invariant
            0 <= k <= cells@.len(),
            cells@ == old(cells)@,
            old_v == crate::tools::statements_view(cells@),
            keys == entry_keys(old_v),
            key == (p@, c@.value),
            forall|j: int| 0 <= j < k ==> #[trigger] keys[j] != key,
            found ==> k < cells@.len() && keys[k as int] == key,
        decreases cells@.len() - k + (if found { 0int } else { 1int }),
    {
        let e = &cells[k];
        if crate::text::str_eq(e.predicate.as_str(), p.as_str()) && crate::tools::opt_eq(&e.cell.value, &c.value) {
            found = true;
        } else {
            k = k + 1;
        }
    }
    proof {
        crate::text::lemma_pos_in(keys, key, k as int);
    }
    if k == cells.len() {
        let ghost pv = p@;
        let ghost cv = c@;
        let fresh: Vec<(String, String)> = Vec::new();
        assert(crate::domain::pairs_view(fresh@) =~= Seq::empty());
        cells.push(crate::tools::Statement { predicate: p, cell: c, labels: fresh });
        assert(crate::tools::statements_view(cells@) =~= old_v.push((pv, cv, Seq::empty())));
    }
    let ghost mid = crate::tools::statements_view(cells@);
    crate::domain::add_label(&mut cells[k].labels, b, "label", "labelLang");
    assert(crate::tools::statements_view(cells@) =~= mid.update(k as int, (mid[k as int].0, mid[k as int].1, crate::domain::with_label(mid[k as int].2, b@, "label"@, "labelLang"@))));
}

fn add_obs_of(rows: &mut Vec<ObsRow>, b: &Json)
    ensures
        rows_view(final(rows)@) == add_obs(rows_view(old(rows)@), b@),
{
    let o = match crate::domain::text(b, "obs") {
        Some(o) => o,
        None => { return; },
    };
    let ghost old_v = rows_view(rows@);
    let ghost keys = row_keys(old_v);
    let mut k: usize = 0;
    let mut found = false;
    while !found && k < rows.len()
        invariant
            0 <= k <= rows@.len(),
            rows@ == old(rows)@,
            old_v == rows_view(rows@),
            keys == row_keys(old_v),
            forall|j: int| 0 <= j < k ==> #[trigger] keys[j] != o@,
            found ==> k < rows@.len() && keys[k as int] == o@,
        decreases rows@.len() - k + (if found { 0int } else { 1int }),
    {
        if crate::text::str_eq(rows[k].observation.as_str(), o.as_str()) {
            found = true;
        } else {
            k = k + 1;
        }
    }
    proof {
        crate::text::lemma_pos_in(keys, o@, k as int);
    }
    if k == rows.len() {
        let ghost ov = o@;
        let fresh: Vec<crate::tools::Statement> = Vec::new();
        assert(crate::tools::statements_view(fresh@) =~= Seq::empty());
        rows.push(ObsRow { observation: o, cells: fresh });
        assert(rows_view(rows@) =~= old_v.push((ov, Seq::empty())));
    }
    let ghost mid = rows_view(rows@);
    let p = crate::domain::text(b, "p");
    let c = crate::domain::cell(b, "v");
    match (p, c) {
        (Some(p), Some(c)) => {
            add_entry_of(&mut rows[k].cells, p, c, b);
            assert(rows_view(rows@) =~= mid.update(k as int, (mid[k as int].0, add_entry(mid[k as int].1, crate::domain::text_spec(b@, "p"@)->0, crate::domain::cell_spec(b@, "v"@)->0, b@))));
        },
        _ => {},
    }
}

/// The rows of a page of bindings.
pub fn collect_rows(bs: &Vec<Json>) -> (r: Vec<ObsRow>)
    ensures
        rows_view(r@) == fold_rows(crate::json::items_view(bs@)),
{
    let ghost items = crate::json::items_view(bs@);
    let mut r: Vec<ObsRow> = Vec::new();
    let mut i: usize = 0;
    assert(rows_view(r@) =~= Seq::empty());
    while i < bs.len()
        invariant
            0 <= i <= bs@.len(),
            items == crate::json::items_view(bs@),
            rows_view(r@) == fold_rows(items.take(i as int)),
        decreases bs@.len() - i,
    {
        assert(items.take(i + 1).drop_last() =~= items.take(i as int));
        assert(items.take(i + 1).last() == bs@[i as int]@);
        add_obs_of(&mut r, &bs[i]);
        i = i + 1;
    }
    assert(items.take(bs@.len() as int) =~= items);
    r
}

// --- a row as the answer serves it --------------------------------------------------

/// Does any label of the row have the shape of a legal citation?
pub open spec fn cites(cells: Seq<Entry>) -> bool {
    exists|i: int, j: int| 0 <= i < cells.len() && 0 <= j < cells[i].2.len() && citation_like(#[trigger] cells[i].2[j].1)
}

/// The citation block of a row: present only when a label has the shape.
pub open spec fn citation_json(cells: Seq<Entry>) -> JsonV {
    if cites(cells) {
        JsonV::Obj(seq![
            ("citation_shape"@, JsonV::Bool(true)),
            ("resolution"@, JsonV::Str("open"@)),
            ("note"@, JsonV::Str(CITATION_NOTE@)),
        ])
    } else {
        JsonV::Null
    }
}

/// One row as `observations` serves it.
pub open spec fn row_json(r: RowV, lang: Seq<char>) -> JsonV {
    JsonV::Obj(seq![
        ("observation"@, JsonV::Str(r.0)),
        ("cells"@, JsonV::Arr(crate::tools::statement_rows(r.1, lang))),
        ("citation_shape"@, citation_json(r.1)),
    ])
}

fn cites_of(cells: &Vec<crate::tools::Statement>) -> (b: bool)
    ensures
        b == cites(crate::tools::statements_view(cells@)),
{
    let ghost cv = crate::tools::statements_view(cells@);
    let mut i: usize = 0;
    while i < cells.len()
        invariant
            0 <= i <= cells@.len(),
            cv == crate::tools::statements_view(cells@),
            forall|a: int, j: int| 0 <= a < i && 0 <= j < cv[a].2.len() ==> !citation_like(#[trigger] cv[a].2[j].1),
        decreases cells@.len() - i,
    {
        let labels = &cells[i].labels;
        let mut j: usize = 0;
        while j < labels.len()
            invariant
                0 <= i < cells@.len(),
                0 <= j <= labels@.len(),
                *labels == cells@[i as int].labels,
                cv == crate::tools::statements_view(cells@),
                forall|a: int, m: int| 0 <= a < i && 0 <= m < cv[a].2.len() ==> !citation_like(#[trigger] cv[a].2[m].1),
                forall|m: int| 0 <= m < j ==> !citation_like(#[trigger] cv[i as int].2[m].1),
            decreases labels@.len() - j,
        {
            assert(cv[i as int].2[j as int].1 == labels@[j as int].1@);
            if looks_like_citation(labels[j].1.as_str()) {
                return true;
            }
            j = j + 1;
        }
        i = i + 1;
    }
    false
}

fn citation_of(cells: &Vec<crate::tools::Statement>) -> (j: Json)
    ensures
        j@ == citation_json(crate::tools::statements_view(cells@)),
{
    if cites_of(cells) {
        let mut f: Vec<(String, Json)> = Vec::new();
        crate::json::push_field(&mut f, "citation_shape", Json::Bool(true));
        crate::json::push_field(&mut f, "resolution", crate::json::jstr("open"));
        crate::json::push_field(&mut f, "note", crate::json::jstr(CITATION_NOTE));
        assert(crate::json::fields_view(f@) =~= seq![
            ("citation_shape"@, JsonV::Bool(true)),
            ("resolution"@, JsonV::Str("open"@)),
            ("note"@, JsonV::Str(CITATION_NOTE@)),
        ]);
        crate::json::obj(f)
    } else {
        Json::Null
    }
}

/// The rows of a page as the answer serves them.
pub fn rows_json(rows: &Vec<ObsRow>, lang: &str) -> (r: Vec<Json>)
    ensures
        crate::json::items_view(r@) == rows_view(rows@).map_values(|x: RowV| row_json(x, lang@)),
{
    let ghost want = rows_view(rows@).map_values(|x: RowV| row_json(x, lang@));
    let mut r: Vec<Json> = Vec::new();
    let mut i: usize = 0;
    while i < rows.len()
        invariant
            0 <= i <= rows@.len(),
            want == rows_view(rows@).map_values(|x: RowV| row_json(x, lang@)),
            crate::json::items_view(r@) == want.take(i as int),
        decreases rows@.len() - i,
    {
        let row = &rows[i];
        let cells = crate::tools::statement_rows_of(&row.cells, lang);
        let mut f: Vec<(String, Json)> = Vec::new();
        crate::json::push_field(&mut f, "observation", crate::json::jstr(row.observation.as_str()));
        crate::json::push_field(&mut f, "cells", crate::json::arr(cells));
        crate::json::push_field(&mut f, "citation_shape", citation_of(&row.cells));
        assert(crate::json::fields_view(f@) =~= match row_json(rows_view(rows@)[i as int], lang@) {
            JsonV::Obj(x) => x,
            _ => Seq::empty(),
        });
        crate::json::push_item(&mut r, crate::json::obj(f));
        i = i + 1;
        assert(crate::json::items_view(r@) =~= want.take(i as int));
    }
    assert(want.take(rows@.len() as int) =~= want);
    r
}

} // verus!

verus! {

// --- what a page says as a whole ---------------------------------------------------

/// How many cells of `cells` are stated (`stated`) or not.
pub open spec fn stated_in(cells: Seq<Entry>, stated: bool) -> nat
    decreases cells.len(),
{
    if cells.len() == 0 {
        0
    } else {
        stated_in(cells.drop_last(), stated) + if cells.last().1.stated == stated { 1nat } else { 0nat }
    }
}

/// How many cells of the page are stated (`stated`) or not.
pub open spec fn stated_total(rows: Seq<RowV>, stated: bool) -> nat
    decreases rows.len(),
{
    if rows.len() == 0 {
        0
    } else {
        stated_total(rows.drop_last(), stated) + stated_in(rows.last().1, stated)
    }
}

fn sat_inc(a: u64) -> (r: u64)
    ensures
        r == (if a == u64::MAX { u64::MAX } else { (a + 1) as u64 }),
{
    if a == u64::MAX { a } else { a + 1 }
}

/// The stated (or not-stated) cells of a page, `u64::MAX` past it.
pub fn count_cells(rows: &Vec<ObsRow>, stated: bool) -> (n: u64)
    ensures
        n == crate::json::sat(stated_total(rows_view(rows@), stated)),
{
    let ghost rv = rows_view(rows@);
    let mut n: u64 = 0;
    let mut i: usize = 0;
    assert(rv.take(0) =~= Seq::empty());
    while i < rows.len()
        invariant
            0 <= i <= rows@.len(),
            rv == rows_view(rows@),
            n == crate::json::sat(stated_total(rv.take(i as int), stated)),
        decreases rows@.len() - i,
    {
        assert(rv.take(i + 1).drop_last() =~= rv.take(i as int));
        let cells = &rows[i].cells;
        let ghost cv = crate::tools::statements_view(cells@);
        assert(rv[i as int].1 == cv);
        let mut j: usize = 0;
        assert(cv.take(0) =~= Seq::empty());
        while j < cells.len()
            invariant
                0 <= i < rows@.len(),
                0 <= j <= cells@.len(),
                *cells == rows@[i as int].cells,
                cv == crate::tools::statements_view(cells@),
                rv == rows_view(rows@),
                n == crate::json::sat(stated_total(rv.take(i as int), stated) + stated_in(cv.take(j as int), stated)),
            decreases cells@.len() - j,
        {
            assert(cv.take(j + 1).drop_last() =~= cv.take(j as int));
            if cells[j].cell.stated == stated {
                n = sat_inc(n);
            }
            j = j + 1;
        }
        assert(cv.take(cells@.len() as int) =~= cv);
        i = i + 1;
    }
    assert(rv.take(rows@.len() as int) =~= rv);
    n
}

/// A region hit: the dimension, the value, its label, the observation.
pub type Hit = (Seq<char>, Seq<char>, Option<Seq<char>>, Seq<char>);

/// A cell is a region hit when its value is an IRI that names a canton or
/// the country, or that sits under a region dimension.
pub open spec fn entry_hit(e: Entry, obs: Seq<char>, lang: Seq<char>) -> Option<Hit> {
    match e.1.value {
        Some(v) => if e.1.form == "iri"@ && (crate::scope::region_value(v) || crate::scope::region_dimension(e.0)) {
            Some((e.0, v, crate::tools::first_of(choose_label_spec(e.2, Some(lang))), obs))
        } else {
            None
        },
        None => None,
    }
}

pub open spec fn cell_hits(obs: Seq<char>, cells: Seq<Entry>, lang: Seq<char>) -> Seq<Hit>
    decreases cells.len(),
{
    if cells.len() == 0 {
        Seq::empty()
    } else {
        let h = cell_hits(obs, cells.drop_last(), lang);
        match entry_hit(cells.last(), obs, lang) {
            Some(x) => h.push(x),
            None => h,
        }
    }
}

/// Every region hit of the page, row by row, cell by cell.
pub open spec fn page_hits(rows: Seq<RowV>, lang: Seq<char>) -> Seq<Hit>
    decreases rows.len(),
{
    if rows.len() == 0 {
        Seq::empty()
    } else {
        page_hits(rows.drop_last(), lang) + cell_hits(rows.last().0, rows.last().1, lang)
    }
}

pub open spec fn hit_values(hs: Seq<Hit>) -> Seq<Seq<char>> {
    hs.map_values(|h: Hit| h.1)
}

/// The first hit of every distinct value.
pub open spec fn distinct_hits(hs: Seq<Hit>) -> Seq<Hit>
    decreases hs.len(),
{
    if hs.len() == 0 {
        Seq::empty()
    } else {
        let d = distinct_hits(hs.drop_last());
        if hit_values(d).contains(hs.last().1) {
            d
        } else {
            d.push(hs.last())
        }
    }
}

/// The observation of the first country hit, when there is one.
pub open spec fn national_row(ds: Seq<Hit>) -> Option<Seq<char>>
    decreases ds.len(),
{
    if ds.len() == 0 {
        None
    } else {
        match national_row(ds.drop_last()) {
            Some(o) => Some(o),
            None => if has_prefix(ds.last().1, "https://ld.admin.ch/country/"@) {
                Some(ds.last().3)
            } else {
                None
            },
        }
    }
}

/// A hit while the page is read.
pub struct HitRow {
    pub dimension: String,
    pub value: String,
    pub label: Option<String>,
    pub observation: String,
}

pub open spec fn hits_view(v: Seq<HitRow>) -> Seq<Hit> {
    v.map_values(|h: HitRow| (h.dimension@, h.value@, crate::domain::opt_seq(h.label), h.observation@))
}

fn hit_of(e: &crate::tools::Statement, obs: &str, lang: &str) -> (r: Option<HitRow>)
    ensures
        match r {
            Some(h) => entry_hit(crate::tools::statement_view(*e), obs@, lang@) == Some(hits_view(seq![h])[0]),
            None => entry_hit(crate::tools::statement_view(*e), obs@, lang@) is None,
        },
{
    let v = match &e.cell.value {
        Some(v) => v,
        None => { return None; },
    };
    if crate::text::str_eq(e.cell.form, "iri") && (crate::scope::is_region_value(v.as_str()) || crate::scope::is_region_dimension(e.predicate.as_str())) {
        let label = choose_label(e.labels.as_slice(), Some(lang));
        let text: Option<String> = match label {
            Some(l) => Some(l.0),
            None => None,
        };
        Some(HitRow { dimension: e.predicate.clone(), value: v.clone(), label: text, observation: String::from_str(obs) })
    } else {
        None
    }
}

/// Every region hit of the page.
pub fn hits_of(rows: &Vec<ObsRow>, lang: &str) -> (r: Vec<HitRow>)
    ensures
        hits_view(r@) == page_hits(rows_view(rows@), lang@),
{
    let ghost rv = rows_view(rows@);
    let mut r: Vec<HitRow> = Vec::new();
    let mut i: usize = 0;
    assert(rv.take(0) =~= Seq::empty());
    assert(hits_view(r@) =~= Seq::empty());
    while i < rows.len()
        invariant
            0 <= i <= rows@.len(),
            rv == rows_view(rows@),
            hits_view(r@) == page_hits(rv.take(i as int), lang@),
        decreases rows@.len() - i,
    {
        assert(rv.take(i + 1).drop_last() =~= rv.take(i as int));
        let row = &rows[i];
        let ghost cv = crate::tools::statements_view(row.cells@);
        let ghost base = page_hits(rv.take(i as int), lang@);
        assert(rv[i as int] == (row.observation@, cv));
        let mut j: usize = 0;
        assert(cv.take(0) =~= Seq::empty());
        assert(hits_view(r@) =~= base + cell_hits(row.observation@, cv.take(0), lang@));
        while j < row.cells.len()
            invariant
                0 <= i < rows@.len(),
                0 <= j <= row.cells@.len(),
                *row == rows@[i as int],
                cv == crate::tools::statements_view(row.cells@),
                hits_view(r@) == base + cell_hits(row.observation@, cv.take(j as int), lang@),
            decreases row.cells@.len() - j,
        {
            assert(cv.take(j + 1).drop_last() =~= cv.take(j as int));
            assert(cv.take(j + 1).last() == crate::tools::statement_view(row.cells@[j as int]));
            match hit_of(&row.cells[j], row.observation.as_str(), lang) {
                Some(h) => {
                    let ghost before = hits_view(r@);
                    let ghost hv = hits_view(seq![h])[0];
                    r.push(h);
                    assert(hits_view(r@) =~= before.push(hv));
                },
                None => {},
            }
            j = j + 1;
        }
        assert(cv.take(row.cells@.len() as int) =~= cv);
        i = i + 1;
    }
    assert(rv.take(rows@.len() as int) =~= rv);
    r
}

fn copy_hit(h: &HitRow) -> (r: HitRow)
    ensures
        r.dimension@ == h.dimension@ && r.value@ == h.value@ && r.observation@ == h.observation@,
        crate::domain::opt_seq(r.label) == crate::domain::opt_seq(h.label),
{
    let label: Option<String> = match &h.label {
        Some(l) => Some(l.clone()),
        None => None,
    };
    HitRow { dimension: h.dimension.clone(), value: h.value.clone(), label, observation: h.observation.clone() }
}

/// The first hit of every distinct value.
pub fn distinct_of(hs: &Vec<HitRow>) -> (r: Vec<HitRow>)
    ensures
        hits_view(r@) == distinct_hits(hits_view(hs@)),
{
    let ghost hv = hits_view(hs@);
    let mut r: Vec<HitRow> = Vec::new();
    let mut i: usize = 0;
    assert(hv.take(0) =~= Seq::empty());
    assert(hits_view(r@) =~= Seq::empty());
    while i < hs.len()
        invariant
            0 <= i <= hs@.len(),
            hv == hits_view(hs@),
            hits_view(r@) == distinct_hits(hv.take(i as int)),
        decreases hs@.len() - i,
    {
        assert(hv.take(i + 1).drop_last() =~= hv.take(i as int));
        assert(hv.take(i + 1).last() == hv[i as int]);
        let ghost seen = hit_values(hits_view(r@));
        let mut j: usize = 0;
        let mut found = false;
        while j < r.len() && !found
            invariant
                0 <= j <= r@.len(),
                seen == hit_values(hits_view(r@)),
                forall|m: int| 0 <= m < j ==> seen[m] != hv[i as int].1,
                found ==> seen.contains(hv[i as int].1),
                0 <= i < hs@.len(),
                hv == hits_view(hs@),
            decreases r@.len() - j + (if found { 0int } else { 1int }),
        {
            if crate::text::str_eq(r[j].value.as_str(), hs[i].value.as_str()) {
                assert(seen[j as int] == hv[i as int].1);
                found = true;
            } else {
                j = j + 1;
            }
        }
        if !found {
            let ghost before = hits_view(r@);
            let h = copy_hit(&hs[i]);
            r.push(h);
            assert(hits_view(r@) =~= before.push(hv[i as int]));
        }
        i = i + 1;
    }
    assert(hv.take(hs@.len() as int) =~= hv);
    r
}

pub fn national_of(ds: &Vec<HitRow>) -> (r: Option<String>)
    ensures
        crate::domain::opt_seq(r) == national_row(hits_view(ds@)),
{
    let ghost dv = hits_view(ds@);
    let mut r: Option<String> = None;
    let mut i: usize = 0;
    assert(dv.take(0) =~= Seq::empty());
    while i < ds.len()
        invariant
            0 <= i <= ds@.len(),
            dv == hits_view(ds@),
            crate::domain::opt_seq(r) == national_row(dv.take(i as int)),
        decreases ds@.len() - i,
    {
        assert(dv.take(i + 1).drop_last() =~= dv.take(i as int));
        assert(dv.take(i + 1).last() == dv[i as int]);
        if r.is_none() && starts_with(ds[i].value.as_str(), "https://ld.admin.ch/country/") {
            r = Some(ds[i].observation.clone());
        }
        i = i + 1;
    }
    assert(dv.take(ds@.len() as int) =~= dv);
    r
}

/// The most cells any row of the page carries.
pub open spec fn cells_per_row(rows: Seq<RowV>) -> nat
    decreases rows.len(),
{
    if rows.len() == 0 {
        0
    } else {
        let m = cells_per_row(rows.drop_last());
        if rows.last().1.len() > m {
            rows.last().1.len()
        } else {
            m
        }
    }
}

pub fn cells_per_row_of(rows: &Vec<ObsRow>) -> (n: usize)
    ensures
        n == cells_per_row(rows_view(rows@)),
{
    let ghost rv = rows_view(rows@);
    let mut n: usize = 0;
    let mut i: usize = 0;
    assert(rv.take(0) =~= Seq::empty());
    while i < rows.len()
        invariant
            0 <= i <= rows@.len(),
            rv == rows_view(rows@),
            n == cells_per_row(rv.take(i as int)),
        decreases rows@.len() - i,
    {
        assert(rv.take(i + 1).drop_last() =~= rv.take(i as int));
        assert(rv[i as int].1.len() == rows@[i as int].cells@.len());
        if rows[i].cells.len() > n {
            n = rows[i].cells.len();
        }
        i = i + 1;
    }
    assert(rv.take(rows@.len() as int) =~= rv);
    n
}

} // verus!

verus! {

// --- the region of a page and the advice on fewer cells ------------------------------

pub const REGION_READ: &'static str = "read";
pub const REGION_MIXED: &'static str = "mixed — this page spans several regions, so no single one may head it; an unqualified business fact is answered by the country row, which «national_row» names when the page carries one";
pub const REGION_NOT_PROJECTED: &'static str = "not projected — the projection named no region dimension, so this page cannot say";
pub const REGION_NONE: &'static str = "the rows of this page carry none";
pub const REGION_NO_DIMENSION: &'static str = "no row of this page carries a region cell, and the shape declares no region dimension";

/// The region of the page: the one distinct region value, when there is
/// exactly one.
pub open spec fn region_json(ds: Seq<Hit>) -> JsonV {
    if ds.len() == 1 {
        JsonV::Obj(seq![
            ("value"@, JsonV::Str(ds[0].1)),
            ("label"@, opt_view(ds[0].2)),
            ("dimension"@, JsonV::Str(ds[0].0)),
        ])
    } else {
        JsonV::Null
    }
}

pub fn region_of(ds: &Vec<HitRow>) -> (j: Json)
    ensures
        j@ == region_json(hits_view(ds@)),
{
    if ds.len() == 1 {
        let mut f: Vec<(String, Json)> = Vec::new();
        crate::json::push_field(&mut f, "value", crate::json::jstr(ds[0].value.as_str()));
        crate::json::push_field(&mut f, "label", crate::json::jopt(&ds[0].label));
        crate::json::push_field(&mut f, "dimension", crate::json::jstr(ds[0].dimension.as_str()));
        assert(crate::json::fields_view(f@) =~= match region_json(hits_view(ds@)) {
            JsonV::Obj(x) => x,
            _ => Seq::empty(),
        });
        crate::json::obj(f)
    } else {
        Json::Null
    }
}

/// Was a region asked for: no projection, or one that names a region
/// dimension?
pub open spec fn region_asked_for(projected: Seq<Seq<char>>) -> bool {
    projected.len() == 0 || exists|i: int| 0 <= i < projected.len() && crate::scope::region_dimension(#[trigger] projected[i])
}

/// Did the rule admit a region dimension?
pub open spec fn region_admitted(gated: Seq<(Seq<char>, Gate)>) -> bool {
    exists|i: int| 0 <= i < gated.len() && crate::scope::region_dimension((#[trigger] gated[i]).0)
}

/// Does the shape declare a region dimension?
pub open spec fn shape_has_region(shape: Seq<DimV>) -> bool {
    exists|i: int| 0 <= i < shape.len() && crate::scope::region_dimension((#[trigger] shape[i]).dimension)
}

/// What this page knows about its region.
pub open spec fn region_state(regions: nat, asked: bool, there: bool) -> Seq<char> {
    if regions == 1 {
        REGION_READ@
    } else if regions > 1 {
        REGION_MIXED@
    } else if !asked {
        REGION_NOT_PROJECTED@
    } else if there {
        REGION_NONE@
    } else {
        REGION_NO_DIMENSION@
    }
}

fn any_region(dims: &Vec<String>) -> (b: bool)
    ensures
        b == exists|i: int| 0 <= i < dims@.len() && crate::scope::region_dimension(#[trigger] views(dims@)[i]),
{
    let mut i: usize = 0;
    while i < dims.len()
        invariant
            0 <= i <= dims@.len(),
            forall|m: int| 0 <= m < i ==> !crate::scope::region_dimension(#[trigger] views(dims@)[m]),
        decreases dims@.len() - i,
    {
        if crate::scope::is_region_dimension(dims[i].as_str()) {
            assert(crate::scope::region_dimension(views(dims@)[i as int]));
            return true;
        }
        i = i + 1;
    }
    false
}

pub open spec fn gated_view(v: Seq<(String, Gate)>) -> Seq<(Seq<char>, Gate)> {
    v.map_values(|g: (String, Gate)| (g.0@, g.1))
}

fn any_region_gated(gated: &Vec<(String, Gate)>) -> (b: bool)
    ensures
        b == region_admitted(gated_view(gated@)),
{
    let ghost gv = gated_view(gated@);
    let mut i: usize = 0;
    while i < gated.len()
        invariant
            0 <= i <= gated@.len(),
            gv == gated_view(gated@),
            forall|m: int| 0 <= m < i ==> !crate::scope::region_dimension((#[trigger] gv[m]).0),
        decreases gated@.len() - i,
    {
        if crate::scope::is_region_dimension(gated[i].0.as_str()) {
            assert(crate::scope::region_dimension(gv[i as int].0));
            return true;
        }
        i = i + 1;
    }
    false
}

fn any_region_shape(shape: &Vec<ShapeDimension>) -> (b: bool)
    ensures
        b == shape_has_region(dims_view(shape@)),
{
    let ghost sv = dims_view(shape@);
    let mut i: usize = 0;
    while i < shape.len()
        invariant
            0 <= i <= shape@.len(),
            sv == dims_view(shape@),
            forall|m: int| 0 <= m < i ==> !crate::scope::region_dimension((#[trigger] sv[m]).dimension),
        decreases shape@.len() - i,
    {
        if crate::scope::is_region_dimension(shape[i].dimension.as_str()) {
            assert(crate::scope::region_dimension(sv[i as int].dimension));
            return true;
        }
        i = i + 1;
    }
    false
}

pub const HOW_FULL: &'static str = "pass «dimensions»: a list of dimension IRIs, and the rows come back with those cells only — one call instead of paging the same table twice at a smaller limit. The IRIs are the ones lindas.describe_cube serves; a dimension the shape does not declare is admitted the same way a filter is (a bound ASK), so the Ständemehr can be projected too";
pub const DECLARED_WARNING: &'static str = "the declared set is NOT everything a row carries (C2.2: 14 declared against 51 carried in the vote cube) — the Ständemehr fields are undeclared, and projecting the declared set alone drops them. Project what the question needs, not what the shape happens to declare";
pub const HOW_POINTER: &'static str = "pass «dimensions»: the IRIs are the ones lindas.describe_cube serves under «dimensions» — no further call is needed for them. The full advice, with the list and what it would cost in bytes, is on the answer at offset 0";

/// The cells of a row whose dimension the shape declares.
pub open spec fn declared_cells(cells: Seq<Entry>, shape: Seq<DimV>) -> Seq<Entry>
    decreases cells.len(),
{
    if cells.len() == 0 {
        Seq::empty()
    } else if declares(shape, cells.last().0) {
        declared_cells(cells.drop_last(), shape).push(cells.last())
    } else {
        declared_cells(cells.drop_last(), shape)
    }
}

/// The rows of the page cut to the declared cells.
pub open spec fn declared_rows(rows: Seq<RowV>, shape: Seq<DimV>, lang: Seq<char>) -> Seq<JsonV> {
    rows.map_values(|r: RowV| JsonV::Obj(seq![
        ("observation"@, JsonV::Str(r.0)),
        ("cells"@, JsonV::Arr(crate::tools::statement_rows(declared_cells(r.1, shape), lang))),
    ]))
}

/// The dimensions the shape declares.
pub open spec fn declared_dims(shape: Seq<DimV>) -> Seq<Seq<char>> {
    shape.map_values(|d: DimV| d.dimension)
}

/// Is the advice on fewer cells owed: no projection, more cells per row
/// than the shape declares, and rows at all?
pub open spec fn advice_owed(projected: Seq<Seq<char>>, per_row: nat, shape: Seq<DimV>, rows: nat) -> bool {
    projected.len() == 0 && per_row > shape.len() && rows > 0
}

/// The advice on fewer cells: in full on the first page, as a pointer on
/// every later one.
pub open spec fn fewer_cells_json(rows: Seq<RowV>, shape: Seq<DimV>, lang: Seq<char>, offset: nat, per_row: nat, bytes_now: u64) -> JsonV {
    let declared = declared_dims(shape);
    if offset == 0 {
        JsonV::Obj(seq![
            ("cells_per_row"@, JsonV::Num(per_row as u64)),
            ("rows_bytes"@, JsonV::Num(bytes_now)),
            ("how"@, JsonV::Str(HOW_FULL@)),
            ("declared_only"@, JsonV::Obj(seq![
                ("dimensions"@, strs_view(declared)),
                ("cells_per_row"@, JsonV::Num(declared.len() as u64)),
                ("rows_bytes"@, JsonV::Num(crate::json::sat(crate::json::text_len(JsonV::Arr(declared_rows(rows, shape, lang)))))),
                ("warning"@, JsonV::Str(DECLARED_WARNING@)),
            ])),
        ])
    } else {
        JsonV::Obj(seq![
            ("cells_per_row"@, JsonV::Num(per_row as u64)),
            ("rows_bytes"@, JsonV::Num(bytes_now)),
            ("declared_dimensions"@, JsonV::Num(declared.len() as u64)),
            ("how"@, JsonV::Str(HOW_POINTER@)),
        ])
    }
}

fn declared_cells_of(cells: &Vec<crate::tools::Statement>, shape: &Vec<ShapeDimension>) -> (r: Vec<crate::tools::Statement>)
    ensures
        crate::tools::statements_view(r@) == declared_cells(crate::tools::statements_view(cells@), dims_view(shape@)),
{
    let ghost cv = crate::tools::statements_view(cells@);
    let mut r: Vec<crate::tools::Statement> = Vec::new();
    let mut i: usize = 0;
    assert(cv.take(0) =~= Seq::empty());
    assert(crate::tools::statements_view(r@) =~= Seq::empty());
    while i < cells.len()
        invariant
            0 <= i <= cells@.len(),
            cv == crate::tools::statements_view(cells@),
            crate::tools::statements_view(r@) == declared_cells(cv.take(i as int), dims_view(shape@)),
        decreases cells@.len() - i,
    {
        assert(cv.take(i + 1).drop_last() =~= cv.take(i as int));
        assert(cv.take(i + 1).last() == cv[i as int]);
        if is_declared(shape, cells[i].predicate.as_str()) {
            let e = &cells[i];
            let c = crate::tools::Statement {
                predicate: e.predicate.clone(),
                cell: e.cell.copy(),
                labels: crate::domain::copy_pairs(&e.labels),
            };
            let ghost before = crate::tools::statements_view(r@);
            r.push(c);
            assert(crate::tools::statements_view(r@) =~= before.push(cv[i as int]));
        }
        i = i + 1;
    }
    assert(cv.take(cells@.len() as int) =~= cv);
    r
}

fn declared_rows_of(rows: &Vec<ObsRow>, shape: &Vec<ShapeDimension>, lang: &str) -> (r: Vec<Json>)
    ensures
        crate::json::items_view(r@) == declared_rows(rows_view(rows@), dims_view(shape@), lang@),
{
    let ghost want = declared_rows(rows_view(rows@), dims_view(shape@), lang@);
    let mut r: Vec<Json> = Vec::new();
    let mut i: usize = 0;
    while i < rows.len()
        invariant
            0 <= i <= rows@.len(),
            want == declared_rows(rows_view(rows@), dims_view(shape@), lang@),
            crate::json::items_view(r@) == want.take(i as int),
        decreases rows@.len() - i,
    {
        let row = &rows[i];
        let kept = declared_cells_of(&row.cells, shape);
        let cells = crate::tools::statement_rows_of(&kept, lang);
        let mut f: Vec<(String, Json)> = Vec::new();
        crate::json::push_field(&mut f, "observation", crate::json::jstr(row.observation.as_str()));
        crate::json::push_field(&mut f, "cells", crate::json::arr(cells));
        assert(crate::json::fields_view(f@) =~= match want[i as int] {
            JsonV::Obj(x) => x,
            _ => Seq::empty(),
        });
        crate::json::push_item(&mut r, crate::json::obj(f));
        i = i + 1;
        assert(crate::json::items_view(r@) =~= want.take(i as int));
    }
    assert(want.take(rows@.len() as int) =~= want);
    r
}

fn dims_of(shape: &Vec<ShapeDimension>) -> (r: Vec<String>)
    ensures
        views(r@) == declared_dims(dims_view(shape@)),
{
    let mut r: Vec<String> = Vec::new();
    let mut i: usize = 0;
    while i < shape.len()
        invariant
            0 <= i <= shape@.len(),
            views(r@) == declared_dims(dims_view(shape@)).take(i as int),
        decreases shape@.len() - i,
    {
        let ghost before = views(r@);
        let d = shape[i].dimension.clone();
        assert(d@ == declared_dims(dims_view(shape@))[i as int]);
        r.push(d);
        assert(views(r@) =~= before.push(declared_dims(dims_view(shape@))[i as int]));
        i = i + 1;
        assert(views(r@) =~= declared_dims(dims_view(shape@)).take(i as int));
    }
    assert(declared_dims(dims_view(shape@)).take(shape@.len() as int) =~= declared_dims(dims_view(shape@)));
    r
}

pub fn fewer_cells_of(rows: &Vec<ObsRow>, shape: &Vec<ShapeDimension>, lang: &str, offset: usize, per_row: usize, bytes_now: u64) -> (j: Json)
    ensures
        j@ == fewer_cells_json(rows_view(rows@), dims_view(shape@), lang@, offset as nat, per_row as nat, bytes_now),
{
    let declared = dims_of(shape);
    let mut f: Vec<(String, Json)> = Vec::new();
    crate::json::push_field(&mut f, "cells_per_row", Json::Num(per_row as u64));
    crate::json::push_field(&mut f, "rows_bytes", Json::Num(bytes_now));
    if offset == 0 {
        let cut = crate::json::arr(declared_rows_of(rows, shape, lang));
        let bytes_declared = crate::json::text_len_of(&cut);
        let mut d: Vec<(String, Json)> = Vec::new();
        crate::json::push_field(&mut d, "dimensions", crate::json::jstrs(&declared));
        crate::json::push_field(&mut d, "cells_per_row", Json::Num(declared.len() as u64));
        crate::json::push_field(&mut d, "rows_bytes", Json::Num(bytes_declared));
        crate::json::push_field(&mut d, "warning", crate::json::jstr(DECLARED_WARNING));
        assert(views(declared@).len() == declared@.len());
        assert(crate::json::fields_view(d@) =~= seq![
            ("dimensions"@, strs_view(declared_dims(dims_view(shape@)))),
            ("cells_per_row"@, JsonV::Num(declared_dims(dims_view(shape@)).len() as u64)),
            ("rows_bytes"@, JsonV::Num(crate::json::sat(crate::json::text_len(JsonV::Arr(declared_rows(rows_view(rows@), dims_view(shape@), lang@)))))),
            ("warning"@, JsonV::Str(DECLARED_WARNING@)),
        ]);
        crate::json::push_field(&mut f, "how", crate::json::jstr(HOW_FULL));
        crate::json::push_field(&mut f, "declared_only", crate::json::obj(d));
    } else {
        assert(views(declared@).len() == declared@.len());
        crate::json::push_field(&mut f, "declared_dimensions", Json::Num(declared.len() as u64));
        crate::json::push_field(&mut f, "how", crate::json::jstr(HOW_POINTER));
    }
    assert(crate::json::fields_view(f@) =~= match fewer_cells_json(rows_view(rows@), dims_view(shape@), lang@, offset as nat, per_row as nat, bytes_now) {
        JsonV::Obj(x) => x,
        _ => Seq::empty(),
    });
    crate::json::obj(f)
}

} // verus!

verus! {

// --- the run ------------------------------------------------------------------------

pub const READ_OVER_ALL: &'static str = "every cell of the row";
pub const READ_OVER_PROJECTED: &'static str = "the projected cells only — a title in a cell that was not projected cannot be seen here, and a null is «not seen», not «not there»";
pub const OBSERVATIONS_NOTE: &'static str = "values are served as the store holds them: a decimal is the lexical form (no float arithmetic — the Ständemehr is READ, never counted from the cantonal rows), a date carries its datatype, and «not stated» is answered for both forms of cube:Undefined";

/// A count read from the first binding of a count answer, 0 when there is
/// none.
pub open spec fn first_total(value: JsonV) -> u64 {
    match crate::domain::first_text(value, "total"@) {
        Some(t) => match crate::text::parse_u64_spec(t) {
            Some(n) => n,
            None => 0,
        },
        None => 0,
    }
}

fn first_total_of(value: &Json) -> (n: u64)
    ensures
        n == first_total(value@),
{
    match crate::domain::first_text_of(value, "total") {
        Some(t) => match crate::text::parse_u64(t.as_str()) {
            Some(n) => n,
            None => 0,
        },
        None => 0,
    }
}

/// Where an `observations` run stands.
pub enum ObsPhase {
    /// The shape is out.
    Shape,
    /// The bound ASK for the dimension at this place of the admission order is out.
    Gate { at: usize },
    /// The (filtered) count is out.
    Count,
    /// The cube's own count is out: the filtered one found nothing.
    OwnCount { total: u64 },
    /// The page is out.
    Page { total: u64, placeholder: bool, matched_nothing: bool },
}

/// The state `observations` resumes from.
pub struct ObservationsRun {
    pub cube: String,
    pub lang: &'static str,
    pub limit: usize,
    pub offset: usize,
    /// The filters as checked: dimension and value normalised.
    pub filters: Vec<(String, String)>,
    /// `d=v;…` over the filters as they were given.
    pub filter_key: String,
    /// The projection, sorted and each dimension once.
    pub projected: Vec<String>,
    pub clauses: String,
    pub shape: Vec<ShapeDimension>,
    /// The rule's decision for every dimension decided so far.
    pub gated: Vec<(String, Gate)>,
    pub undeclared: Vec<String>,
    pub phase: ObsPhase,
    pub query: String,
}

/// The dimensions the rule admits, in order: the projection, then the
/// dimension of every filter.
pub open spec fn gate_order(run: ObservationsRun) -> Seq<Seq<char>> {
    views(run.projected@) + pairs_of(run.filters@).map_values(|p: (Seq<char>, Seq<char>)| p.0)
}

impl ObservationsRun {
    /// The caps hold, and a run that waits on a gate waits on a place of
    /// the admission order.
    pub open spec fn well_formed(self) -> bool {
        &&& self.projected@.len() <= crate::domain::MAX_PROJECTED
        &&& self.filters@.len() <= crate::domain::MAX_FILTERS
        &&& match self.phase {
            ObsPhase::Gate { at } => at < gate_order(self).len(),
            _ => true,
        }
    }
}

/// The decision already made for `d`, if one was.
pub open spec fn memo(gated: Seq<(Seq<char>, Gate)>, d: Seq<char>) -> Option<Gate>
    decreases gated.len(),
{
    if gated.len() == 0 {
        None
    } else {
        match memo(gated.drop_last(), d) {
            Some(g) => Some(g),
            None => if gated.last().0 == d {
                Some(gated.last().1)
            } else {
                None
            },
        }
    }
}

/// The undeclared list once `d` is decided `g`: a projected dimension joins
/// it, a filter dimension joins it unless it is there.
pub open spec fn take_in(und: Seq<Seq<char>>, d: Seq<char>, g: Gate, projected: bool) -> Seq<Seq<char>> {
    if g == Gate::Undeclared {
        if projected || !und.contains(d) {
            und.push(d)
        } else {
            und
        }
    } else {
        und
    }
}

/// Where deciding the admission order from a place on stops.
pub enum Settled {
    /// The ASK for this place is owed.
    Asks(nat, Seq<(Seq<char>, Gate)>, Seq<Seq<char>>),
    /// A dimension decided absent before.
    Absent(Seq<char>),
    /// Every dimension is admitted.
    Admitted(Seq<(Seq<char>, Gate)>, Seq<Seq<char>>),
}

/// Decides from place `i` on what needs no request: a decision made before
/// is reused, a declared dimension is accepted.
pub open spec fn settle(shape: Seq<DimV>, order: Seq<Seq<char>>, nproj: nat, i: nat, gated: Seq<(Seq<char>, Gate)>, und: Seq<Seq<char>>) -> Settled
    decreases order.len() - i,
{
    if i >= order.len() {
        Settled::Admitted(gated, und)
    } else {
        let d = order[i as int];
        match memo(gated, d) {
            Some(Gate::Absent) => Settled::Absent(d),
            Some(g) => settle(shape, order, nproj, i + 1, gated, take_in(und, d, g, i < nproj)),
            None => if declares(shape, d) {
                settle(shape, order, nproj, i + 1, gated.push((d, Gate::Declared)), und)
            } else {
                Settled::Asks(i, gated, und)
            },
        }
    }
}

/// Two runs work on the same call.
pub open spec fn same_task(a: ObservationsRun, b: ObservationsRun) -> bool {
    &&& a.cube == b.cube
    &&& a.lang == b.lang
    &&& a.limit == b.limit
    &&& a.offset == b.offset
    &&& a.filters == b.filters
    &&& a.filter_key == b.filter_key
    &&& a.projected == b.projected
    &&& a.clauses == b.clauses
}

/// The count request.
pub open spec fn count_request(req: Request, run: ObservationsRun) -> bool {
    req.key@ == "observations:count:"@ + run.cube@ + ":"@ + run.filter_key@
        && req.query@ == crate::domain::count_query_spec(run.cube@, run.clauses@) && !req.wide
}

/// The page request.
pub open spec fn page_request(req: Request, run: ObservationsRun) -> bool {
    req.key@ == "observations:"@ + run.cube@ + ":"@ + run.filter_key@ + ":"@ + projection_key_spec(views(run.projected@))
        + decimal(run.limit as nat) + ":"@ + decimal(run.offset as nat)
        && req.query@ == crate::domain::observations_page_query_spec(run.cube@, run.clauses@, views(run.projected@), run.limit as nat, run.offset as nat)
        && !req.wide
}

/// The step where deciding the gates stopped.
pub open spec fn settled_step(s: Step<ObservationsRun>, base: ObservationsRun, shape: Seq<DimV>, st: Settled) -> bool {
    match st {
        Settled::Asks(i, g, u) => s matches Step::Ask(r, req) && same_task(r, base) && dims_view(r.shape@) == shape
            && gated_view(r.gated@) == g && views(r.undeclared@) == u && r.phase == (ObsPhase::Gate { at: i as usize })
            && i < gate_order(base).len() && r.well_formed()
            && crate::shape::gate_request(req, base.cube@, gate_order(base)[i as int]) && r.query@ == req.query@,
        Settled::Absent(d) => s matches Step::Done(j) && j@ == crate::domain::not_found_dimension_spec(base.cube@, d),
        Settled::Admitted(g, u) => s matches Step::Ask(r, req) && same_task(r, base) && dims_view(r.shape@) == shape
            && gated_view(r.gated@) == g && views(r.undeclared@) == u && r.phase is Count && r.well_formed()
            && count_request(req, base) && r.query@ == req.query@,
    }
}

/// The request for the page, with what the counts decided.
pub open spec fn page_step(s: Step<ObservationsRun>, base: ObservationsRun, total: u64, placeholder: bool, matched_nothing: bool) -> bool {
    s matches Step::Ask(r, req) && same_task(r, base) && r.shape == base.shape && r.gated == base.gated
        && r.undeclared == base.undeclared
        && r.phase == (ObsPhase::Page { total, placeholder, matched_nothing }) && r.well_formed()
        && page_request(req, base) && r.query@ == req.query@
}

/// The request for the cube's own count.
pub open spec fn own_count_step(s: Step<ObservationsRun>, base: ObservationsRun, total: u64) -> bool {
    s matches Step::Ask(r, req) && same_task(r, base) && r.shape == base.shape && r.gated == base.gated
        && r.undeclared == base.undeclared && r.phase == (ObsPhase::OwnCount { total }) && r.well_formed()
        && req.key@ == "observations:count:"@ + base.cube@ + ":"@
        && req.query@ == crate::domain::count_query_spec(base.cube@, Seq::empty()) && !req.wide
        && r.query@ == req.query@
}

fn order_at(projected: &Vec<String>, filters: &Vec<(String, String)>, i: usize) -> (d: String)
    requires
        i < projected@.len() + filters@.len(),
    ensures
        d@ == (views(projected@) + pairs_of(filters@).map_values(|p: (Seq<char>, Seq<char>)| p.0))[i as int],
{
    if i < projected.len() {
        projected[i].clone()
    } else {
        filters[i - projected.len()].0.clone()
    }
}

fn memo_of(gated: &Vec<(String, Gate)>, d: &str) -> (r: Option<Gate>)
    ensures
        r == memo(gated_view(gated@), d@),
{
    let ghost gv = gated_view(gated@);
    let mut r: Option<Gate> = None;
    let mut i: usize = 0;
    assert(gv.take(0) =~= Seq::empty());
    while i < gated.len()
        invariant
            0 <= i <= gated@.len(),
            gv == gated_view(gated@),
            r == memo(gv.take(i as int), d@),
        decreases gated@.len() - i,
    {
        assert(gv.take(i + 1).drop_last() =~= gv.take(i as int));
        assert(gv.take(i + 1).last() == gv[i as int]);
        if r.is_none() && crate::text::str_eq(gated[i].0.as_str(), d) {
            r = Some(gated[i].1);
        }
        i = i + 1;
    }
    assert(gv.take(gated@.len() as int) =~= gv);
    r
}

fn contains_str(v: &Vec<String>, d: &str) -> (b: bool)
    ensures
        b == views(v@).contains(d@),
{
    let mut i: usize = 0;
    while i < v.len()
        invariant
            0 <= i <= v@.len(),
            forall|m: int| 0 <= m < i ==> views(v@)[m] != d@,
        decreases v@.len() - i,
    {
        if crate::text::str_eq(v[i].as_str(), d) {
            assert(views(v@)[i as int] == d@);
            return true;
        }
        i = i + 1;
    }
    false
}

fn take_into(und: &mut Vec<String>, d: &str, g: Gate, projected: bool)
    ensures
        views(final(und)@) == take_in(views(old(und)@), d@, g, projected),
{
    if g == Gate::Undeclared {
        if projected || !contains_str(und, d) {
            let ghost before = views(und@);
            und.push(String::from_str(d));
            assert(views(und@) =~= before.push(d@));
        }
    }
}

/// Decides the admission order from place `from` on, and answers the request
/// that is owed next (or `not-found`).
#[verifier::loop_isolation(false)]
fn settle_from(run: ObservationsRun, from: usize) -> (s: Step<ObservationsRun>)
    requires
        from <= gate_order(run).len(),
        run.projected@.len() <= crate::domain::MAX_PROJECTED,
        run.filters@.len() <= crate::domain::MAX_FILTERS,
    ensures
        settled_step(s, run, dims_view(run.shape@), settle(dims_view(run.shape@), gate_order(run), run.projected@.len(), from as nat, gated_view(run.gated@), views(run.undeclared@))),
{
    let ghost order = gate_order(run);
    let ghost shape = dims_view(run.shape@);
    let ghost np = run.projected@.len();
    let ghost target = settle(shape, order, np, from as nat, gated_view(run.gated@), views(run.undeclared@));
    let ghost base = run;
    let mut run = run;
    let n = run.projected.len() + run.filters.len();
    assert(order.len() == n);
    let mut i = from;
    while i < n
        invariant
            from <= i <= n,
            n == order.len(),
            order == gate_order(base),
            shape == dims_view(base.shape@),
            np == base.projected@.len(),
            same_task(run, base),
            run.shape == base.shape,
            order == gate_order(run),
            target == settle(shape, order, np, i as nat, gated_view(run.gated@), views(run.undeclared@)),
        decreases n - i,
    {
        let d = order_at(&run.projected, &run.filters, i);
        match memo_of(&run.gated, d.as_str()) {
            Some(Gate::Absent) => {
                return Step::Done(crate::domain::not_found_dimension(run.cube.as_str(), d.as_str()));
            },
            Some(g) => {
                take_into(&mut run.undeclared, d.as_str(), g, i < run.projected.len());
            },
            None => {
                match crate::shape::dimension_gate(run.cube.as_str(), d.as_str(), &run.shape) {
                    None => {
                        let ghost before = gated_view(run.gated@);
                        run.gated.push((d, Gate::Declared));
                        assert(gated_view(run.gated@) =~= before.push((order[i as int], Gate::Declared)));
                    },
                    Some(req) => {
                        let query = req.query.clone();
                        run.phase = ObsPhase::Gate { at: i };
                        run.query = query;
                        return Step::Ask(run, req);
                    },
                }
            },
        }
        i = i + 1;
    }
    let mut key = String::from_str("observations:count:");
    key.append(run.cube.as_str());
    key.append(":");
    key.append(run.filter_key.as_str());
    let query = crate::domain::count_query_of(run.cube.as_str(), run.clauses.as_str());
    let req = Request { key, query: query.clone(), wide: false };
    run.phase = ObsPhase::Count;
    run.query = query;
    Step::Ask(run, req)
}

} // verus!

verus! {

// --- the answer -------------------------------------------------------------------------

/// The first fields of the answer: the rows and what they are.
pub open spec fn rows_fields(run: ObservationsRun, bs: Seq<JsonV>, total: u64) -> Seq<(Seq<char>, JsonV)> {
    let rows = fold_rows(bs);
    let lang = run.lang@;
    let shape = dims_view(run.shape@);
    let projected = views(run.projected@);
    let obs = rows.map_values(|r: RowV| row_json(r, lang));
    let per_row = cells_per_row(rows);
    let bytes_now = crate::json::sat(crate::json::text_len(JsonV::Arr(obs)));
    seq![
        ("cube"@, JsonV::Str(run.cube@)),
        ("version"@, opt_view(crate::scope::version_spec(run.cube@))),
        ("observations"@, JsonV::Arr(obs)),
        ("dimensions"@, if projected.len() == 0 { JsonV::Null } else { strs_view(projected) }),
        ("cells_per_row"@, JsonV::Num(per_row as u64)),
        ("fewer_cells"@, if advice_owed(projected, per_row, shape, rows.len()) {
            fewer_cells_json(rows, shape, lang, run.offset as nat, per_row, bytes_now)
        } else {
            JsonV::Null
        }),
        ("limit"@, JsonV::Num(run.limit as u64)),
        ("offset"@, JsonV::Num(run.offset as u64)),
        ("returned"@, JsonV::Num(rows.len() as u64)),
        ("total"@, JsonV::Num(total)),
        ("truncated"@, JsonV::Bool(run.offset + rows.len() < total)),
        ("stated_cells"@, JsonV::Num(crate::json::sat(stated_total(rows, true)))),
        ("not_stated_cells"@, JsonV::Num(crate::json::sat(stated_total(rows, false)))),
    ]
}

/// The last fields of the answer: what was admitted and applied, and what
/// the page says of its region.
pub open spec fn scope_fields(ctx: Ctx, run: ObservationsRun, reply: Reply, bs: Seq<JsonV>, placeholder: bool, matched_nothing: bool) -> Seq<(Seq<char>, JsonV)> {
    let rows = fold_rows(bs);
    let projected = views(run.projected@);
    let ds = distinct_hits(page_hits(rows, run.lang@));
    let there = region_admitted(gated_view(run.gated@)) || shape_has_region(dims_view(run.shape@));
    seq![
        ("undeclared_dimensions"@, strs_view(views(run.undeclared@))),
        ("filters"@, if run.filters@.len() == 0 { JsonV::Null } else { strs_view(filter_pairs(pairs_of(run.filters@))) }),
        ("filters_matched_nothing"@, JsonV::Bool(matched_nothing)),
        ("placeholder"@, JsonV::Bool(placeholder)),
        ("region"@, region_json(ds)),
        ("regions_on_page"@, JsonV::Num(ds.len() as u64)),
        ("national_row"@, opt_view(national_row(ds))),
        ("region_state"@, JsonV::Str(region_state(ds.len(), region_asked_for(projected), there))),
        ("citation_shape_read_over"@, JsonV::Str(if projected.len() == 0 { READ_OVER_ALL@ } else { READ_OVER_PROJECTED@ })),
        ("note"@, JsonV::Str(OBSERVATIONS_NOTE@)),
        ("kind"@, JsonV::Str("norm"@)),
        ("provenance"@, crate::domain::provenance_spec(ctx, reply, run.query@)),
    ]
}

/// What `observations` answers once its page is back.
pub open spec fn observations_answer(ctx: Ctx, run: ObservationsRun, reply: Reply, bs: Seq<JsonV>, total: u64, placeholder: bool, matched_nothing: bool) -> JsonV {
    JsonV::Obj(rows_fields(run, bs, total) + scope_fields(ctx, run, reply, bs, placeholder, matched_nothing))
}

fn rows_fields_of(run: &ObservationsRun, bs: &Vec<Json>, total: u64) -> (f: Vec<(String, Json)>)
    ensures
        crate::json::fields_view(f@) == rows_fields(*run, crate::json::items_view(bs@), total),
{
    let rows = collect_rows(bs);
    let obs = rows_json(&rows, run.lang);
    let whole = crate::json::arr(obs);
    let bytes_now = crate::json::text_len_of(&whole);
    let per_row = cells_per_row_of(&rows);
    let returned = rows.len();
    let owed = run.projected.len() == 0 && per_row > run.shape.len() && returned > 0;
    let fewer = if owed {
        fewer_cells_of(&rows, &run.shape, run.lang, run.offset, per_row, bytes_now)
    } else {
        Json::Null
    };
    let truncated = (returned as u64) < total && (run.offset as u64) < total - (returned as u64);
    let mut f: Vec<(String, Json)> = Vec::new();
    crate::json::push_field(&mut f, "cube", crate::json::jstr(run.cube.as_str()));
    crate::json::push_field(&mut f, "version", crate::json::jopt(&crate::scope::version_of(run.cube.as_str())));
    crate::json::push_field(&mut f, "observations", whole);
    crate::json::push_field(&mut f, "dimensions", if run.projected.len() == 0 { Json::Null } else { crate::json::jstrs(&run.projected) });
    crate::json::push_field(&mut f, "cells_per_row", Json::Num(per_row as u64));
    crate::json::push_field(&mut f, "fewer_cells", fewer);
    crate::json::push_field(&mut f, "limit", Json::Num(run.limit as u64));
    crate::json::push_field(&mut f, "offset", Json::Num(run.offset as u64));
    crate::json::push_field(&mut f, "returned", Json::Num(returned as u64));
    crate::json::push_field(&mut f, "total", Json::Num(total));
    crate::json::push_field(&mut f, "truncated", Json::Bool(truncated));
    crate::json::push_field(&mut f, "stated_cells", Json::Num(count_cells(&rows, true)));
    crate::json::push_field(&mut f, "not_stated_cells", Json::Num(count_cells(&rows, false)));
    assert(rows_view(rows@).len() == returned);
    assert(dims_view(run.shape@).len() == run.shape@.len());
    assert(views(run.projected@).len() == run.projected@.len());
    assert(crate::json::fields_view(f@) =~= rows_fields(*run, crate::json::items_view(bs@), total));
    f
}

fn scope_fields_of(ctx: &Ctx, run: &ObservationsRun, reply: &Reply, bs: &Vec<Json>, placeholder: bool, matched_nothing: bool) -> (f: Vec<(String, Json)>)
    ensures
        crate::json::fields_view(f@) == scope_fields(*ctx, *run, *reply, crate::json::items_view(bs@), placeholder, matched_nothing),
{
    let rows = collect_rows(bs);
    let hits = hits_of(&rows, run.lang);
    let ds = distinct_of(&hits);
    let asked = run.projected.len() == 0 || any_region(&run.projected);
    let there = any_region_gated(&run.gated) || any_region_shape(&run.shape);
    let state: &str = if ds.len() == 1 {
        REGION_READ
    } else if ds.len() > 1 {
        REGION_MIXED
    } else if !asked {
        REGION_NOT_PROJECTED
    } else if there {
        REGION_NONE
    } else {
        REGION_NO_DIMENSION
    };
    let mut f: Vec<(String, Json)> = Vec::new();
    crate::json::push_field(&mut f, "undeclared_dimensions", crate::json::jstrs(&run.undeclared));
    crate::json::push_field(&mut f, "filters", if run.filters.len() == 0 { Json::Null } else { crate::json::jstrs(&filter_strings(run.filters.as_slice())) });
    crate::json::push_field(&mut f, "filters_matched_nothing", Json::Bool(matched_nothing));
    crate::json::push_field(&mut f, "placeholder", Json::Bool(placeholder));
    crate::json::push_field(&mut f, "region", region_of(&ds));
    crate::json::push_field(&mut f, "regions_on_page", Json::Num(ds.len() as u64));
    crate::json::push_field(&mut f, "national_row", crate::json::jopt(&national_of(&ds)));
    crate::json::push_field(&mut f, "region_state", crate::json::jstr(state));
    crate::json::push_field(&mut f, "citation_shape_read_over", crate::json::jstr(if run.projected.len() == 0 { READ_OVER_ALL } else { READ_OVER_PROJECTED }));
    crate::json::push_field(&mut f, "note", crate::json::jstr(OBSERVATIONS_NOTE));
    crate::json::push_field(&mut f, "kind", crate::json::jstr("norm"));
    crate::json::push_field(&mut f, "provenance", crate::domain::provenance(ctx, reply, run.query.as_str()));
    assert(hits_view(ds@).len() == ds@.len());
    assert(views(run.projected@).len() == run.projected@.len());
    assert(state@ == region_state(hits_view(ds@).len(), region_asked_for(views(run.projected@)), there));
    assert(crate::json::fields_view(f@) =~= scope_fields(*ctx, *run, *reply, crate::json::items_view(bs@), placeholder, matched_nothing));
    f
}

fn observations_answer_of(ctx: &Ctx, run: &ObservationsRun, reply: &Reply, bs: &Vec<Json>, total: u64, placeholder: bool, matched_nothing: bool) -> (j: Json)
    ensures
        j@ == observations_answer(*ctx, *run, *reply, crate::json::items_view(bs@), total, placeholder, matched_nothing),
{
    let mut f = rows_fields_of(run, bs, total);
    let mut tail = scope_fields_of(ctx, run, reply, bs, placeholder, matched_nothing);
    let ghost a = f@;
    let ghost b = tail@;
    f.append(&mut tail);
    assert(crate::json::fields_view(f@) =~= crate::json::fields_view(a) + crate::json::fields_view(b));
    crate::json::obj(f)
}

} // verus!

verus! {

/// `lindas.observations` — the rows, filtered, capped, honest. Everything
/// about the filters and the projection that is decidable without the store
/// is decided here, before any request; then the shape is asked for.
pub fn observations(cube: &str, filters: &[(String, String)], projection: &[String], lang: Option<&str>, limit: Option<u32>, offset: Option<u32>) -> (s: Step<ObservationsRun>)
    ensures
        ({
            let asked = match lang { Some(l) => l@, None => "de"@ };
            if !crate::domain::is_language(asked) {
                s matches Step::Done(j) && j@ == crate::domain::language_refusal(asked)
            } else {
                match crate::domain::served_cube_spec(cube@) {
                    Err(refusal) => s matches Step::Done(j) && j@ == refusal,
                    Ok(c) => if filters@.len() > crate::domain::MAX_FILTERS {
                        s matches Step::Done(j) && j@ == crate::domain::too_many_spec(
                            "filters: "@ + decimal(filters@.len()) + " were named"@,
                            crate::domain::MAX_FILTERS as nat, "filters"@, FILTERS_WHY@, "lindas.describe_cube"@)
                    } else {
                        match check_filters(pairs_of(filters@)) {
                            Err(j0) => s matches Step::Done(j) && j@ == j0,
                            Ok(fs) => match check_dims(views(projection@)) {
                                Err(j0) => s matches Step::Done(j) && j@ == j0,
                                Ok(ds) => exists|ps: Seq<Seq<char>>| strictly_sorted(ps) && ps.to_set() == ds.to_set() && {
                                    if ps.len() > crate::domain::MAX_PROJECTED {
                                        s matches Step::Done(j) && j@ == crate::domain::too_many_spec(
                                            "dimensions: "@ + decimal(ps.len()) + " were named"@,
                                            crate::domain::MAX_PROJECTED as nat, "dimensions"@, PROJECTION_WHY@, "lindas.describe_cube"@)
                                    } else {
                                        s matches Step::Ask(run, req) && run.cube@ == c && run.lang@ == asked
                                            && run.limit == crate::domain::capped_spec(limit, crate::domain::MAX_OBSERVATIONS as nat, 50)
                                            && run.offset == (match offset { Some(o) => o as nat, None => 0 })
                                            && pairs_of(run.filters@) == fs
                                            && run.filter_key@ == filter_key_spec(pairs_of(filters@))
                                            && views(run.projected@) == ps
                                            && run.clauses@ == clauses_of(fs).0
                                            && run.shape@.len() == 0 && run.gated@.len() == 0 && run.undeclared@.len() == 0
                                            && run.phase is Shape && run.well_formed()
                                            && req.key@ == "describe_cube:shape:"@ + c + ":"@ + asked
                                            && req.query@ == crate::shape::shape_query_spec(c)
                                            && run.query@ == req.query@ && !req.wide
                                    }
                                },
                            },
                        }
                    },
                }
            }
        }),
{
    let lang = match crate::domain::language(lang) {
        Ok(l) => l,
        Err(refusal) => { return Step::Done(refusal); },
    };
    let cube = match crate::domain::served_cube(cube) {
        Ok(c) => c,
        Err(refusal) => { return Step::Done(refusal); },
    };
    let limit = crate::domain::capped(limit, crate::domain::MAX_OBSERVATIONS, 50);
    let offset: usize = match offset { Some(o) => o as usize, None => 0 };
    if filters.len() > crate::domain::MAX_FILTERS {
        let mut d = String::from_str("filters: ");
        d.append(fmt_u64(filters.len() as u64).as_str());
        d.append(" were named");
        return Step::Done(crate::domain::too_many(d.as_str(), crate::domain::MAX_FILTERS, "filters", FILTERS_WHY, "lindas.describe_cube"));
    }
    let checked = match checked_filters(filters) {
        Ok(v) => v,
        Err(j) => { return Step::Done(j); },
    };
    let projected = match checked_projection(projection) {
        Ok(v) => v,
        Err(j) => { return Step::Done(j); },
    };
    if projected.len() > crate::domain::MAX_PROJECTED {
        let mut d = String::from_str("dimensions: ");
        d.append(fmt_u64(projected.len() as u64).as_str());
        d.append(" were named");
        let j = crate::domain::too_many(d.as_str(), crate::domain::MAX_PROJECTED, "dimensions", PROJECTION_WHY, "lindas.describe_cube");
        assert(views(projected@).len() == projected@.len());
        return Step::Done(j);
    }
    let raw = filter_strings(filters);
    let filter_key = join(&crate::text::sort_strings(&raw), ";");
    assert(views(raw@) == filter_pairs(pairs_of(filters@)));
    let clauses = filter_clauses(&checked);
    let query = crate::shape::shape_query(cube.as_str());
    let mut key = String::from_str("describe_cube:shape:");
    key.append(cube.as_str());
    key.append(":");
    key.append(lang);
    let req = Request { key, query: query.clone(), wide: false };
    let run = ObservationsRun {
        cube, lang, limit, offset, filters: checked, filter_key, projected, clauses,
        shape: Vec::new(), gated: Vec::new(), undeclared: Vec::new(), phase: ObsPhase::Shape, query,
    };
    assert(views(run.projected@).len() == run.projected@.len());
    proof {
        lemma_check_filters_len(pairs_of(filters@));
        assert(pairs_of(run.filters@).len() == run.filters@.len());
        let ps = views(run.projected@);
        assert(strictly_sorted(ps) && ps.to_set() == check_dims(views(projection@))->Ok_0.to_set());
    }
    Step::Ask(run, req)
}

impl ObservationsRun {
    /// The next step once a request is back: after the shape, the gates
    /// (one ASK per undeclared dimension); after the gates, the count; after
    /// a filtered count of 0, the cube's own count; then the page; then the
    /// answer.
    pub fn resume(self, ctx: &Ctx, event: Event) -> (s: Step<ObservationsRun>)
        requires
            self.well_formed(),
        ensures
            s matches Step::Ask(r, _) ==> r.well_formed(),
            s matches Step::Ask(r, _) ==> (r.phase is Page ==> !(r.phase->placeholder && r.phase->matched_nothing)),
            match event {
                Err(text) => s matches Step::Done(j) && j@ == crate::domain::backend_refusal_spec(text@),
                Ok(reply) => match self.phase {
                    ObsPhase::Shape => match crate::backend::bindings_spec(reply.value@) {
                        None => s matches Step::Done(j) && j@ == crate::tools::no_bindings(),
                        Some(sbs) => settled_step(s, self, crate::shape::fold_shape(sbs),
                            settle(crate::shape::fold_shape(sbs), gate_order(self), self.projected@.len(), 0, gated_view(self.gated@), views(self.undeclared@))),
                    },
                    ObsPhase::Gate { at } => match crate::shape::gate_answer_spec(reply.value@) {
                        Err(j0) => s matches Step::Done(j) && j@ == j0,
                        Ok(Gate::Absent) => s matches Step::Done(j) && j@ == crate::domain::not_found_dimension_spec(self.cube@, gate_order(self)[at as int]),
                        Ok(g) => {
                            let d = gate_order(self)[at as int];
                            settled_step(s, self, dims_view(self.shape@),
                                settle(dims_view(self.shape@), gate_order(self), self.projected@.len(), (at + 1) as nat,
                                    gated_view(self.gated@).push((d, g)), take_in(views(self.undeclared@), d, g, at < self.projected@.len())))
                        },
                    },
                    ObsPhase::Count => {
                        let total = first_total(reply.value@);
                        if self.filters@.len() == 0 {
                            page_step(s, self, total, total == 0, false)
                        } else if total > 0 {
                            page_step(s, self, total, false, false)
                        } else {
                            own_count_step(s, self, total)
                        }
                    },
                    ObsPhase::OwnCount { total } => {
                        let own = first_total(reply.value@);
                        page_step(s, self, total, own == 0, own > 0)
                    },
                    ObsPhase::Page { total, placeholder, matched_nothing } => match crate::backend::bindings_spec(reply.value@) {
                        None => s matches Step::Done(j) && j@ == crate::tools::no_bindings(),
                        Some(bs) => s matches Step::Done(j) && j@ == observations_answer(*ctx, self, reply, bs, total, placeholder, matched_nothing),
                    },
                },
            },
    {
        let reply = match event {
            Err(text) => { return Step::Done(crate::domain::backend_refusal(text.as_str())); },
            Ok(r) => r,
        };
        let mut run = self;
        match run.phase {
            ObsPhase::Shape => {
                let sbs = match crate::backend::bindings(&reply.value) {
                    Ok(b) => b,
                    Err(e) => { return Step::Done(crate::domain::upstream(e.as_str())); },
                };
                run.shape = crate::shape::collect_shape(sbs);
                settle_from(run, 0)
            },
            ObsPhase::Gate { at } => {
                match crate::shape::gate_answer(&reply.value) {
                    Err(j) => Step::Done(j),
                    Ok(Gate::Absent) => {
                        let d = order_at(&run.projected, &run.filters, at);
                        Step::Done(crate::domain::not_found_dimension(run.cube.as_str(), d.as_str()))
                    },
                    Ok(g) => {
                        let d = order_at(&run.projected, &run.filters, at);
                        let from_projection = at < run.projected.len();
                        take_into(&mut run.undeclared, d.as_str(), g, from_projection);
                        let ghost before = gated_view(run.gated@);
                        let ghost dv = d@;
                        run.gated.push((d, g));
                        assert(gated_view(run.gated@) =~= before.push((dv, g)));
                        settle_from(run, at + 1)
                    },
                }
            },
            ObsPhase::Count => {
                let total = first_total_of(&reply.value);
                if run.filters.len() == 0 {
                    page_ask(run, total, total == 0, false)
                } else if total > 0 {
                    page_ask(run, total, false, false)
                } else {
                    let mut key = String::from_str("observations:count:");
                    key.append(run.cube.as_str());
                    key.append(":");
                    let query = crate::domain::count_query_of(run.cube.as_str(), "");
                    proof {
                        reveal_strlit("");
                    }
                    let req = Request { key, query: query.clone(), wide: false };
                    run.phase = ObsPhase::OwnCount { total };
                    run.query = query;
                    Step::Ask(run, req)
                }
            },
            ObsPhase::OwnCount { total } => {
                let own = first_total_of(&reply.value);
                page_ask(run, total, own == 0, own > 0)
            },
            ObsPhase::Page { total, placeholder, matched_nothing } => {
                let bs = match crate::backend::bindings(&reply.value) {
                    Ok(b) => b,
                    Err(e) => { return Step::Done(crate::domain::upstream(e.as_str())); },
                };
                let j = observations_answer_of(ctx, &run, &reply, bs, total, placeholder, matched_nothing);
                Step::Done(j)
            },
        }
    }
}

/// Asks for the page, with what the counts decided.
fn page_ask(run: ObservationsRun, total: u64, placeholder: bool, matched_nothing: bool) -> (s: Step<ObservationsRun>)
    requires
        run.well_formed(),
    ensures
        page_step(s, run, total, placeholder, matched_nothing),
{
    let mut run = run;
    let mut key = String::from_str("observations:");
    key.append(run.cube.as_str());
    key.append(":");
    key.append(run.filter_key.as_str());
    key.append(":");
    key.append(projection_key(&run.projected).as_str());
    key.append(fmt_u64(run.limit as u64).as_str());
    key.append(":");
    key.append(fmt_u64(run.offset as u64).as_str());
    let query = crate::domain::observations_page_query(run.cube.as_str(), run.clauses.as_str(), run.projected.as_slice(), run.limit, run.offset);
    let req = Request { key, query: query.clone(), wide: false };
    run.phase = ObsPhase::Page { total, placeholder, matched_nothing };
    run.query = query;
    Step::Ask(run, req)
}

} // verus!
