//! What holds of the library as a whole: of every page, every label,
//! every IRI a query is built from, every index line, every fold of an
//! answer, and every decision of the three-step dimension rule.

use vstd::prelude::*;

use crate::backend::{iri_breaking, iri_safe_spec, literal_char, literal_escaped};
use crate::catalogue::window;
use crate::domain::{capped_spec, choose_in, choose_label_spec, label_in, label_order};
use crate::fixtures::{index_entry, index_text_spec, key_of_spec, line_of, note_piece, rewrite_index, split_lines, split_pieces};
use crate::scope::{all_iris, family_spec, full_iri, path_of, paths, same_stem, served, version_family_spec, version_spec};
use crate::text::{after_last, before_char, decimal, has_prefix, lead, lemma_lead, trail, trim_by, trim_pred};
use crate::tools::truncated;

verus! {

// --- pages ------------------------------------------------------------------------

/// A page never holds more than its limit, and it says it is truncated
/// exactly when a page after it would hold more.
pub proof fn law_a_page_is_capped_and_says_whether_more_follows<A>(s: Seq<A>, offset: nat, limit: nat)
    ensures
        window(s, offset, limit).len() <= limit,
        truncated(offset, window(s, offset, limit).len(), s.len()) <==> offset + limit < s.len(),
{
}

/// A limit is always between 1 and the cap; one inside that range is kept
/// as asked, an absent one is the default.
pub proof fn law_a_limit_answers_within_its_cap(limit: Option<u32>, max: nat, default: nat)
    requires
        1 <= default <= max,
    ensures
        1 <= capped_spec(limit, max, default) <= max,
        limit is None ==> capped_spec(limit, max, default) == default,
        forall|l: u32| limit == Some(l) && 1 <= l <= max ==> capped_spec(limit, max, default) == l,
{
}

// --- labels -------------------------------------------------------------------------

proof fn lemma_label_in_empty(want: Seq<char>)
    ensures
        label_in(Seq::<(Seq<char>, Seq<char>)>::empty(), want) is None,
{
}

proof fn lemma_choose_in_some(found: Seq<(Seq<char>, Seq<char>)>, order: Seq<Seq<char>>)
    ensures
        choose_in(found, order) is Some <==> found.len() > 0,
    decreases order.len(),
{
    if order.len() > 0 {
        if found.len() == 0 {
            lemma_label_in_empty(order[0]);
        }
        lemma_choose_in_some(found, order.drop_first());
    }
}

/// The store's own label in the asked language is the one served, tagged
/// with that language.
pub proof fn law_a_label_in_the_asked_language_is_served(found: Seq<(Seq<char>, Seq<char>)>, lang: Seq<char>)
    requires
        label_in(found, lang) is Some,
    ensures
        choose_label_spec(found, Some(lang)) == Some((label_in(found, lang)->0, lang)),
{
    assert(label_order(Some(lang))[0] == lang);
}

/// A label is served whenever the store has one, in whatever language:
/// the fallback order ends with the first label found.
pub proof fn law_a_label_is_served_whenever_the_store_has_one(found: Seq<(Seq<char>, Seq<char>)>, first: Option<Seq<char>>)
    ensures
        choose_label_spec(found, first) is Some <==> found.len() > 0,
{
    lemma_choose_in_some(found, label_order(first));
}

// --- what goes into a query ---------------------------------------------------------

proof fn lemma_trim_keeps_clean(s: Seq<char>, p: spec_fn(char) -> bool)
    requires
        forall|i: int| 0 <= i < s.len() ==> !p(s[i]),
    ensures
        trim_by(s, p) == s,
{
    crate::text::lemma_lead(s, p, 0);
    if s.len() > 0 {
        crate::text::lemma_trail(s, p, 0);
        assert(s.subrange(0, s.len() as int) =~= s);
    } else {
        assert(s =~= Seq::<char>::empty());
    }
}

/// An IRI that passed the check passes it again unchanged: the check is
/// a gate, not a rewriting.
pub proof fn law_a_checked_iri_checks_as_itself(iri: Seq<char>)
    requires
        iri_safe_spec(iri) is Ok,
    ensures
        iri_safe_spec(iri_safe_spec(iri)->Ok_0) == iri_safe_spec(iri),
{
    let t = iri_safe_spec(iri)->Ok_0;
    assert forall|i: int| 0 <= i < t.len() implies !(trim_pred(true))(t[i]) by {
        assert(!iri_breaking(t[i]));
    }
    lemma_trim_keeps_clean(t, trim_pred(true));
}

/// A value bound as a literal never carries a line break into the query.
pub proof fn law_a_bound_literal_has_no_line_break(s: Seq<char>)
    ensures
        !literal_escaped(s).contains('\n'),
        !literal_escaped(s).contains('\r'),
    decreases s.len(),
{
    if s.len() > 0 {
        law_a_bound_literal_has_no_line_break(s.drop_last());
        let a = literal_escaped(s.drop_last());
        let b = literal_char(s.last());
        assert forall|i: int| 0 <= i < (a + b).len() implies (a + b)[i] != '\n' && (a + b)[i] != '\r' by {
            if i < a.len() {
                assert((a + b)[i] == a[i]);
            } else {
                assert((a + b)[i] == b[i - a.len()]);
            }
        }
    }
}

// --- the recordings' index ------------------------------------------------------------

/// An index line gives back the key it was written for — a key may carry
/// spaces, since the file name and the day are single tokens.
pub proof fn law_an_index_line_gives_back_its_key(name: Seq<char>, key: Seq<char>, day: Seq<char>)
    requires
        !name.contains(' '),
        !day.contains(' '),
        key.len() > 0,
    ensures
        key_of_spec(index_entry(name, key, day)) == Some(key),
{
    let line = index_entry(name, key, day);
    assert(line =~= name + (seq![' '] + key + seq![' '] + day)) by {
        reveal_strlit(" ");
    }
    assert(line[name.len() as int] == ' ');
    assert forall|j: int| 0 <= j < name.len() implies line[j] != ' ' by {
        assert(line[j] == name[j]);
    }
    crate::text::lemma_before_char(line, ' ', name.len() as int);
    assert(line.take(name.len() as int) =~= name);
    assert(line.contains(' '));
    let rest = line.skip((name.len() + 1) as int);
    assert(rest =~= key + seq![' '] + day);
    let k: int = (key.len() + 1) as int;
    assert(rest[k - 1] == ' ');
    assert forall|j: int| k <= j < rest.len() implies rest[j] != ' ' by {
        assert(rest[j] == day[j - k]);
    }
    crate::text::lemma_after_last(rest, ' ', k);
    assert(rest.skip(k) =~= day);
    assert(rest.contains(' '));
    assert(rest.take(rest.len() - day.len() - 1) =~= key);
}

/// The line an index line becomes when `key` is recorded as `entry`: a
/// note stays, the line of the same key is replaced, every other stays.
pub open spec fn rewritten_line(line: Seq<char>, key: Seq<char>, entry: Seq<char>) -> Seq<char> {
    if has_prefix(line, "#"@) {
        line
    } else if key_of_spec(line) == Some(key) {
        entry
    } else {
        line
    }
}

/// Does the index line at `i` record `key`? (A note records nothing.)
pub open spec fn records(lines: Seq<Seq<char>>, i: int, key: Seq<char>) -> bool {
    !has_prefix(lines[i], "#"@) && key_of_spec(lines[i]) == Some(key)
}

/// Pieces written one after the other.
pub open spec fn concat(pieces: Seq<Seq<char>>) -> Seq<char>
    decreases pieces.len(),
{
    if pieces.len() == 0 {
        Seq::empty()
    } else {
        pieces[0] + concat(pieces.skip(1))
    }
}

proof fn lemma_concat_push(pieces: Seq<Seq<char>>, x: Seq<char>)
    ensures
        concat(pieces.push(x)) == concat(pieces) + x,
    decreases pieces.len(),
{
    if pieces.len() == 0 {
        assert(pieces.push(x).skip(1) =~= Seq::<Seq<char>>::empty());
        assert(concat(pieces.push(x).skip(1)) == Seq::<char>::empty());
        assert(concat(pieces.push(x)) =~= x);
        assert(concat(pieces) + x =~= x);
    } else {
        lemma_concat_push(pieces.skip(1), x);
        assert(pieces.push(x).skip(1) =~= pieces.skip(1).push(x));
        assert(pieces.push(x)[0] == pieces[0]);
        assert(concat(pieces.push(x)) =~= pieces[0] + (concat(pieces.skip(1)) + x));
    }
}

/// A piece that ends with its one line break.
pub open spec fn terminated(q: Seq<char>) -> bool {
    q.len() > 0 && q.last() == '\n' && !q.drop_last().contains('\n')
}

proof fn lemma_split_concat(qs: Seq<Seq<char>>)
    requires
        forall|i: int| 0 <= i < qs.len() ==> terminated(#[trigger] qs[i]),
    ensures
        split_lines(concat(qs)) == qs.map_values(|q: Seq<char>| line_of(q)),
    decreases qs.len(),
{
    if qs.len() == 0 {
        assert(split_lines(concat(qs)) =~= qs.map_values(|q: Seq<char>| line_of(q)));
    } else {
        let first = qs[0];
        let rest = qs.skip(1);
        let s = concat(qs);
        assert(terminated(first));
        assert forall|i: int| 0 <= i < rest.len() implies terminated(#[trigger] rest[i]) by {
            assert(rest[i] == qs[i + 1]);
        }
        lemma_split_concat(rest);
        let k = first.len() - 1;
        assert(s == first + concat(rest));
        assert(s[k] == '\n');
        assert forall|j: int| 0 <= j < k implies s[j] != '\n' by {
            assert(s[j] == first.drop_last()[j]);
            if s[j] == '\n' {
                assert(first.drop_last().contains('\n'));
            }
        }
        crate::text::lemma_before_char(s, '\n', k);
        assert(s.take(k) =~= first.drop_last());
        assert(s.skip(k + 1) =~= concat(rest));
        assert(split_lines(s) =~= seq![line_of(first)] + rest.map_values(|q: Seq<char>| line_of(q)));
        assert(split_lines(s) =~= qs.map_values(|q: Seq<char>| line_of(q)));
    }
}

/// What one piece of the old index becomes in the new one.
pub open spec fn out_piece(piece: Seq<char>, key: Seq<char>, entry: Seq<char>) -> Seq<char> {
    let line = line_of(piece);
    if has_prefix(line, "#"@) {
        note_piece(piece)
    } else if key_of_spec(line) == Some(key) {
        entry + seq!['\n']
    } else {
        line + seq!['\n']
    }
}

/// The lines the pieces hold.
pub open spec fn lines_of_pieces(pieces: Seq<Seq<char>>) -> Seq<Seq<char>> {
    pieces.map_values(|p: Seq<char>| line_of(p))
}

proof fn lemma_rewrite_index(pieces: Seq<Seq<char>>, key: Seq<char>, entry: Seq<char>)
    ensures
        rewrite_index(pieces, key, entry).0 == concat(pieces.map_values(|p: Seq<char>| out_piece(p, key, entry))),
        rewrite_index(pieces, key, entry).1 == exists|i: int| 0 <= i < pieces.len()
            && #[trigger] records(lines_of_pieces(pieces), i, key),
    decreases pieces.len(),
{
    let f = |p: Seq<char>| out_piece(p, key, entry);
    let g = |p: Seq<char>| line_of(p);
    if pieces.len() == 0 {
        assert(pieces.map_values(f) =~= Seq::<Seq<char>>::empty());
    } else {
        let init = pieces.drop_last();
        reveal_strlit("\n");
        lemma_rewrite_index(init, key, entry);
        assert(pieces.map_values(f) =~= init.map_values(f).push(f(pieces.last())));
        lemma_concat_push(init.map_values(f), f(pieces.last()));
        let lines = lines_of_pieces(pieces);
        let init_lines = lines_of_pieces(init);
        let had = exists|i: int| 0 <= i < pieces.len() && records(lines, i, key);
        let had_init = exists|i: int| 0 <= i < init.len() && records(init_lines, i, key);
        if had_init {
            let i = choose|i: int| 0 <= i < init.len() && records(init_lines, i, key);
            assert(lines[i] == init_lines[i]);
            assert(records(lines, i, key));
        }
        if had {
            let i = choose|i: int| 0 <= i < pieces.len() && records(lines, i, key);
            if i < init.len() {
                assert(lines[i] == init_lines[i]);
                assert(records(init_lines, i, key));
            }
        }
        let n = pieces.len() - 1;
        assert(lines[n] == line_of(pieces.last()));
        if records(lines, n, key) {
            assert(records(lines_of_pieces(pieces), n, key));
        }
    }
}

proof fn lemma_pieces_shape(s: Seq<char>)
    ensures
        forall|i: int| 0 <= i < split_pieces(s).len() ==> {
            let p = #[trigger] split_pieces(s)[i];
            p.len() > 0 && (terminated(p) || !p.contains('\n'))
        },
    decreases s.len(),
{
    if s.len() > 0 {
        let k = before_char(s, '\n').len();
        crate::text::lemma_before_char_prefix(s, '\n');
        if k < s.len() {
            lemma_pieces_shape(s.skip(k + 1 as int));
            let piece = s.take(k + 1 as int);
            assert(piece.drop_last() =~= s.take(k as int));
            assert(terminated(piece)) by {
                if piece.drop_last().contains('\n') {
                    let j = choose|j: int| 0 <= j < piece.drop_last().len() && piece.drop_last()[j] == '\n';
                    assert(s[j] == '\n');
                }
            }
            assert forall|i: int| 0 <= i < split_pieces(s).len() implies {
                let p = #[trigger] split_pieces(s)[i];
                p.len() > 0 && (terminated(p) || !p.contains('\n'))
            } by {
                if i > 0 {
                    assert(split_pieces(s)[i] == split_pieces(s.skip(k + 1 as int))[i - 1]);
                }
            }
        } else {
            assert(!s.contains('\n')) by {
                if s.contains('\n') {
                    let j = choose|j: int| 0 <= j < s.len() && s[j] == '\n';
                    assert(s[j] != '\n');
                }
            }
        }
    }
}

/// Recording a key rewrites the index line by line: a note is carried
/// through byte for byte, its line ending included; the line of the same
/// key is replaced by the new entry; every other line stays where it was —
/// and the entry is appended only when no line recorded the key. A key
/// recorded again is replaced, never repeated.
pub proof fn law_the_index_replaces_a_key_and_keeps_the_notes(
    existing: Seq<char>,
    name: Seq<char>,
    key: Seq<char>,
    day: Seq<char>,
)
    requires
        !name.contains(' '),
        !day.contains(' '),
        key.len() > 0,
        !name.contains('\n'),
        !key.contains('\n'),
        !day.contains('\n'),
        !day.contains('\r'),
        forall|i: int| 0 <= i < split_lines(existing).len() ==> {
            let l = #[trigger] split_lines(existing)[i];
            l.len() == 0 || l.last() != '\r'
        },
    ensures
        ({
            let pieces = split_pieces(existing);
            let before = split_lines(existing);
            let text = index_text_spec(existing, name, key, day);
            let after = split_lines(text);
            let entry = index_entry(name, key, day);
            let had = exists|i: int| 0 <= i < before.len() && records(before, i, key);
            &&& key_of_spec(entry) == Some(key)
            &&& before.len() == pieces.len()
            &&& exists|out: Seq<Seq<char>>| {
                &&& text == concat(out)
                &&& out.len() == pieces.len() + if had { 0int } else { 1int }
                &&& forall|i: int| 0 <= i < pieces.len() && has_prefix(before[i], "#"@) && terminated(#[trigger] pieces[i])
                    ==> out[i] == pieces[i]
            }
            &&& after.len() == before.len() + if had { 0int } else { 1int }
            &&& forall|i: int| 0 <= i < before.len() ==> after[i] == rewritten_line(#[trigger] before[i], key, entry)
            &&& !had ==> after[before.len() as int] == entry
        }),
{
    let pieces = split_pieces(existing);
    let before = split_lines(existing);
    let entry = index_entry(name, key, day);
    let f = |p: Seq<char>| out_piece(p, key, entry);
    law_an_index_line_gives_back_its_key(name, key, day);
    crate::fixtures::lemma_lines_of_pieces(existing);
    assert(before == pieces.map_values(|p: Seq<char>| line_of(p)));
    lemma_pieces_shape(existing);
    lemma_rewrite_index(pieces, key, entry);
    let q = pieces.map_values(f);
    assert(entry =~= name + seq![' '] + key + seq![' '] + day) by {
        reveal_strlit(" ");
    }
    assert(!entry.contains('\n')) by {
        if entry.contains('\n') {
            let j = choose|j: int| 0 <= j < entry.len() && entry[j] == '\n';
            if j < name.len() {
                assert(name[j] == '\n');
            } else if j == name.len() {
            } else if j < name.len() + 1 + key.len() {
                assert(key[j - name.len() - 1] == '\n');
            } else if j == name.len() + 1 + key.len() {
            } else {
                assert(day[j - name.len() - 2 - key.len()] == '\n');
            }
        }
    }
    assert(entry.len() > 0);
    assert(entry.last() != '\r') by {
        if day.len() > 0 {
            assert(entry.last() == day.last());
            assert(day.contains(day.last()));
        } else {
            assert(entry.last() == ' ');
        }
    }
    let entry_piece = entry + seq!['\n'];
    assert(entry_piece.drop_last() =~= entry);
    assert(terminated(entry_piece));
    assert(line_of(entry_piece) == entry);
    reveal_strlit("\n");
    assert forall|i: int| 0 <= i < q.len() implies terminated(#[trigger] q[i]) && line_of(q[i]) == rewritten_line(before[i], key, entry) by {
        let p = pieces[i];
        let l = line_of(p);
        assert(q[i] == f(p));
        assert(before[i] == l);
        assert(l.len() == 0 || l.last() != '\r');
        // the line of a piece holds no line break
        assert(!l.contains('\n')) by {
            if l.contains('\n') {
                let j = choose|j: int| 0 <= j < l.len() && l[j] == '\n';
                if terminated(p) {
                    assert(p.drop_last()[j] == '\n');
                } else {
                    assert(p[j] == '\n');
                }
            }
        }
        if has_prefix(l, "#"@) {
            if p.len() > 0 && p.last() == '\n' {
                assert(terminated(p));
            } else {
                assert(l == p);
                assert((p + "\n"@).drop_last() =~= p);
            }
        } else if key_of_spec(l) == Some(key) {
        } else {
            assert((l + seq!['\n']).drop_last() =~= l);
        }
    }
    let had = exists|i: int| 0 <= i < before.len() && records(before, i, key);
    assert(lines_of_pieces(pieces) == before);
    assert(rewrite_index(pieces, key, entry).1 == had);
    if had {
        lemma_split_concat(q);
        assert(index_text_spec(existing, name, key, day) == concat(q));
        assert(forall|i: int| 0 <= i < pieces.len() && has_prefix(before[i], "#"@) && terminated(#[trigger] pieces[i]) ==> q[i] == pieces[i]);
    } else {
        lemma_concat_push(q, entry_piece);
        let q2 = q.push(entry_piece);
        assert forall|i: int| 0 <= i < q2.len() implies terminated(#[trigger] q2[i]) by {
            if i < q.len() {
                assert(q2[i] == q[i]);
            }
        }
        lemma_split_concat(q2);
        assert(index_text_spec(existing, name, key, day) =~= concat(q2));
        assert(forall|i: int| 0 <= i < pieces.len() && has_prefix(before[i], "#"@) && terminated(#[trigger] pieces[i]) ==> q2[i] == pieces[i]) by {
            assert forall|i: int| 0 <= i < pieces.len() && has_prefix(before[i], "#"@) && terminated(#[trigger] pieces[i]) implies q2[i] == pieces[i] by {
                assert(q2[i] == q[i]);
            }
        }
    }
}

// --- the observations' keys ---------------------------------------------------------

proof fn lemma_pairs_multiset(f1: Seq<(Seq<char>, Seq<char>)>, f2: Seq<(Seq<char>, Seq<char>)>)
    requires
        f1.to_multiset() == f2.to_multiset(),
    ensures
        crate::observe::filter_pairs(f1).to_multiset() == crate::observe::filter_pairs(f2).to_multiset(),
    decreases f1.len(),
{
    broadcast use vstd::seq_lib::group_to_multiset_ensures;
    let p1 = crate::observe::filter_pairs(f1);
    let p2 = crate::observe::filter_pairs(f2);
    assert(f1.len() == f1.to_multiset().len() && f2.len() == f2.to_multiset().len());
    if f1.len() == 0 {
        assert(p1 =~= p2);
    } else {
        let x = f1.last();
        let init = f1.drop_last();
        assert(f1 =~= init.push(x));
        init.to_multiset_ensures();
        assert(f1.to_multiset() =~= init.to_multiset().insert(x));
        assert(f1.contains(x));
        assert(f2.to_multiset().count(x) > 0);
        let j = choose|j: int| 0 <= j < f2.len() && f2[j] == x;
        let rest = f2.remove(j);
        f2.to_multiset_ensures();
        assert(rest.to_multiset() =~= f2.to_multiset().remove(x));
        assert(init.to_multiset() =~= rest.to_multiset());
        lemma_pairs_multiset(init, rest);
        let gx = x.0 + "="@ + x.1;
        let pi = crate::observe::filter_pairs(init);
        let pr = crate::observe::filter_pairs(rest);
        assert(p1 =~= pi.push(gx));
        pi.to_multiset_ensures();
        assert(p1.to_multiset() =~= pi.to_multiset().insert(gx));
        assert(pr =~= p2.remove(j));
        assert(p2[j] == gx);
        p2.to_multiset_ensures();
        assert(pr.to_multiset() =~= p2.to_multiset().remove(gx));
        assert(p2.contains(gx));
        assert(p2.to_multiset().count(gx) > 0);
        assert(p2.to_multiset() =~= pr.to_multiset().insert(gx));
    }
}

/// The same filters in another order ask the same count and page key:
/// the key is the filters sorted, a repeat kept, joined by `;`.
pub proof fn law_the_filter_key_does_not_depend_on_the_order(
    f1: Seq<(Seq<char>, Seq<char>)>,
    f2: Seq<(Seq<char>, Seq<char>)>,
)
    requires
        f1.to_multiset() == f2.to_multiset(),
    ensures
        crate::observe::filter_key_spec(f1) == crate::observe::filter_key_spec(f2),
{
    lemma_pairs_multiset(f1, f2);
}

// --- the served scope -------------------------------------------------------------------

/// Every cube of the list is served, and the list holds 44.
pub proof fn law_every_listed_cube_is_served()
    ensures
        all_iris().len() == 44,
        forall|i: int| 0 <= i < 44 ==> served(#[trigger] all_iris()[i]),
        forall|i: int| 0 <= i < 44 ==> family_spec(#[trigger] all_iris()[i]) is Some,
{
    assert forall|i: int| 0 <= i < 44 implies served(#[trigger] all_iris()[i]) by {
        let p = paths()[i];
        assert(all_iris()[i] == full_iri(p));
        assert(has_prefix(full_iri(p), crate::scope::SCOPE_PREFIX@)) by {
            assert(full_iri(p).take(crate::scope::SCOPE_PREFIX@.len() as int) =~= crate::scope::SCOPE_PREFIX@);
        }
        assert(path_of(full_iri(p)) =~= p);
        assert(paths().contains(p));
    }
}

proof fn lemma_same_stem(cs: Seq<Seq<char>>, stem: Seq<char>, iri: Seq<char>)
    ensures
        forall|i: int| 0 <= i < same_stem(cs, stem).len() ==> version_family_spec(#[trigger] same_stem(cs, stem)[i]) == stem,
        forall|i: int| 0 <= i < same_stem(cs, stem).len() ==> cs.contains(#[trigger] same_stem(cs, stem)[i]),
        cs.contains(iri) && version_family_spec(iri) == stem ==> same_stem(cs, stem).contains(iri),
    decreases cs.len(),
{
    if cs.len() > 0 {
        lemma_same_stem(cs.drop_last(), stem, iri);
        let rest = same_stem(cs.drop_last(), stem);
        assert forall|i: int| 0 <= i < same_stem(cs, stem).len() implies cs.contains(#[trigger] same_stem(cs, stem)[i]) by {
            if i < rest.len() {
                assert(same_stem(cs, stem)[i] == rest[i]);
                assert(cs.drop_last().contains(rest[i]));
                let j = choose|j: int| 0 <= j < cs.drop_last().len() && cs.drop_last()[j] == rest[i];
                assert(cs[j] == rest[i]);
            } else {
                assert(same_stem(cs, stem)[i] == cs.last());
                assert(cs[cs.len() - 1] == cs.last());
            }
        }
        if cs.contains(iri) && version_family_spec(iri) == stem {
            let j = choose|j: int| 0 <= j < cs.len() && cs[j] == iri;
            if j < cs.len() - 1 {
                assert(cs.drop_last()[j] == iri);
                assert(cs.drop_last().contains(iri));
                let m = choose|m: int| 0 <= m < rest.len() && rest[m] == iri;
                assert(same_stem(cs, stem)[m] == iri);
            } else {
                assert(same_stem(cs, stem).last() == iri);
                assert(same_stem(cs, stem)[same_stem(cs, stem).len() - 1] == iri);
            }
        }
    }
}

/// The versions of a family come from the list: every one of them shares
/// the cube's stem, and the cube itself is among them.
pub proof fn law_the_versions_of_a_family_come_from_the_list(iri: Seq<char>)
    requires
        all_iris().contains(iri),
    ensures
        same_stem(all_iris(), version_family_spec(iri)).contains(iri),
        forall|i: int| 0 <= i < same_stem(all_iris(), version_family_spec(iri)).len() ==>
            version_family_spec(#[trigger] same_stem(all_iris(), version_family_spec(iri))[i]) == version_family_spec(iri)
            && all_iris().contains(same_stem(all_iris(), version_family_spec(iri))[i]),
{
    lemma_same_stem(all_iris(), version_family_spec(iri), iri);
}

} // verus!

verus! {

// --- the folds of an answer --------------------------------------------------------------

proof fn lemma_pos_in_bounds<K>(keys: Seq<K>, key: K)
    ensures
        0 <= crate::text::pos_in(keys, key) <= keys.len(),
        crate::text::pos_in(keys, key) < keys.len() ==> keys[crate::text::pos_in(keys, key)] == key,
        crate::text::pos_in(keys, key) == keys.len() ==> forall|j: int| 0 <= j < keys.len() ==> keys[j] != key,
    decreases keys.len(),
{
    if keys.len() > 0 && keys[0] != key {
        let t = keys.drop_first();
        lemma_pos_in_bounds(t, key);
        assert forall|j: int| 0 <= j < keys.len() && crate::text::pos_in(keys, key) == keys.len() implies keys[j] != key by {
            if j > 0 {
                assert(keys[j] == t[j - 1]);
            }
        }
        if crate::text::pos_in(t, key) < t.len() {
            assert(keys[crate::text::pos_in(keys, key)] == t[crate::text::pos_in(t, key)]);
        }
    }
}

/// No two entries of `keys` are equal.
pub open spec fn each_once<K>(keys: Seq<K>) -> bool {
    forall|i: int, j: int| 0 <= i < j < keys.len() ==> keys[i] != keys[j]
}

proof fn lemma_rows_each_once(bs: Seq<crate::json::JsonV>)
    ensures
        each_once(crate::observe::row_keys(crate::observe::fold_rows(bs))),
    decreases bs.len(),
{
    if bs.len() > 0 {
        lemma_rows_each_once(bs.drop_last());
        let acc = crate::observe::fold_rows(bs.drop_last());
        let keys = crate::observe::row_keys(acc);
        let b = bs.last();
        match crate::domain::text_spec(b, "obs"@) {
            None => {},
            Some(o) => {
                lemma_pos_in_bounds(keys, o);
                let k = crate::text::pos_in(keys, o);
                let acc1 = if k == acc.len() { acc.push((o, Seq::empty())) } else { acc };
                assert(crate::observe::row_keys(acc1) =~= if k == acc.len() { keys.push(o) } else { keys });
                let r = crate::observe::fold_rows(bs);
                assert(crate::observe::row_keys(r) =~= crate::observe::row_keys(acc1));
            },
        }
    }
}

/// Every observation of a page is one row, however many bindings carry it.
pub proof fn law_every_observation_is_one_row(bs: Seq<crate::json::JsonV>)
    ensures
        each_once(crate::observe::row_keys(crate::observe::fold_rows(bs))),
{
    lemma_rows_each_once(bs);
}

proof fn lemma_term_pos_bounds(acc: Seq<(Seq<char>, crate::domain::CellV, Seq<(Seq<char>, Seq<char>)>)>, p: Seq<char>, c: crate::domain::CellV)
    ensures
        0 <= crate::tools::term_pos(acc, p, c) <= acc.len(),
        crate::tools::term_pos(acc, p, c) == acc.len() ==> forall|j: int| 0 <= j < acc.len() ==> !crate::tools::same_term(acc[j], p, c),
    decreases acc.len(),
{
    if acc.len() > 0 && !crate::tools::same_term(acc[0], p, c) {
        let t = acc.drop_first();
        lemma_term_pos_bounds(t, p, c);
        assert forall|j: int| 0 <= j < acc.len() && crate::tools::term_pos(acc, p, c) == acc.len() implies !crate::tools::same_term(acc[j], p, c) by {
            if j > 0 {
                assert(acc[j] == t[j - 1]);
            }
        }
    }
}

/// No two statements are the same term.
pub open spec fn terms_once(acc: Seq<(Seq<char>, crate::domain::CellV, Seq<(Seq<char>, Seq<char>)>)>) -> bool {
    forall|i: int, j: int| 0 <= i < j < acc.len() ==> !crate::tools::same_term(acc[i], acc[j].0, acc[j].1)
}

#[verifier::spinoff_prover]
proof fn lemma_statements_once(bs: Seq<crate::json::JsonV>, pvar: Seq<char>)
    ensures
        terms_once(crate::tools::fold_statements(bs, pvar)),
    decreases bs.len(),
{
    if bs.len() > 0 {
        lemma_statements_once(bs.drop_last(), pvar);
        let acc = crate::tools::fold_statements(bs.drop_last(), pvar);
        let b = bs.last();
        match (crate::domain::text_spec(b, pvar), crate::domain::cell_spec(b, "v"@)) {
            (Some(p), Some(c)) => {
                lemma_term_pos_bounds(acc, p, c);
                let k = crate::tools::term_pos(acc, p, c);
                let acc1 = if k == acc.len() { acc.push((p, c, Seq::empty())) } else { acc };
                assert(terms_once(acc1)) by {
                    if k == acc.len() {
                        assert forall|i: int, j: int| 0 <= i < j < acc1.len() implies !crate::tools::same_term(acc1[i], acc1[j].0, acc1[j].1) by {
                            if j == acc.len() {
                                assert(acc1[j] == (p, c, Seq::<(Seq<char>, Seq<char>)>::empty()));
                                assert(acc1[i] == acc[i]);
                            } else {
                                assert(acc1[i] == acc[i] && acc1[j] == acc[j]);
                            }
                        }
                    }
                }
                let r = crate::tools::fold_statements(bs, pvar);
                assert(r == acc1.update(k, (acc1[k].0, acc1[k].1, crate::domain::with_label(acc1[k].2, b, "label"@, "labelLang"@))));
                assert(r.len() == acc1.len());
                assert forall|i: int, j: int| 0 <= i < j < r.len() implies !crate::tools::same_term(r[i], r[j].0, r[j].1) by {
                    assert(r[i].0 == acc1[i].0 && r[i].1 == acc1[i].1);
                    assert(r[j].0 == acc1[j].0 && r[j].1 == acc1[j].1);
                    assert(!crate::tools::same_term(acc1[i], acc1[j].0, acc1[j].1));
                }
            },
            _ => {},
        }
    }
}

/// Every statement of a description page is one term: predicate, lexical
/// form, form, datatype and tag — `"Uri"@de` and `"Uri"@fr` are two, and
/// the same term carried by several bindings (one per label) is one.
pub proof fn law_every_statement_is_one_term(bs: Seq<crate::json::JsonV>, pvar: Seq<char>)
    ensures
        terms_once(crate::tools::fold_statements(bs, pvar)),
{
    lemma_statements_once(bs, pvar);
}

// --- the three-step dimension rule -----------------------------------------------------------

proof fn lemma_memo_push(g: Seq<(Seq<char>, crate::shape::Gate)>, x: (Seq<char>, crate::shape::Gate), d: Seq<char>)
    ensures
        crate::observe::memo(g, d) is Some ==> crate::observe::memo(g.push(x), d) == crate::observe::memo(g, d),
        x.0 == d ==> crate::observe::memo(g.push(x), d) is Some,
{
    assert(g.push(x).drop_last() =~= g);
}

/// Where deciding the admission order stops, the ASK owed is for a dimension
/// that was decided before by no earlier step and that the shape does not
/// declare — one bound ASK per undeclared dimension, never per mention; and
/// once every dimension is admitted, every one of them carries a decision.
pub proof fn law_an_ask_is_owed_only_for_an_undecided_undeclared_dimension(
    shape: Seq<crate::shape::DimV>,
    order: Seq<Seq<char>>,
    nproj: nat,
    i: nat,
    gated: Seq<(Seq<char>, crate::shape::Gate)>,
    und: Seq<Seq<char>>,
)
    ensures
        crate::observe::settle(shape, order, nproj, i, gated, und) matches crate::observe::Settled::Asks(k, g, _) ==>
            i <= k < order.len() && crate::observe::memo(g, order[k as int]) is None
                && !crate::shape::declares(shape, order[k as int]),
        crate::observe::settle(shape, order, nproj, i, gated, und) matches crate::observe::Settled::Admitted(g, _) ==>
            forall|j: int| i <= j < order.len() ==> crate::observe::memo(g, #[trigger] order[j]) is Some,
    decreases order.len() - i,
{
    if i < order.len() {
        let d = order[i as int];
        match crate::observe::memo(gated, d) {
            Some(crate::shape::Gate::Absent) => {},
            Some(gt) => {
                let und1 = crate::observe::take_in(und, d, gt, i < nproj);
                law_an_ask_is_owed_only_for_an_undecided_undeclared_dimension(shape, order, nproj, i + 1, gated, und1);
            },
            None => {
                if crate::shape::declares(shape, d) {
                    let g1 = gated.push((d, crate::shape::Gate::Declared));
                    law_an_ask_is_owed_only_for_an_undecided_undeclared_dimension(shape, order, nproj, i + 1, g1, und);
                    lemma_memo_push(gated, (d, crate::shape::Gate::Declared), d);
                    match crate::observe::settle(shape, order, nproj, i, gated, und) {
                        crate::observe::Settled::Admitted(g, _) => {
                            assert(crate::observe::memo(g, d) is Some) by {
                                lemma_settle_keeps(shape, order, nproj, i + 1, g1, und, d);
                            }
                        },
                        _ => {},
                    }
                }
            },
        }
        match crate::observe::settle(shape, order, nproj, i, gated, und) {
            crate::observe::Settled::Admitted(g, _) => {
                if crate::observe::memo(gated, d) is Some {
                    lemma_settle_keeps(shape, order, nproj, i + 1, gated, crate::observe::take_in(und, d, crate::observe::memo(gated, d)->0, i < nproj), d);
                }
            },
            _ => {},
        }
    }
}

/// A decision once made stays made while the order is decided.
proof fn lemma_settle_keeps(
    shape: Seq<crate::shape::DimV>,
    order: Seq<Seq<char>>,
    nproj: nat,
    i: nat,
    gated: Seq<(Seq<char>, crate::shape::Gate)>,
    und: Seq<Seq<char>>,
    d: Seq<char>,
)
    requires
        crate::observe::memo(gated, d) is Some,
    ensures
        crate::observe::settle(shape, order, nproj, i, gated, und) matches crate::observe::Settled::Admitted(g, _) ==>
            crate::observe::memo(g, d) is Some,
    decreases order.len() - i,
{
    if i < order.len() {
        let e = order[i as int];
        match crate::observe::memo(gated, e) {
            Some(crate::shape::Gate::Absent) => {},
            Some(gt) => {
                lemma_settle_keeps(shape, order, nproj, i + 1, gated, crate::observe::take_in(und, e, gt, i < nproj), d);
            },
            None => {
                if crate::shape::declares(shape, e) {
                    let g1 = gated.push((e, crate::shape::Gate::Declared));
                    lemma_memo_push(gated, (e, crate::shape::Gate::Declared), d);
                    lemma_settle_keeps(shape, order, nproj, i + 1, g1, und, d);
                }
            },
        }
    }
}

} // verus!

verus! {

// --- the listings ------------------------------------------------------------------

proof fn lemma_family_members_len(ps: Seq<Seq<char>>, f: Seq<char>)
    ensures
        crate::scope::family_members(ps, f).len() <= ps.len(),
    decreases ps.len(),
{
    if ps.len() > 0 {
        lemma_family_members_len(ps.drop_last(), f);
    }
}

proof fn lemma_same_stem_len(cs: Seq<Seq<char>>, stem: Seq<char>)
    ensures
        same_stem(cs, stem).len() <= cs.len(),
    decreases cs.len(),
{
    if cs.len() > 0 {
        lemma_same_stem_len(cs.drop_last(), stem);
    }
}

/// A page of `list_cubes` is the family's list in order: row `i` is the
/// cube at `offset + i`, the page holds `min(limit, total - offset)` rows,
/// `total` is the family's size, and `truncated` says whether cubes follow
/// the page.
pub proof fn law_a_page_of_cubes_is_the_family_in_order(
    ctx: crate::domain::Ctx,
    run: crate::catalogue::ListCubesRun,
    preply: crate::backend::Reply,
    pbs: Seq<crate::json::JsonV>,
    cbs: Seq<crate::json::JsonV>,
)
    requires
        crate::catalogue::family_cubes(crate::domain::opt_seq(run.family)) == Some(crate::text::views(run.cubes@)),
    ensures
        ({
            let c = crate::text::views(run.cubes@);
            let o = run.offset as nat;
            let fields = crate::catalogue::list_cubes_answer(ctx, run, preply, pbs, cbs)->Obj_0;
            let rows = fields[0].1->Arr_0;
            &&& c.len() <= 44
            &&& fields[0].0 == "cubes"@ && fields[0].1 is Arr
            &&& fields[5] == ("total"@, crate::json::JsonV::Num(c.len() as u64)) && c.len() as u64 == c.len()
            &&& rows.len() == if o >= c.len() { 0 } else if o + run.limit >= c.len() { (c.len() - o) as nat } else { run.limit as nat }
            &&& forall|i: int| 0 <= i < rows.len() ==> #[trigger] rows[i] == crate::catalogue::profile_row(pbs, cbs, c[o + i], run.lang@)
            &&& fields[6] == ("truncated"@, crate::json::JsonV::Bool(o + rows.len() < c.len()))
        }),
{
    let c = crate::text::views(run.cubes@);
    match crate::domain::opt_seq(run.family) {
        None => {
            law_every_listed_cube_is_served();
        },
        Some(f) => {
            lemma_family_members_len(paths(), f);
            law_every_listed_cube_is_served();
            assert(paths().len() == 44);
        },
    }
    let w = window(c, run.offset as nat, run.limit as nat);
    assert forall|i: int| 0 <= i < w.len() implies #[trigger] w[i] == c[run.offset + i] by {}
}

/// `list_versions` answers the family's versions whole, in the list's
/// order: never a page, never truncated.
pub proof fn law_the_versions_are_answered_whole(
    ctx: crate::domain::Ctx,
    run: crate::catalogue::ListVersionsRun,
    preply: crate::backend::Reply,
    pbs: Seq<crate::json::JsonV>,
    cbs: Seq<crate::json::JsonV>,
)
    requires
        run.family@ == version_family_spec(run.cube@),
        crate::text::views(run.versions@) == same_stem(all_iris(), run.family@),
    ensures
        ({
            let vs = crate::text::views(run.versions@);
            let fields = crate::catalogue::list_versions_answer(ctx, run, preply, pbs, cbs)->Obj_0;
            let rows = fields[1].1->Arr_0;
            let n = crate::json::JsonV::Num(vs.len() as u64);
            &&& vs.len() <= 44 && vs.len() as u64 == vs.len()
            &&& vs == same_stem(all_iris(), version_family_spec(run.cube@))
            &&& fields[0] == ("family"@, crate::json::JsonV::Str(version_family_spec(run.cube@)))
            &&& fields[1].0 == "versions"@ && fields[1].1 is Arr && rows.len() == vs.len()
            &&& forall|i: int| 0 <= i < rows.len() ==> #[trigger] rows[i] == crate::catalogue::version_row(pbs, cbs, vs[i])
            &&& fields[2] == ("versioned"@, crate::json::JsonV::Bool(crate::scope::version_spec(run.cube@) is Some))
            &&& fields[3] == ("limit"@, n) && fields[4] == ("returned"@, n) && fields[5] == ("total"@, n)
            &&& fields[6] == ("truncated"@, crate::json::JsonV::Bool(false))
        }),
{
    lemma_same_stem_len(all_iris(), run.family@);
    law_every_listed_cube_is_served();
}

// --- the observation counts ------------------------------------------------------

/// What one count binding says of `cube`: its parsed count when it names
/// the cube and carries a count (0 when the count does not parse), else 0.
pub open spec fn count_in(b: crate::json::JsonV, cube: Seq<char>) -> u64 {
    if crate::domain::text_spec(b, "cube"@) == Some(cube) && crate::domain::text_spec(b, "observations"@) is Some {
        match crate::text::parse_u64_spec(crate::domain::text_spec(b, "observations"@)->0) {
            Some(n) => n,
            None => 0,
        }
    } else {
        0
    }
}

proof fn lemma_count_for_is_the_largest(bs: Seq<crate::json::JsonV>, cube: Seq<char>)
    ensures
        forall|i: int| 0 <= i < bs.len() ==> count_in(#[trigger] bs[i], cube) <= crate::catalogue::count_for(bs, cube),
        crate::catalogue::count_for(bs, cube) == 0
            || exists|i: int| 0 <= i < bs.len() && count_in(#[trigger] bs[i], cube) == crate::catalogue::count_for(bs, cube),
    decreases bs.len(),
{
    if bs.len() > 0 {
        let init = bs.drop_last();
        lemma_count_for_is_the_largest(init, cube);
        assert forall|i: int| 0 <= i < bs.len() implies count_in(#[trigger] bs[i], cube) <= crate::catalogue::count_for(bs, cube) by {
            if i < init.len() {
                assert(bs[i] == init[i]);
            }
        }
        if crate::catalogue::count_for(bs, cube) != 0 {
            if crate::catalogue::count_for(bs, cube) == count_in(bs.last(), cube) {
                assert(count_in(bs[bs.len() - 1], cube) == crate::catalogue::count_for(bs, cube));
            } else {
                let i = choose|i: int| 0 <= i < init.len() && count_in(#[trigger] init[i], cube) == crate::catalogue::count_for(init, cube);
                assert(bs[i] == init[i]);
            }
        }
    }
}

/// A count binding the store answers again, for the same cube and with a
/// count not above the first one's, changes no count — and so no row of
/// `list_cubes`: the repeated key adds no cube and doubles no count.
pub proof fn law_a_repeated_count_changes_nothing(
    cbs: Seq<crate::json::JsonV>,
    j: int,
    k: int,
    x: crate::json::JsonV,
)
    requires
        0 <= j < cbs.len(),
        0 <= k <= cbs.len(),
        forall|d: Seq<char>| #[trigger] count_in(x, d) <= count_in(cbs[j], d),
    ensures
        forall|d: Seq<char>| #[trigger] crate::catalogue::count_for(cbs.insert(k, x), d) == crate::catalogue::count_for(cbs, d),
        forall|pbs: Seq<crate::json::JsonV>, cube: Seq<char>, lang: Seq<char>|
            #[trigger] crate::catalogue::profile_row(pbs, cbs.insert(k, x), cube, lang) == crate::catalogue::profile_row(pbs, cbs, cube, lang),
{
    let more = cbs.insert(k, x);
    assert forall|d: Seq<char>| #[trigger] crate::catalogue::count_for(more, d) == crate::catalogue::count_for(cbs, d) by {
        lemma_count_for_is_the_largest(cbs, d);
        lemma_count_for_is_the_largest(more, d);
        let m = crate::catalogue::count_for(cbs, d);
        let m2 = crate::catalogue::count_for(more, d);
        assert(count_in(cbs[j], d) <= m);
        assert(count_in(x, d) <= m);
        if m != 0 {
            let i = choose|i: int| 0 <= i < cbs.len() && count_in(#[trigger] cbs[i], d) == m;
            if i < k {
                assert(more[i] == cbs[i]);
                assert(count_in(more[i], d) <= m2);
            } else {
                assert(more[i + 1] == cbs[i]);
                assert(count_in(more[i + 1], d) <= m2);
            }
        }
        if m2 != 0 {
            let i = choose|i: int| 0 <= i < more.len() && count_in(#[trigger] more[i], d) == m2;
            if i < k {
                assert(more[i] == cbs[i]);
                assert(count_in(cbs[i], d) <= m);
            } else if i == k {
                assert(more[i] == x);
            } else {
                assert(more[i] == cbs[i - 1]);
                assert(count_in(cbs[i - 1], d) <= m);
            }
        }
    }
}

// --- the brake's refusal ------------------------------------------------------------

proof fn lemma_decimal(n: nat)
    ensures
        decimal(n).len() > 0,
        crate::text::all_ascii_digits(decimal(n)),
        crate::text::digits_value(decimal(n)) == n,
    decreases n,
{
    if n < 10 {
        assert((n + 48) as u8 == n + 48);
        assert(crate::text::digit_char(n) as nat == n + 48);
        assert(decimal(n).drop_last() =~= Seq::<char>::empty());
        assert(decimal(n).last() == crate::text::digit_char(n));
        assert(crate::text::digits_value(decimal(n).drop_last()) == 0);
        assert(crate::text::digits_value(decimal(n)) == crate::text::digits_value(decimal(n).drop_last()) * 10 + (decimal(n).last() as nat - 48) as nat);
    } else {
        lemma_decimal(n / 10);
        let d = decimal(n);
        assert(d.drop_last() == decimal(n / 10));
        assert((n % 10 + 48) as u8 == n % 10 + 48);
        assert(crate::text::digit_char((n % 10) as nat) as nat == n % 10 + 48);
        assert(d.last() == crate::text::digit_char((n % 10) as nat));
        assert forall|i: int| 0 <= i < d.len() implies '0' <= #[trigger] d[i] <= '9' by {
            if i < d.len() - 1 {
                assert(d[i] == decimal(n / 10)[i]);
            }
        }
        assert(n == (n / 10) * 10 + n % 10);
        assert(crate::text::digits_value(d) == crate::text::digits_value(d.drop_last()) * 10 + (d.last() as nat - 48) as nat);
    }
}

/// A refusal of the brake gives back the retry it was written with: the
/// digits right after the marker, up to the first character that is none.
pub proof fn law_a_busy_refusal_gives_back_its_retry(ms: u64, tail: Seq<char>)
    requires
        tail.len() == 0 || !('0' <= tail[0] <= '9'),
    ensures
        crate::throttle::retry_spec(crate::throttle::BUSY_MARKER@ + decimal(ms as nat) + tail) == Some(ms),
{
    let m = crate::throttle::BUSY_MARKER@;
    let d = decimal(ms as nat);
    let text = m + d + tail;
    lemma_decimal(ms as nat);
    let zero: int = 0;
    assert(text.subrange(zero, zero + m.len()) =~= m);
    assert(crate::text::has_infix(text, m));
    reveal(crate::text::first_at);
    let at = crate::text::first_at(text, m);
    assert(at == 0) by {
        if at > 0 {
            assert(text.subrange(0, 0 + m.len() as int) != m);
        }
    }
    let rest = text.skip(m.len() as int);
    assert(rest =~= d + tail);
    assert forall|i: int| 0 <= i < d.len() implies (crate::text::digit_pred())(#[trigger] rest[i]) by {
        assert(rest[i] == d[i]);
    }
    if d.len() < rest.len() {
        assert(rest[d.len() as int] == tail[0]);
    }
    lemma_lead(rest, crate::text::digit_pred(), d.len() as int);
    assert(rest.take(d.len() as int) =~= d);
    assert(d[0] != '+');
}

} // verus!


verus! {

// --- the versions ----------------------------------------------------------------

/// A path whose last segment is no number: the path carries no version.
pub open spec fn unversioned_shape(p: Seq<char>) -> bool {
    p.len() > 0 && !('0' <= p.last() <= '9') && p.last() != '/'
}

/// A path whose segment after the `/` at `k` is a number, and whose segment
/// before it is none.
pub open spec fn versioned_shape(p: Seq<char>, k: int) -> bool {
    &&& 1 <= k < p.len() - 1
    &&& p[k] == '/'
    &&& crate::text::all_ascii_digits(p.skip(k + 1))
    &&& !('0' <= p[k - 1] <= '9') && p[k - 1] != '/'
}

proof fn lemma_every_path_has_a_shape(i: int)
    requires
        0 <= i < 44,
    ensures
        unversioned_shape(paths()[i]) || exists|k: int| versioned_shape(paths()[i], k),
{
    let p = paths()[i];
    assert(p == crate::scope::CUBES@[i]@);
    if i == 0 {
        reveal_strlit("fc/cube-chancellor");
        assert(p == "fc/cube-chancellor"@);
        assert(unversioned_shape(p));
    } else if i == 1 {
        reveal_strlit("fc/cube-councillor");
        assert(p == "fc/cube-councillor"@);
        assert(unversioned_shape(p));
    } else if i == 2 {
        reveal_strlit("fc/cube-declined-election");
        assert(p == "fc/cube-declined-election"@);
        assert(unversioned_shape(p));
    } else if i == 3 {
        reveal_strlit("fc/cube-department");
        assert(p == "fc/cube-department"@);
        assert(unversioned_shape(p));
    } else if i == 4 {
        reveal_strlit("fc/cube-president");
        assert(p == "fc/cube-president"@);
        assert(unversioned_shape(p));
    } else if i == 5 {
        reveal_strlit("fch/apg/committee-canton-statistic/1");
        assert(p == "fch/apg/committee-canton-statistic/1"@);
        assert(versioned_shape(p, 34));
    } else if i == 6 {
        reveal_strlit("fch/apg/committee-function-statistic/1");
        assert(p == "fch/apg/committee-function-statistic/1"@);
        assert(versioned_shape(p, 36));
    } else if i == 7 {
        reveal_strlit("fch/apg/committee-gender-language-statistic/1");
        assert(p == "fch/apg/committee-gender-language-statistic/1"@);
        assert(versioned_shape(p, 43));
    } else if i == 8 {
        reveal_strlit("fch/apg/committee-type-department-statistic/1");
        assert(p == "fch/apg/committee-type-department-statistic/1"@);
        assert(versioned_shape(p, 43));
    } else if i == 9 {
        reveal_strlit("fch/apg/committee-type-statistic/1");
        assert(p == "fch/apg/committee-type-statistic/1"@);
        assert(versioned_shape(p, 32));
    } else if i == 10 {
        reveal_strlit("fch/apg/committee/1");
        assert(p == "fch/apg/committee/1"@);
        assert(versioned_shape(p, 17));
    } else if i == 11 {
        reveal_strlit("fch/apg/membership/1");
        assert(p == "fch/apg/membership/1"@);
        assert(versioned_shape(p, 18));
    } else if i == 12 {
        reveal_strlit("fch/apg/person/1");
        assert(p == "fch/apg/person/1"@);
        assert(versioned_shape(p, 14));
    } else if i == 13 {
        reveal_strlit("fch/apg/vested-interest/1");
        assert(p == "fch/apg/vested-interest/1"@);
        assert(versioned_shape(p, 23));
    } else if i == 14 {
        reveal_strlit("national-council-election/candidates/2019");
        assert(p == "national-council-election/candidates/2019"@);
        assert(versioned_shape(p, 36));
    } else if i == 15 {
        reveal_strlit("national-council-election/candidates/2023");
        assert(p == "national-council-election/candidates/2023"@);
        assert(versioned_shape(p, 36));
    } else if i == 16 {
        reveal_strlit("national-council-election/candidates/2027");
        assert(p == "national-council-election/candidates/2027"@);
        assert(versioned_shape(p, 36));
    } else if i == 17 {
        reveal_strlit("national-council-election/canton-candidate-statistics/2019");
        assert(p == "national-council-election/canton-candidate-statistics/2019"@);
        assert(versioned_shape(p, 53));
    } else if i == 18 {
        reveal_strlit("national-council-election/canton-candidate-statistics/2023");
        assert(p == "national-council-election/canton-candidate-statistics/2023"@);
        assert(versioned_shape(p, 53));
    } else if i == 19 {
        reveal_strlit("national-council-election/canton-candidate-statistics/2027");
        assert(p == "national-council-election/canton-candidate-statistics/2027"@);
        assert(versioned_shape(p, 53));
    } else if i == 20 {
        reveal_strlit("national-council-election/canton-election-statistics/2019");
        assert(p == "national-council-election/canton-election-statistics/2019"@);
        assert(versioned_shape(p, 52));
    } else if i == 21 {
        reveal_strlit("national-council-election/canton-election-statistics/2023");
        assert(p == "national-council-election/canton-election-statistics/2023"@);
        assert(versioned_shape(p, 52));
    } else if i == 22 {
        reveal_strlit("national-council-election/canton-election-statistics/2027");
        assert(p == "national-council-election/canton-election-statistics/2027"@);
        assert(versioned_shape(p, 52));
    } else if i == 23 {
        reveal_strlit("national-council-election/list-results/2019");
        assert(p == "national-council-election/list-results/2019"@);
        assert(versioned_shape(p, 38));
    } else if i == 24 {
        reveal_strlit("national-council-election/list-results/2023");
        assert(p == "national-council-election/list-results/2023"@);
        assert(versioned_shape(p, 38));
    } else if i == 25 {
        reveal_strlit("national-council-election/list-results/2027");
        assert(p == "national-council-election/list-results/2027"@);
        assert(versioned_shape(p, 38));
    } else if i == 26 {
        reveal_strlit("national-council-election/seats-in-connected-lists/2019");
        assert(p == "national-council-election/seats-in-connected-lists/2019"@);
        assert(versioned_shape(p, 50));
    } else if i == 27 {
        reveal_strlit("national-council-election/seats-in-connected-lists/2023");
        assert(p == "national-council-election/seats-in-connected-lists/2023"@);
        assert(versioned_shape(p, 50));
    } else if i == 28 {
        reveal_strlit("national-council-election/seats-in-connected-lists/2027");
        assert(p == "national-council-election/seats-in-connected-lists/2027"@);
        assert(versioned_shape(p, 50));
    } else if i == 29 {
        reveal_strlit("national-council-election/seats-per-list/2019");
        assert(p == "national-council-election/seats-per-list/2019"@);
        assert(versioned_shape(p, 40));
    } else if i == 30 {
        reveal_strlit("national-council-election/seats-per-list/2023");
        assert(p == "national-council-election/seats-per-list/2023"@);
        assert(versioned_shape(p, 40));
    } else if i == 31 {
        reveal_strlit("national-council-election/seats-per-list/2027");
        assert(p == "national-council-election/seats-per-list/2027"@);
        assert(versioned_shape(p, 40));
    } else if i == 32 {
        reveal_strlit("political-rights/petition/1");
        assert(p == "political-rights/petition/1"@);
        assert(versioned_shape(p, 25));
    } else if i == 33 {
        reveal_strlit("political-rights/political-party-register-persons/1");
        assert(p == "political-rights/political-party-register-persons/1"@);
        assert(versioned_shape(p, 49));
    } else if i == 34 {
        reveal_strlit("political-rights/political-party-register/1");
        assert(p == "political-rights/political-party-register/1"@);
        assert(versioned_shape(p, 41));
    } else if i == 35 {
        reveal_strlit("political-rights/popular-initiative-keyfigures-stat/1");
        assert(p == "political-rights/popular-initiative-keyfigures-stat/1"@);
        assert(versioned_shape(p, 51));
    } else if i == 36 {
        reveal_strlit("political-rights/popular-initiative-stat/1");
        assert(p == "political-rights/popular-initiative-stat/1"@);
        assert(versioned_shape(p, 40));
    } else if i == 37 {
        reveal_strlit("political-rights/popular-initiative/1");
        assert(p == "political-rights/popular-initiative/1"@);
        assert(versioned_shape(p, 35));
    } else if i == 38 {
        reveal_strlit("political-rights/popular-vote-stat/1");
        assert(p == "political-rights/popular-vote-stat/1"@);
        assert(versioned_shape(p, 34));
    } else if i == 39 {
        reveal_strlit("political-rights/popular-vote/1");
        assert(p == "political-rights/popular-vote/1"@);
        assert(versioned_shape(p, 29));
    } else if i == 40 {
        reveal_strlit("political-rights/popular-vote/voting_dates/1");
        assert(p == "political-rights/popular-vote/voting_dates/1"@);
        assert(versioned_shape(p, 42));
    } else if i == 41 {
        reveal_strlit("political-rights/referendum-keyfigures-stat/1");
        assert(p == "political-rights/referendum-keyfigures-stat/1"@);
        assert(versioned_shape(p, 43));
    } else if i == 42 {
        reveal_strlit("political-rights/referendum-stat/1");
        assert(p == "political-rights/referendum-stat/1"@);
        assert(versioned_shape(p, 32));
    } else if i == 43 {
        reveal_strlit("political-rights/referendum/1");
        assert(p == "political-rights/referendum/1"@);
        assert(versioned_shape(p, 27));
    }
}

/// The last segment of a path that ends in neither a digit nor `/` is no
/// number.
proof fn lemma_last_segment_is_no_number(s: Seq<char>)
    requires
        s.len() > 0,
        !('0' <= s.last() <= '9'),
        s.last() != '/',
    ensures
        !(after_last(s, '/').len() > 0 && crate::text::all_ascii_digits(after_last(s, '/'))),
{
    let a = after_last(s, '/');
    assert(a == after_last(s.drop_last(), '/').push(s.last()));
    assert(a[a.len() - 1] == s.last());
}

/// For a served cube, `version_family` strips exactly `/` and the version,
/// leaves a cube without one as it is, and applied twice gives what it
/// gives once — `dimension_base` answers the same stem.
pub proof fn law_the_version_family_strips_exactly_the_version(iri: Seq<char>)
    requires
        served(iri),
    ensures
        version_spec(iri) matches Some(v) ==> version_family_spec(iri) + seq!['/'] + v == iri
            && version_spec(version_family_spec(iri)) is None,
        version_spec(iri) is None ==> version_family_spec(iri) == iri,
        version_family_spec(version_family_spec(iri)) == version_family_spec(iri),
{
    let pre = crate::scope::SCOPE_PREFIX@;
    let p = path_of(iri);
    let i = choose|i: int| 0 <= i < paths().len() && paths()[i] == p;
    law_every_listed_cube_is_served();
    lemma_every_path_has_a_shape(i);
    assert(iri =~= full_iri(p));
    assert(has_prefix(iri, pre));
    if unversioned_shape(p) {
        lemma_last_segment_is_no_number(p);
        assert(version_spec(iri) is None);
    } else {
        let k = choose|k: int| versioned_shape(p, k);
        let v = p.skip(k + 1);
        assert forall|j: int| k + 1 <= j < p.len() implies p[j] != '/' by {
            assert(p[j] == v[j - k - 1]);
        }
        crate::text::lemma_after_last(p, '/', k + 1);
        assert(version_spec(iri) == Some(v));
        let suffix = seq!['/'] + v;
        assert(iri.skip(iri.len() - suffix.len()) =~= suffix);
        let stem = iri.take(iri.len() - suffix.len());
        assert(version_family_spec(iri) == stem);
        assert(stem + seq!['/'] + v =~= iri);
        assert(stem =~= full_iri(p.take(k)));
        assert(has_prefix(stem, pre)) by {
            assert(stem.take(pre.len() as int) =~= pre);
        }
        assert(path_of(stem) =~= p.take(k));
        lemma_last_segment_is_no_number(p.take(k));
        assert(version_spec(stem) is None);
    }
}

} // verus!

verus! {

// --- what the queries ask --------------------------------------------------------------

proof fn lemma_infix_self(n: Seq<char>)
    ensures
        crate::text::has_infix(n, n),
{
    let w: int = 0;
    assert(n.subrange(w, w + n.len()) =~= n);
}

proof fn lemma_infix_left(a: Seq<char>, b: Seq<char>, n: Seq<char>)
    requires
        crate::text::has_infix(a, n),
    ensures
        crate::text::has_infix(a + b, n),
{
    let i = choose|i: int| 0 <= i <= a.len() - n.len() && #[trigger] a.subrange(i, i + n.len()) == n;
    assert((a + b).subrange(i, i + n.len()) =~= a.subrange(i, i + n.len()));
}

proof fn lemma_infix_right(a: Seq<char>, b: Seq<char>, n: Seq<char>)
    requires
        crate::text::has_infix(b, n),
    ensures
        crate::text::has_infix(a + b, n),
{
    let i = choose|i: int| 0 <= i <= b.len() - n.len() && #[trigger] b.subrange(i, i + n.len()) == n;
    let w = a.len() + i;
    assert((a + b).subrange(w, w + n.len()) =~= b.subrange(i, i + n.len()));
}

/// `n` stands in `pre + n + post`.
proof fn lemma_infix_mid(pre: Seq<char>, n: Seq<char>, post: Seq<char>)
    ensures
        crate::text::has_infix(pre + n + post, n),
{
    lemma_infix_self(n);
    lemma_infix_right(pre, n, n);
    lemma_infix_left(pre + n, post, n);
}

proof fn lemma_infix_trans(s: Seq<char>, m: Seq<char>, n: Seq<char>)
    requires
        crate::text::has_infix(s, m),
        crate::text::has_infix(m, n),
    ensures
        crate::text::has_infix(s, n),
{
    let i = choose|i: int| 0 <= i <= s.len() - m.len() && #[trigger] s.subrange(i, i + m.len()) == m;
    let j = choose|j: int| 0 <= j <= m.len() - n.len() && #[trigger] m.subrange(j, j + n.len()) == n;
    let w = i + j;
    assert(s.subrange(w, w + n.len()) =~= m.subrange(j, j + n.len()));
}

/// What one filter must put into the clauses: an IRI value bound exactly
/// in the triple pattern; a literal compared on its lexical form.
pub open spec fn filter_bound(clauses: Seq<char>, d: Seq<char>, v: Seq<char>) -> bool {
    if crate::observe::iri_like(v) {
        crate::text::has_infix(clauses, "?obs <"@ + d + "> <"@ + v + "> .\n"@)
    } else {
        crate::text::has_infix(clauses, "?obs <"@ + d + "> ?filterValue"@)
            && crate::text::has_infix(clauses, ") = \""@ + literal_escaped(v) + "\")\n"@)
    }
}

proof fn lemma_filter_bound_grows(c: Seq<char>, piece: Seq<char>, d: Seq<char>, v: Seq<char>)
    requires
        filter_bound(c, d, v),
    ensures
        filter_bound(c + piece, d, v),
{
    if crate::observe::iri_like(v) {
        lemma_infix_left(c, piece, "?obs <"@ + d + "> <"@ + v + "> .\n"@);
    } else {
        lemma_infix_left(c, piece, "?obs <"@ + d + "> ?filterValue"@);
        lemma_infix_left(c, piece, ") = \""@ + literal_escaped(v) + "\")\n"@);
    }
}

/// Every filter is in the clauses: an IRI value is bound exactly —
/// `?obs <d> <v> .` — and a literal is compared on its lexical form.
#[verifier::spinoff_prover]
#[verifier::rlimit(40)]
pub proof fn law_every_filter_is_bound_in_the_clauses(fs: Seq<(Seq<char>, Seq<char>)>)
    ensures
        forall|i: int| 0 <= i < fs.len() ==> filter_bound(crate::observe::clauses_of(fs).0, #[trigger] fs[i].0, fs[i].1),
    decreases fs.len(),
{
    let c = crate::observe::clauses_of(fs).0;
    if fs.len() > 0 {
        let init = fs.drop_last();
        law_every_filter_is_bound_in_the_clauses(init);
        let c0 = crate::observe::clauses_of(init).0;
        let k = crate::observe::clauses_of(init).1;
        let d = fs.last().0;
        let v = fs.last().1;
        let piece = c.skip(c0.len() as int);
        assert(c =~= c0 + piece);
        assert forall|i: int| 0 <= i < fs.len() implies filter_bound(c, #[trigger] fs[i].0, fs[i].1) by {
            if i < init.len() {
                assert(fs[i] == init[i]);
                lemma_filter_bound_grows(c0, piece, fs[i].0, fs[i].1);
            } else if crate::observe::iri_like(v) {
                assert(piece =~= "?obs <"@ + d + "> <"@ + v + "> .\n"@);
                lemma_infix_self(piece);
                lemma_infix_right(c0, piece, piece);
            } else {
                let n1 = "?obs <"@ + d + "> ?filterValue"@;
                let n2 = ") = \""@ + literal_escaped(v) + "\")\n"@;
                let mid = decimal(k) + " . FILTER(STR(?filterValue"@ + decimal(k);
                assert(piece =~= n1 + mid + n2);
                lemma_infix_mid(c0, n1, mid + n2);
                assert(c =~= c0 + n1 + (mid + n2));
                lemma_infix_mid(c0 + n1 + mid, n2, Seq::empty());
                assert(c =~= c0 + n1 + mid + n2 + Seq::<char>::empty());
            }
        }
    }
}

/// Every filter is bound in the count query and in the page query of
/// `observations`, so only the observations whose dimension IS the filter
/// value are counted and served.
#[verifier::spinoff_prover]
pub proof fn law_every_filter_is_bound_in_the_queries(
    fs: Seq<(Seq<char>, Seq<char>)>,
    cube: Seq<char>,
    projected: Seq<Seq<char>>,
    limit: nat,
    offset: nat,
)
    ensures
        forall|i: int| 0 <= i < fs.len() ==> filter_bound(
            crate::domain::count_query_spec(cube, crate::observe::clauses_of(fs).0), #[trigger] fs[i].0, fs[i].1),
        forall|i: int| 0 <= i < fs.len() ==> filter_bound(
            crate::domain::observations_page_query_spec(cube, crate::observe::clauses_of(fs).0, projected, limit, offset),
            #[trigger] fs[i].0, fs[i].1),
{
    let c = crate::observe::clauses_of(fs).0;
    law_every_filter_is_bound_in_the_clauses(fs);
    let count = crate::domain::count_query_spec(cube, c);
    let page = crate::domain::observations_page_query_spec(cube, c, projected, limit, offset);
    let pre_count = crate::domain::PREFIXES@ + "SELECT (COUNT(DISTINCT ?obs) AS ?total) WHERE {\n<"@ + cube
        + "> cube:observationSet ?set . ?set cube:observation ?obs .\n"@;
    assert(count =~= pre_count + c + "}"@);
    lemma_infix_mid(pre_count, c, "}"@);
    let pre_page = crate::domain::PREFIXES@ + "SELECT ?obs ?p ?v ?label ?labelLang WHERE {\n{ SELECT DISTINCT ?obs WHERE {\n<"@
        + cube + "> cube:observationSet ?set . ?set cube:observation ?obs .\n"@;
    let post_page = "} ORDER BY ?obs LIMIT "@ + decimal(limit) + " OFFSET "@ + decimal(offset) + " }\n"@
        + crate::domain::page_cells_spec(projected) + "} ORDER BY ?obs ?p"@;
    assert(page =~= pre_page + c + post_page);
    lemma_infix_mid(pre_page, c, post_page);
    assert forall|i: int| 0 <= i < fs.len() implies filter_bound(count, #[trigger] fs[i].0, fs[i].1)
        && filter_bound(page, fs[i].0, fs[i].1) by {
        assert(filter_bound(c, fs[i].0, fs[i].1));
        if crate::observe::iri_like(fs[i].1) {
            let n = "?obs <"@ + fs[i].0 + "> <"@ + fs[i].1 + "> .\n"@;
            lemma_infix_trans(count, c, n);
            lemma_infix_trans(page, c, n);
        } else {
            let n1 = "?obs <"@ + fs[i].0 + "> ?filterValue"@;
            let n2 = ") = \""@ + literal_escaped(fs[i].1) + "\")\n"@;
            lemma_infix_trans(count, c, n1);
            lemma_infix_trans(page, c, n1);
            lemma_infix_trans(count, c, n2);
            lemma_infix_trans(page, c, n2);
        }
    }
}

/// A page of observations is bounded by the asked limit and offset, in the
/// DISTINCT subselect over the observations.
pub proof fn law_a_page_of_observations_asks_its_limit_and_offset(
    cube: Seq<char>,
    clauses: Seq<char>,
    projected: Seq<Seq<char>>,
    limit: nat,
    offset: nat,
)
    ensures
        crate::text::has_infix(
            crate::domain::observations_page_query_spec(cube, clauses, projected, limit, offset),
            clauses + "} ORDER BY ?obs LIMIT "@ + decimal(limit) + " OFFSET "@ + decimal(offset) + " }\n"@,
        ),
{
    let n = clauses + "} ORDER BY ?obs LIMIT "@ + decimal(limit) + " OFFSET "@ + decimal(offset) + " }\n"@;
    let pre = crate::domain::PREFIXES@ + "SELECT ?obs ?p ?v ?label ?labelLang WHERE {\n{ SELECT DISTINCT ?obs WHERE {\n<"@
        + cube + "> cube:observationSet ?set . ?set cube:observation ?obs .\n"@;
    let post = crate::domain::page_cells_spec(projected) + "} ORDER BY ?obs ?p"@;
    assert(crate::domain::observations_page_query_spec(cube, clauses, projected, limit, offset) =~= pre + n + post);
    lemma_infix_mid(pre, n, post);
}

/// A page of a description is the asked limit of statements from the asked
/// offset: the DISTINCT `?p ?v` subselect over the subject is ordered and
/// bounded by `LIMIT <limit> OFFSET <offset>`.
pub proof fn law_a_page_of_statements_asks_its_limit_and_offset(iri: Seq<char>, limit: nat, offset: nat)
    ensures
        crate::text::has_infix(
            crate::domain::describe_page_query_spec(iri, limit, offset),
            "{ SELECT DISTINCT ?p ?v WHERE { <"@ + iri + "> ?p ?v }\nORDER BY ?p ?v LIMIT "@ + decimal(limit)
                + " OFFSET "@ + decimal(offset) + " }\n"@,
        ),
{
    let n = "{ SELECT DISTINCT ?p ?v WHERE { <"@ + iri + "> ?p ?v }\nORDER BY ?p ?v LIMIT "@ + decimal(limit)
        + " OFFSET "@ + decimal(offset) + " }\n"@;
    let pre = crate::domain::PREFIXES@ + "SELECT ?p ?v ?label ?labelLang WHERE {\n"@;
    let post = crate::domain::LABELS@ + "\n} ORDER BY ?p ?v"@;
    let q = crate::domain::describe_page_query_spec(iri, limit, offset);
    assert(("SELECT ?p ?v ?label ?labelLang WHERE {\n{ SELECT DISTINCT ?p ?v WHERE { <"@)
        =~= "SELECT ?p ?v ?label ?labelLang WHERE {\n"@ + "{ SELECT DISTINCT ?p ?v WHERE { <"@) by {
        reveal_strlit("SELECT ?p ?v ?label ?labelLang WHERE {\n{ SELECT DISTINCT ?p ?v WHERE { <");
        reveal_strlit("SELECT ?p ?v ?label ?labelLang WHERE {\n");
        reveal_strlit("{ SELECT DISTINCT ?p ?v WHERE { <");
    }
    assert(q =~= pre + n + post);
    lemma_infix_mid(pre, n, post);
}

/// The observation count of every cube of a listing is the number of its
/// observations: the query counts `?obs` bound under the cube's
/// observation set, grouped by cube, for the cubes asked about.
pub proof fn law_the_counts_count_the_observations(cubes: Seq<Seq<char>>)
    ensures
        crate::text::has_infix(crate::catalogue::counts_query_spec(cubes), "SELECT ?cube (COUNT(?obs) AS ?observations) WHERE {\n"@),
        crate::text::has_infix(crate::catalogue::counts_query_spec(cubes),
            "\n?cube cube:observationSet ?set . ?set cube:observation ?obs .\n} GROUP BY ?cube"@),
        crate::text::has_infix(crate::catalogue::counts_query_spec(cubes), crate::domain::values_block_spec("cube"@, cubes)),
{
    let a = "SELECT ?cube (COUNT(?obs) AS ?observations) WHERE {\n"@;
    let v = crate::domain::values_block_spec("cube"@, cubes);
    let b = "\n?cube cube:observationSet ?set . ?set cube:observation ?obs .\n} GROUP BY ?cube"@;
    let q = crate::catalogue::counts_query_spec(cubes);
    let p = crate::domain::PREFIXES@;
    assert(q =~= p + a + (v + b));
    lemma_infix_mid(p, a, v + b);
    assert(q =~= (p + a) + v + b);
    lemma_infix_mid(p + a, v, b);
    assert(q =~= (p + a + v) + b + Seq::<char>::empty());
    lemma_infix_mid(p + a + v, b, Seq::empty());
}

/// The label query of `resolve_label` asks the subject itself, and its
/// language filter admits a label without a tag (`LANG(?label) = ""`)
/// beside the five languages — an untagged name is found, and served as
/// «und».
pub proof fn law_a_label_query_admits_an_untagged_label(iri: Seq<char>)
    ensures
        crate::text::has_infix(crate::tools::resolve_query_spec(iri), "<"@ + iri + "> ?labelP ?label .\n"@),
        crate::text::has_infix(crate::tools::resolve_query_spec(iri), "FILTER(LANG(?label) = \"\" || "@),
        crate::text::has_infix(crate::tools::resolve_query_spec(iri),
            "LANG(?label) IN (\"de\", \"fr\", \"it\", \"en\", \"rm\"))"@),
{
    let q = crate::tools::resolve_query_spec(iri);
    let t = "> ?labelP ?label .\nFILTER(LANG(?label) = \"\" || LANG(?label) IN (\"de\", \"fr\", \"it\", \"en\", \"rm\"))\nBIND(LANG(?label) AS ?labelLang)\n}\n} LIMIT 30"@;
    let l3 = "> } } LIMIT 1 }\nOPTIONAL {\nVALUES ?labelP { schema:name skos:prefLabel rdfs:label }\n<"@;
    let pre = crate::domain::PREFIXES@ + "SELECT ?known ?label ?labelLang WHERE {\n{ SELECT (1 AS ?known) WHERE { { <"@ + iri
        + "> ?anyP ?anyO } UNION { ?anyS ?anyP <"@ + iri;
    assert(q =~= pre + l3 + iri + t);
    reveal_strlit("> ?labelP ?label .\nFILTER(LANG(?label) = \"\" || LANG(?label) IN (\"de\", \"fr\", \"it\", \"en\", \"rm\"))\nBIND(LANG(?label) AS ?labelLang)\n}\n} LIMIT 30");
    reveal_strlit("> } } LIMIT 1 }\nOPTIONAL {\nVALUES ?labelP { schema:name skos:prefLabel rdfs:label }\n<");
    reveal_strlit("<");
    reveal_strlit("> ?labelP ?label .\n");
    reveal_strlit("FILTER(LANG(?label) = \"\" || ");
    reveal_strlit("LANG(?label) IN (\"de\", \"fr\", \"it\", \"en\", \"rm\"))");
    let subject = "<"@ + iri + "> ?labelP ?label .\n"@;
    let at = (pre.len() + l3.len() - 1) as int;
    assert(q.subrange(at, at + subject.len()) =~= subject);
    let f = "FILTER(LANG(?label) = \"\" || "@;
    let at2 = (pre.len() + l3.len() + iri.len() + 19) as int;
    assert(q.subrange(at2, at2 + f.len()) =~= f);
    let g = "LANG(?label) IN (\"de\", \"fr\", \"it\", \"en\", \"rm\"))"@;
    let at3 = at2 + f.len();
    assert(q.subrange(at3, at3 + g.len()) =~= g);
}

} // verus!

verus! {

// --- the values of a dimension ----------------------------------------------------------

/// The key of the value a binding carries, if it carries one.
pub open spec fn binding_value_key(b: crate::json::JsonV) -> Option<Seq<char>> {
    match crate::domain::cell_spec(b, "value"@) {
        Some(c) => Some(crate::cube::value_key(c)),
        None => None,
    }
}

/// The folded value rows of a list of bindings: every value once; every
/// value a binding carries has its row; a row's count is the largest count
/// any binding of that value answers — none exceeds it, and it is one of
/// them (or 0) — so a value answered again, once per label language, is
/// counted once and not once per label.
pub proof fn law_a_value_counts_the_largest_count_it_is_answered(bs: Seq<crate::json::JsonV>)
    ensures
        ({
            let rows = crate::cube::fold_values(bs);
            &&& forall|j1: int, j2: int| 0 <= j1 < j2 < rows.len() ==> #[trigger] rows[j1].0 != #[trigger] rows[j2].0
            &&& forall|i: int| 0 <= i < bs.len() && #[trigger] binding_value_key(bs[i]) is Some
                ==> exists|j: int| 0 <= j < rows.len() && #[trigger] rows[j].0 == binding_value_key(bs[i])->0
            &&& forall|i: int, j: int| 0 <= i < bs.len() && 0 <= j < rows.len()
                && #[trigger] binding_value_key(bs[i]) == Some(#[trigger] rows[j].0)
                ==> crate::cube::count_in(bs[i]) <= rows[j].3
            &&& forall|j: int| 0 <= j < rows.len() ==> (#[trigger] rows[j]).3 == 0 || exists|i: int| 0 <= i < bs.len()
                && #[trigger] binding_value_key(bs[i]) == Some(rows[j].0) && crate::cube::count_in(bs[i]) == rows[j].3
        }),
    decreases bs.len(),
{
    let rows = crate::cube::fold_values(bs);
    if bs.len() == 0 {
        return;
    }
    let init = bs.drop_last();
    let b = bs.last();
    law_a_value_counts_the_largest_count_it_is_answered(init);
    let acc = crate::cube::fold_values(init);
    assert(rows == crate::cube::add_value(acc, b));
    assert forall|i: int| 0 <= i < init.len() implies #[trigger] bs[i] == init[i] by {}
    match crate::domain::cell_spec(b, "value"@) {
        None => {
            assert(rows == acc);
            assert(binding_value_key(b) is None);
            assert forall|i: int| 0 <= i < bs.len() && #[trigger] binding_value_key(bs[i]) is Some
                implies exists|j: int| 0 <= j < rows.len() && #[trigger] rows[j].0 == binding_value_key(bs[i])->0 by {
                assert(i < init.len());
                assert(bs[i] == init[i]);
            }
            assert forall|i: int, j: int| 0 <= i < bs.len() && 0 <= j < rows.len()
                && #[trigger] binding_value_key(bs[i]) == Some(#[trigger] rows[j].0)
                implies crate::cube::count_in(bs[i]) <= rows[j].3 by {
                assert(i < init.len());
                assert(bs[i] == init[i]);
            }
            assert forall|j: int| 0 <= j < rows.len() implies (#[trigger] rows[j]).3 == 0 || exists|i: int| 0 <= i < bs.len()
                && #[trigger] binding_value_key(bs[i]) == Some(rows[j].0) && crate::cube::count_in(bs[i]) == rows[j].3 by {
                if rows[j].3 != 0 {
                    let i = choose|i: int| 0 <= i < init.len()
                        && #[trigger] binding_value_key(init[i]) == Some(acc[j].0) && crate::cube::count_in(init[i]) == acc[j].3;
                    assert(bs[i] == init[i]);
                }
            }
        },
        Some(c) => {
            let key = crate::cube::value_key(c);
            assert(binding_value_key(b) == Some(key));
            let keys = crate::cube::row_keys(acc);
            let k = crate::text::pos_in(keys, key);
            lemma_pos_in_bounds(keys, key);
            let acc1 = if k == acc.len() { acc.push((key, c, Seq::empty(), 0u64)) } else { acc };
            let e = acc1[k];
            let n = crate::cube::count_in(b);
            let m: u64 = if n > e.3 { n } else { e.3 };
            assert(rows == acc1.update(k, (e.0, e.1, crate::domain::with_label(e.2, b, "label"@, "labelLang"@), m)));
            assert(rows.len() == acc1.len());
            assert(e.0 == key) by {
                if k < acc.len() {
                    assert(keys[k] == acc[k].0);
                }
            }
            assert(forall|j: int| 0 <= j < acc.len() ==> #[trigger] keys[j] == acc[j].0);
            assert(forall|j: int| 0 <= j < rows.len() && j != k ==> rows[j] == acc[j]);
            assert(rows[k].0 == key && rows[k].3 == m);
            // the rows' keys stay distinct
            assert forall|j1: int, j2: int| 0 <= j1 < j2 < rows.len() implies #[trigger] rows[j1].0 != #[trigger] rows[j2].0 by {
                if j2 == k && k == acc.len() {
                    assert(keys[j1] != key);
                } else if j1 == k && k == acc.len() {
                } else if j1 == k || j2 == k {
                    assert(acc[k].0 == key);
                } else {
                    assert(rows[j1] == acc[j1] && rows[j2] == acc[j2]);
                }
            }
            // a binding of a value not yet seen cannot be among the earlier ones
            assert forall|i: int| 0 <= i < init.len() && k == acc.len() implies #[trigger] binding_value_key(init[i]) != Some(key) by {
                if binding_value_key(init[i]) == Some(key) {
                    let j = choose|j: int| 0 <= j < acc.len() && #[trigger] acc[j].0 == binding_value_key(init[i])->0;
                    assert(keys[j] == key);
                }
            }
            assert forall|i: int| 0 <= i < bs.len() && #[trigger] binding_value_key(bs[i]) is Some
                implies exists|j: int| 0 <= j < rows.len() && #[trigger] rows[j].0 == binding_value_key(bs[i])->0 by {
                if i == bs.len() - 1 {
                    assert(rows[k].0 == binding_value_key(bs[i])->0);
                } else {
                    assert(bs[i] == init[i]);
                    let j = choose|j: int| 0 <= j < acc.len() && #[trigger] acc[j].0 == binding_value_key(init[i])->0;
                    if j == k {
                        assert(rows[k].0 == acc[k].0);
                    } else {
                        assert(rows[j] == acc[j]);
                    }
                }
            }
            assert forall|i: int, j: int| 0 <= i < bs.len() && 0 <= j < rows.len()
                && #[trigger] binding_value_key(bs[i]) == Some(#[trigger] rows[j].0)
                implies crate::cube::count_in(bs[i]) <= rows[j].3 by {
                if i == bs.len() - 1 {
                    if j != k {
                        assert(rows[j].0 != rows[k].0) by {
                            if j < k {
                                assert(rows[j].0 != rows[k].0);
                            } else {
                                assert(rows[k].0 != rows[j].0);
                            }
                        }
                    }
                } else {
                    assert(bs[i] == init[i]);
                    if j == k {
                        if k < acc.len() {
                            assert(binding_value_key(init[i]) == Some(acc[k].0));
                            assert(crate::cube::count_in(init[i]) <= acc[k].3);
                        }
                    } else {
                        assert(rows[j] == acc[j]);
                    }
                }
            }
            assert forall|j: int| 0 <= j < rows.len() implies (#[trigger] rows[j]).3 == 0 || exists|i: int| 0 <= i < bs.len()
                && #[trigger] binding_value_key(bs[i]) == Some(rows[j].0) && crate::cube::count_in(bs[i]) == rows[j].3 by {
                if j == k {
                    if n > e.3 {
                        assert(binding_value_key(bs[bs.len() - 1]) == Some(rows[j].0));
                    } else if e.3 != 0 {
                        assert(k < acc.len());
                        let i = choose|i: int| 0 <= i < init.len()
                            && #[trigger] binding_value_key(init[i]) == Some(acc[k].0) && crate::cube::count_in(init[i]) == acc[k].3;
                        assert(bs[i] == init[i]);
                    }
                } else if rows[j].3 != 0 {
                    assert(rows[j] == acc[j]);
                    let i = choose|i: int| 0 <= i < init.len()
                        && #[trigger] binding_value_key(init[i]) == Some(acc[j].0) && crate::cube::count_in(init[i]) == acc[j].3;
                    assert(bs[i] == init[i]);
                }
            }
        },
    }
}

} // verus!

verus! {

/// The values of a dimension that the shape does not close are counted
/// over the cube's observations: each value is what `?obs <dim>` binds,
/// its count is `COUNT(?obs)`, grouped by value (and label), and the
/// description of a subject counts its DISTINCT `?p ?v` statements.
pub proof fn law_the_value_counts_count_observations_of_the_dimension(c: Seq<char>, dim: Seq<char>, iri: Seq<char>)
    ensures
        crate::text::has_infix(crate::cube::values_query_spec(c, dim), "(COUNT(?obs) AS ?observations)"@),
        crate::text::has_infix(crate::cube::values_query_spec(c, dim),
            "<"@ + c + "> cube:observationSet ?set . ?set cube:observation ?obs .\n?obs <"@ + dim + "> ?value .\n"@),
        crate::text::has_infix(crate::cube::values_query_spec(c, dim), "} GROUP BY ?value ?label ?labelLang"@),
        crate::text::has_infix(crate::domain::describe_count_query_spec(iri),
            "SELECT (COUNT(*) AS ?total) WHERE {\n{ SELECT DISTINCT ?p ?v WHERE { <"@ + iri + "> ?p ?v } }"@),
{
    let q = crate::cube::values_query_spec(c, dim);
    let p = crate::domain::PREFIXES@;
    let a = "SELECT ?value ?label ?labelLang (COUNT(?obs) AS ?observations) WHERE {\n<"@;
    let b = "> cube:observationSet ?set . ?set cube:observation ?obs .\n?obs <"@;
    let t = "> ?value .\nOPTIONAL { VALUES ?labelP { schema:name skos:prefLabel rdfs:label }\n?value ?labelP ?label . BIND(LANG(?label) AS ?labelLang) }\n} GROUP BY ?value ?label ?labelLang ORDER BY DESC(?observations) ?value"@;
    assert(q =~= p + a + c + b + dim + t);
    reveal_strlit("SELECT ?value ?label ?labelLang (COUNT(?obs) AS ?observations) WHERE {\n<");
    reveal_strlit("> ?value .\nOPTIONAL { VALUES ?labelP { schema:name skos:prefLabel rdfs:label }\n?value ?labelP ?label . BIND(LANG(?label) AS ?labelLang) }\n} GROUP BY ?value ?label ?labelLang ORDER BY DESC(?observations) ?value");
    reveal_strlit("(COUNT(?obs) AS ?observations)");
    reveal_strlit("<");
    reveal_strlit("> ?value .\n");
    reveal_strlit("} GROUP BY ?value ?label ?labelLang");
    let n1 = "(COUNT(?obs) AS ?observations)"@;
    let at1 = (p.len() + 32) as int;
    assert(q.subrange(at1, at1 + n1.len()) =~= n1);
    let n2 = "<"@ + c + "> cube:observationSet ?set . ?set cube:observation ?obs .\n?obs <"@ + dim + "> ?value .\n"@;
    let at2 = (p.len() + a.len() - 1) as int;
    assert(q.subrange(at2, at2 + n2.len()) =~= n2);
    let n3 = "} GROUP BY ?value ?label ?labelLang"@;
    let at3 = (p.len() + a.len() + c.len() + b.len() + dim.len() + 138) as int;
    assert(q.subrange(at3, at3 + n3.len()) =~= n3);
    let dq = crate::domain::describe_count_query_spec(iri);
    let dn = "SELECT (COUNT(*) AS ?total) WHERE {\n{ SELECT DISTINCT ?p ?v WHERE { <"@ + iri + "> ?p ?v } }"@;
    reveal_strlit("> ?p ?v } }\n}");
    reveal_strlit("> ?p ?v } }");
    assert(dq =~= p + dn + "\n}"@) by {
        reveal_strlit("\n}");
    }
    lemma_infix_mid(p, dn, "\n}"@);
}

} // verus!
