//! The semantic fixture store: a recorded answer lives under the first
//! eight bytes of its key's SHA-256, and `INDEX.txt` says which key that
//! file holds and on which day it was recorded. The files themselves are
//! read and written by the embedding program; what is decided here is
//! the name, the index line and how an index is rewritten.

use vstd::prelude::*;
use vstd::string::StringExecFns;
use vstd::string::StrSliceExecFns;
use sha2::Digest;

use crate::text::{
    after_last, after_last_index_of, before_char, chars_of, first_index_of, has_prefix,
    lemma_before_char, push_char, slice_string, starts_with, str_eq, views,
};

verus! {

/// What SHA-256 answers for a byte string.
pub uninterp spec fn sha256_digest(data: Seq<u8>) -> Seq<u8>;

/// `sha2::Sha256::digest`: the 32-byte SHA-256 of `data`.
#[verifier::external_body]
fn sha256(data: &[u8]) -> (r: Vec<u8>)
    ensures
        r@ == sha256_digest(data@),
        r@.len() == 32,
{
    sha2::Sha256::digest(data).to_vec()
}

/// One lower-case hex digit.
pub open spec fn hex_digit(n: nat) -> char {
    if n < 10 {
        ((n + 48) as u8) as char
    } else {
        ((n + 87) as u8) as char
    }
}

/// `{b:02x}` for every byte, in order.
pub open spec fn hex_of(bytes: Seq<u8>) -> Seq<char>
    decreases bytes.len(),
{
    if bytes.len() == 0 {
        Seq::empty()
    } else {
        hex_of(bytes.drop_last()) + seq![
            hex_digit((bytes.last() / 16) as nat),
            hex_digit((bytes.last() % 16) as nat),
        ]
    }
}

fn hex_char(n: u8) -> (c: char)
    requires
        n < 16,
    ensures
        c == hex_digit(n as nat),
{
    if n < 10 {
        (n + 48) as char
    } else {
        (n + 87) as char
    }
}

/// The name a key's answer is filed under: the first eight bytes of the
/// SHA-256 of the key's UTF-8 text, hex, then `.json`.
pub open spec fn fixture_name_spec(key: Seq<char>) -> Seq<char> {
    hex_of(sha256_digest(vstd::utf8::encode_utf8(key)).take(8)) + ".json"@
}

/// The file name of an answer whose key hashes to `digest`: its first
/// eight bytes, hex, then `.json`.
pub fn digest_file_name(digest: &[u8]) -> (r: String)
    requires
        digest@.len() >= 8,
    ensures
        r@ == hex_of(digest@.take(8)) + ".json"@,
{
    let mut name = String::new();
    let mut i: usize = 0;
    assert(digest@.take(0) =~= Seq::<u8>::empty());
    while i < 8
        invariant
            0 <= i <= 8,
            digest@.len() >= 8,
            name@ == hex_of(digest@.take(i as int)),
        decreases 8 - i,
    {
        let b = digest[i];
        push_char(&mut name, hex_char(b / 16));
        push_char(&mut name, hex_char(b % 16));
        assert(digest@.take(i + 1).drop_last() =~= digest@.take(i as int));
        i = i + 1;
        assert(name@ =~= hex_of(digest@.take(i as int)));
    }
    name.append(".json");
    name
}

/// The file name a fixture key is stored under. A function of the KEY
/// and of nothing else.
pub fn fixture_file_name(key: &str) -> (r: String)
    ensures
        r@ == fixture_name_spec(key@),
{
    let digest = sha256(key.as_bytes());
    digest_file_name(digest.as_slice())
}

/// The KEY of one `INDEX.txt` line: everything between the first space
/// and the last one, when that is not empty.
pub open spec fn key_of_spec(line: Seq<char>) -> Option<Seq<char>> {
    if !line.contains(' ') {
        None
    } else {
        let rest = line.skip(before_char(line, ' ').len() + 1 as int);
        if !rest.contains(' ') {
            None
        } else {
            let key = rest.take(rest.len() - after_last(rest, ' ').len() - 1);
            if key.len() > 0 {
                Some(key)
            } else {
                None
            }
        }
    }
}

/// The KEY of one `INDEX.txt` line — the parser, not the writer. The
/// format is `<file> <key> <recorded>`; the file name and the date are
/// single tokens, so the key is everything between them, however many
/// spaces it carries. `None` for a line that is not of that shape.
pub fn key_of(line: &str) -> (r: Option<&str>)
    ensures
        r is None <==> key_of_spec(line@) is None,
        r matches Some(k) ==> key_of_spec(line@) == Some(k@),
{
    let mut v = chars_of(line);
    let i = first_index_of(&v, ' ');
    if i == v.len() {
        assert(!line@.contains(' '));
        return None;
    }
    assert(line@.contains(' ') && line@[i as int] == ' ');
    let ghost rest = line@.skip(i + 1);
    let rv = v.split_off(i + 1);
    assert(rv@ =~= rest);
    let k = after_last_index_of(&rv, ' ');
    if k == 0 {
        assert(!rest.contains(' '));
        return None;
    }
    assert(rest.contains(' ') && rest[k - 1] == ' ');
    if k - 1 == 0 {
        return None;
    }
    let key = line.substring_char(i + 1, i + k);
    assert(key@ =~= rest.take(rest.len() - after_last(rest, ' ').len() - 1));
    Some(key)
}

/// The lines of a text as `str::lines` yields them: split at `\n`, a
/// `\r` before a `\n` dropped, and no empty line after a final `\n`.
pub open spec fn split_lines(s: Seq<char>) -> Seq<Seq<char>>
    decreases s.len(),
{
    if s.len() == 0 {
        Seq::empty()
    } else {
        let k = before_char(s, '\n').len();
        if k >= s.len() {
            seq![s]
        } else {
            let piece = s.take(k as int);
            let piece = if piece.len() > 0 && piece.last() == '\r' {
                piece.drop_last()
            } else {
                piece
            };
            seq![piece] + split_lines(s.skip(k + 1 as int))
        }
    }
}

proof fn lemma_split_step(s: Seq<char>, start: int, p: int)
    requires
        0 <= start <= p < s.len(),
        s[p] == '\n',
        forall|j: int| start <= j < p ==> s[j] != '\n',
    ensures
        split_lines(s.skip(start)) == seq![
            if p > start && s[p - 1] == '\r' {
                s.subrange(start, p - 1)
            } else {
                s.subrange(start, p)
            },
        ] + split_lines(s.skip(p + 1)),
{
    let t = s.skip(start);
    assert forall|j: int| 0 <= j < p - start implies t[j] != '\n' by {
        assert(t[j] == s[start + j]);
    }
    lemma_before_char(t, '\n', p - start);
    assert(t.skip(p - start + 1) =~= s.skip(p + 1));
    assert(t.take(p - start) =~= s.subrange(start, p));
    if p > start && s[p - 1] == '\r' {
        assert(s.subrange(start, p).drop_last() =~= s.subrange(start, p - 1));
    }
}

proof fn lemma_split_last(s: Seq<char>, start: int)
    requires
        0 <= start <= s.len(),
        forall|j: int| start <= j < s.len() ==> s[j] != '\n',
    ensures
        split_lines(s.skip(start)) == if start == s.len() {
            Seq::<Seq<char>>::empty()
        } else {
            seq![s.skip(start)]
        },
{
    let t = s.skip(start);
    if start < s.len() {
        assert forall|j: int| 0 <= j < t.len() implies t[j] != '\n' by {
            assert(t[j] == s[start + j]);
        }
        lemma_before_char(t, '\n', t.len() as int);
    }
}

/// `str::lines`.
pub fn lines_of(text: &str) -> (r: Vec<String>)
    ensures
        views(r@) == split_lines(text@),
{
    let v = chars_of(text);
    let mut r: Vec<String> = Vec::new();
    let mut start: usize = 0;
    let mut p: usize = 0;
    assert(v@.skip(0) =~= v@);
    assert(views(r@) =~= Seq::<Seq<char>>::empty());
    assert(split_lines(v@) =~= views(r@) + split_lines(v@.skip(0)));
    while p < v.len()
        invariant
            0 <= start <= p <= v@.len(),
            v@ == text@,
            forall|j: int| start <= j < p ==> v@[j] != '\n',
            split_lines(v@) == views(r@) + split_lines(v@.skip(start as int)),
        decreases v@.len() - p,
    {
        if v[p] == '\n' {
            proof {
                lemma_split_step(v@, start as int, p as int);
            }
            let end = if p > start && v[p - 1] == '\r' { p - 1 } else { p };
            let piece = slice_string(&v, start, end);
            let ghost old_r = r@;
            r.push(piece);
            assert(views(r@) =~= views(old_r).push(piece@));
            assert(split_lines(v@) =~= views(r@) + split_lines(v@.skip(p + 1)));
            start = p + 1;
        }
        p = p + 1;
    }
    proof {
        lemma_split_last(v@, start as int);
        assert(v@.skip(0) =~= v@);
    }
    if start < v.len() {
        let piece = slice_string(&v, start, v.len());
        let ghost old_r = r@;
        r.push(piece);
        assert(views(r@) =~= views(old_r).push(piece@));
        assert(v@.subrange(start as int, v@.len() as int) =~= v@.skip(start as int));
        assert(split_lines(v@) =~= views(r@));
    } else {
        assert(split_lines(v@) =~= views(r@));
    }
    r
}

/// The text cut after every `\n`: each piece keeps its line ending (and a
/// `\r` before it); a last piece without one stands as it is.
pub open spec fn split_pieces(s: Seq<char>) -> Seq<Seq<char>>
    decreases s.len(),
{
    if s.len() == 0 {
        Seq::empty()
    } else {
        let k = before_char(s, '\n').len();
        if k >= s.len() {
            seq![s]
        } else {
            seq![s.take(k + 1 as int)] + split_pieces(s.skip(k + 1 as int))
        }
    }
}

/// The line a piece holds, as `str::lines` yields it: the `\n` and a `\r`
/// before it taken off.
pub open spec fn line_of(piece: Seq<char>) -> Seq<char> {
    if piece.len() > 0 && piece.last() == '\n' {
        let l = piece.drop_last();
        if l.len() > 0 && l.last() == '\r' {
            l.drop_last()
        } else {
            l
        }
    } else {
        piece
    }
}

/// The lines of a text are the lines of its pieces.
pub proof fn lemma_lines_of_pieces(s: Seq<char>)
    ensures
        split_lines(s) == split_pieces(s).map_values(|p: Seq<char>| line_of(p)),
    decreases s.len(),
{
    if s.len() == 0 {
        assert(split_lines(s) =~= split_pieces(s).map_values(|p: Seq<char>| line_of(p)));
    } else {
        let k = before_char(s, '\n').len();
        crate::text::lemma_before_char_prefix(s, '\n');
        if k < s.len() {
            lemma_lines_of_pieces(s.skip(k + 1 as int));
            let piece = s.take(k + 1 as int);
            assert(piece.drop_last() =~= s.take(k as int));
            assert(piece.last() == '\n');
            assert(split_lines(s) =~= split_pieces(s).map_values(|p: Seq<char>| line_of(p)));
        } else {
            assert(s[s.len() - 1] != '\n');
            assert(split_lines(s) =~= split_pieces(s).map_values(|p: Seq<char>| line_of(p)));
        }
    }
}

proof fn lemma_piece_step(s: Seq<char>, start: int, p: int)
    requires
        0 <= start <= p < s.len(),
        s[p] == '\n',
        forall|j: int| start <= j < p ==> s[j] != '\n',
    ensures
        split_pieces(s.skip(start)) == seq![s.subrange(start, p + 1)] + split_pieces(s.skip(p + 1)),
{
    let t = s.skip(start);
    assert forall|j: int| 0 <= j < p - start implies t[j] != '\n' by {
        assert(t[j] == s[start + j]);
    }
    lemma_before_char(t, '\n', p - start);
    assert(t.skip(p - start + 1) =~= s.skip(p + 1));
    assert(t.take(p - start + 1) =~= s.subrange(start, p + 1));
}

proof fn lemma_piece_last(s: Seq<char>, start: int)
    requires
        0 <= start <= s.len(),
        forall|j: int| start <= j < s.len() ==> s[j] != '\n',
    ensures
        split_pieces(s.skip(start)) == if start == s.len() {
            Seq::<Seq<char>>::empty()
        } else {
            seq![s.skip(start)]
        },
{
    let t = s.skip(start);
    if start < s.len() {
        assert forall|j: int| 0 <= j < t.len() implies t[j] != '\n' by {
            assert(t[j] == s[start + j]);
        }
        lemma_before_char(t, '\n', t.len() as int);
    }
}

/// The pieces of a text, each with its line ending.
pub fn pieces_of(text: &str) -> (r: Vec<String>)
    ensures
        views(r@) == split_pieces(text@),
{
    let v = chars_of(text);
    let mut r: Vec<String> = Vec::new();
    let mut start: usize = 0;
    let mut p: usize = 0;
    assert(v@.skip(0) =~= v@);
    assert(views(r@) =~= Seq::<Seq<char>>::empty());
    assert(split_pieces(v@) =~= views(r@) + split_pieces(v@.skip(0)));
    while p < v.len()
        invariant
            0 <= start <= p <= v@.len(),
            v@ == text@,
            forall|j: int| start <= j < p ==> v@[j] != '\n',
            split_pieces(v@) == views(r@) + split_pieces(v@.skip(start as int)),
        decreases v@.len() - p,
    {
        if v[p] == '\n' {
            proof {
                lemma_piece_step(v@, start as int, p as int);
            }
            let piece = slice_string(&v, start, p + 1);
            let ghost old_r = r@;
            r.push(piece);
            assert(views(r@) =~= views(old_r).push(piece@));
            assert(split_pieces(v@) =~= views(r@) + split_pieces(v@.skip(p + 1)));
            start = p + 1;
        }
        p = p + 1;
    }
    proof {
        lemma_piece_last(v@, start as int);
    }
    if start < v.len() {
        let piece = slice_string(&v, start, v.len());
        let ghost old_r = r@;
        r.push(piece);
        assert(views(r@) =~= views(old_r).push(piece@));
        assert(v@.subrange(start as int, v@.len() as int) =~= v@.skip(start as int));
        assert(split_pieces(v@) =~= views(r@));
    } else {
        assert(split_pieces(v@) =~= views(r@));
    }
    r
}

/// The line a piece holds.
pub fn line_of_piece(piece: &str) -> (r: String)
    ensures
        r@ == line_of(piece@),
{
    let v = chars_of(piece);
    let n = v.len();
    if n > 0 && v[n - 1] == '\n' {
        let m = if n - 1 > 0 && v[n - 2] == '\r' { n - 2 } else { n - 1 };
        let r = slice_string(&v, 0, m);
        assert(v@.drop_last() =~= v@.subrange(0, n - 1));
        proof {
            if m as int == n as int - 2 {
                assert(v@.drop_last().drop_last() =~= v@.subrange(0, m as int));
            }
        }
        r
    } else {
        let r = slice_string(&v, 0, n);
        assert(v@.subrange(0, n as int) =~= v@);
        r
    }
}

/// A note written back: as it stood, line ending included; a last note
/// without one gets `\n`.
pub open spec fn note_piece(piece: Seq<char>) -> Seq<char> {
    if piece.len() > 0 && piece.last() == '\n' {
        piece
    } else {
        piece + "\n"@
    }
}

/// The `INDEX.txt` line of a recording.
pub open spec fn index_entry(name: Seq<char>, key: Seq<char>, day: Seq<char>) -> Seq<char> {
    name + " "@ + key + " "@ + day
}

/// The index pieces rewritten for `key`: a note (`#…`) is carried through
/// as it stood, line ending included; the line of the same key becomes
/// `entry`; every other line stays. The flag says whether the key had a
/// line.
pub open spec fn rewrite_index(pieces: Seq<Seq<char>>, key: Seq<char>, entry: Seq<char>) -> (Seq<char>, bool)
    decreases pieces.len(),
{
    if pieces.len() == 0 {
        (Seq::empty(), false)
    } else {
        let (out, replaced) = rewrite_index(pieces.drop_last(), key, entry);
        let old = pieces.last();
        let line = line_of(old);
        if has_prefix(line, "#"@) {
            (out + note_piece(old), replaced)
        } else if key_of_spec(line) == Some(key) {
            (out + entry + "\n"@, true)
        } else {
            (out + line + "\n"@, replaced)
        }
    }
}

/// The whole new `INDEX.txt`: the rewritten lines, and the entry
/// appended when the key had no line yet.
pub open spec fn index_text_spec(existing: Seq<char>, name: Seq<char>, key: Seq<char>, day: Seq<char>) -> Seq<char> {
    let entry = index_entry(name, key, day);
    let (out, replaced) = rewrite_index(split_pieces(existing), key, entry);
    if replaced {
        out
    } else {
        out + entry + "\n"@
    }
}

/// Does the piece end with its line ending?
fn ends_with_newline(piece: &str) -> (b: bool)
    ensures
        b == (piece@.len() > 0 && piece@.last() == '\n'),
{
    let v = chars_of(piece);
    v.len() > 0 && v[v.len() - 1] == '\n'
}

/// The new text of `INDEX.txt` after the key `key` was recorded into the
/// file `name` on `day`: a key recorded again keeps its line, with the
/// new date — replacing it rather than appending beside it — and notes
/// are carried through untouched.
pub fn index_text(existing: &str, name: &str, key: &str, day: &str) -> (r: String)
    ensures
        r@ == index_text_spec(existing@, name@, key@, day@),
{
    let mut entry = String::from_str(name);
    entry.append(" ");
    entry.append(key);
    entry.append(" ");
    entry.append(day);
    let pieces = pieces_of(existing);
    let mut out = String::new();
    let mut replaced = false;
    let mut i: usize = 0;
    while i < pieces.len()
        invariant
            0 <= i <= pieces@.len(),
            views(pieces@) == split_pieces(existing@),
            entry@ == index_entry(name@, key@, day@),
            (out@, replaced) == rewrite_index(views(pieces@).take(i as int), key@, entry@),
        decreases pieces@.len() - i,
    {
        let piece = pieces[i].as_str();
        assert(views(pieces@).take(i + 1).drop_last() =~= views(pieces@).take(i as int));
        assert(views(pieces@).take(i + 1).last() == piece@);
        let line = line_of_piece(piece);
        let old = line.as_str();
        if starts_with(old, "#") {
            out.append(piece);
            if !ends_with_newline(piece) {
                out.append("\n");
            }
        } else {
            let same = match key_of(old) {
                Some(k) => str_eq(k, key),
                None => false,
            };
            if same {
                out.append(entry.as_str());
                out.append("\n");
                replaced = true;
            } else {
                out.append(old);
                out.append("\n");
            }
        }
        i = i + 1;
    }
    assert(views(pieces@).take(pieces@.len() as int) =~= views(pieces@));
    if !replaced {
        out.append(entry.as_str());
        out.append("\n");
    }
    out
}

} // verus!
