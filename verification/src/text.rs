//! Character-level text helpers shared by every module: strings are
//! reasoned about through their `Seq<char>` view.

use vstd::prelude::*;
use vstd::string::StringExecFns;

verus! {

/// The characters of a string slice, in order.
pub fn chars_of(s: &str) -> (v: Vec<char>)
    ensures
        v@ == s@,
{
    let mut v: Vec<char> = Vec::new();
    for c in it: s.chars()
        invariant
            v@ == it.seq().take(it.index() as int),
            it.seq() == s@,
    {
        v.push(c);
    }
    v
}

/// Appends one character (std `String::push`).
#[verifier::external_body]
pub(crate) fn push_char(s: &mut String, c: char)
    ensures
        final(s)@ == old(s)@.push(c),
{
    s.push(c);
}

/// A string holding exactly the given characters.
pub fn string_of(v: &[char]) -> (s: String)
    ensures
        s@ == v@,
{
    let mut s = String::new();
    let mut i: usize = 0;
    while i < v.len()
        invariant
            0 <= i <= v@.len(),
            s@ == v@.take(i as int),
        decreases v@.len() - i,
    {
        push_char(&mut s, v[i]);
        i = i + 1;
        assert(s@ =~= v@.take(i as int));
    }
    assert(v@.take(v@.len() as int) =~= v@);
    s
}

/// `a + b` as a new string.
pub fn concat(a: &str, b: &str) -> (s: String)
    ensures
        s@ == a@ + b@,
{
    let mut s = String::from_str(a);
    s.append(b);
    s
}

} // verus!

verus! {

/// `p` is a prefix of `s`.
pub open spec fn has_prefix(s: Seq<char>, p: Seq<char>) -> bool {
    p.len() <= s.len() && s.take(p.len() as int) == p
}

/// `p` is a suffix of `s`.
pub open spec fn has_suffix(s: Seq<char>, p: Seq<char>) -> bool {
    p.len() <= s.len() && s.skip(s.len() - p.len()) == p
}

/// `needle` occurs somewhere in `s` as a contiguous run.
pub open spec fn has_infix(s: Seq<char>, needle: Seq<char>) -> bool {
    exists|i: int| 0 <= i <= s.len() - needle.len() && #[trigger] s.subrange(i, i + needle.len()) == needle
}

/// Does `s` start with `p`?
pub fn starts_with(s: &str, p: &str) -> (b: bool)
    ensures
        b == has_prefix(s@, p@),
{
    let sv = chars_of(s);
    let pv = chars_of(p);
    if pv.len() > sv.len() {
        return false;
    }
    let mut i: usize = 0;
    while i < pv.len()
        invariant
            pv@.len() <= sv@.len(),
            0 <= i <= pv@.len(),
            sv@ == s@,
            pv@ == p@,
            forall|k: int| 0 <= k < i ==> sv@[k] == pv@[k],
        decreases pv@.len() - i,
    {
        if sv[i] != pv[i] {
            assert(s@.take(p@.len() as int)[i as int] != p@[i as int]);
            return false;
        }
        i = i + 1;
    }
    assert(s@.take(p@.len() as int) =~= p@);
    true
}

/// Does `s` end with `p`?
pub fn ends_with(s: &str, p: &str) -> (b: bool)
    ensures
        b == has_suffix(s@, p@),
{
    let sv = chars_of(s);
    let pv = chars_of(p);
    if pv.len() > sv.len() {
        return false;
    }
    let off = sv.len() - pv.len();
    let mut i: usize = 0;
    while i < pv.len()
        invariant
            pv@.len() <= sv@.len(),
            off == sv@.len() - pv@.len(),
            sv@.len() <= usize::MAX,
            0 <= i <= pv@.len(),
            sv@ == s@,
            pv@ == p@,
            forall|k: int| 0 <= k < i ==> sv@[off + k] == pv@[k],
        decreases pv@.len() - i,
    {
        if sv[off + i] != pv[i] {
            assert(s@.skip(off as int)[i as int] != p@[i as int]);
            return false;
        }
        i = i + 1;
    }
    assert(s@.skip(off as int) =~= p@);
    true
}

/// The characters of `s` from `from` (inclusive) to `to` (exclusive).
pub fn slice_string(s: &[char], from: usize, to: usize) -> (r: String)
    requires
        from <= to <= s@.len(),
    ensures
        r@ == s@.subrange(from as int, to as int),
{
    let mut r = String::new();
    let mut i: usize = from;
    while i < to
        invariant
            from <= i <= to <= s@.len(),
            r@ == s@.subrange(from as int, i as int),
        decreases to - i,
    {
        push_char(&mut r, s[i]);
        i = i + 1;
        assert(r@ =~= s@.subrange(from as int, i as int));
    }
    r
}

/// `s` without the prefix `p`, when it carries it.
pub fn strip_prefix(s: &str, p: &str) -> (r: Option<String>)
    ensures
        r is Some <==> has_prefix(s@, p@),
        r matches Some(rest) ==> rest@ == s@.skip(p@.len() as int),
{
    if starts_with(s, p) {
        let sv = chars_of(s);
        let n = p.unicode_len();
        Some(slice_string(&sv, n, sv.len()))
    } else {
        None
    }
}

/// `s` without the suffix `p`, when it carries it.
pub fn strip_suffix(s: &str, p: &str) -> (r: Option<String>)
    ensures
        r is Some <==> has_suffix(s@, p@),
        r matches Some(rest) ==> rest@ == s@.take(s@.len() - p@.len()),
{
    if ends_with(s, p) {
        let sv = chars_of(s);
        let n = p.unicode_len();
        Some(slice_string(&sv, 0, sv.len() - n))
    } else {
        None
    }
}

/// Does `s` hold `c` anywhere?
pub fn has_char(s: &[char], c: char) -> (b: bool)
    ensures
        b == s@.contains(c),
{
    let mut i: usize = 0;
    while i < s.len()
        invariant
            0 <= i <= s@.len(),
            forall|k: int| 0 <= k < i ==> s@[k] != c,
        decreases s@.len() - i,
    {
        if s[i] == c {
            assert(s@[i as int] == c);
            return true;
        }
        i = i + 1;
    }
    false
}

/// Does `needle` occur in `s`?
pub fn contains_str(s: &str, needle: &str) -> (b: bool)
    ensures
        b == has_infix(s@, needle@),
{
    let sv = chars_of(s);
    let nv = chars_of(needle);
    if nv.len() > sv.len() {
        return false;
    }
    if nv.len() == 0 {
        assert(s@.subrange(0, 0 + needle@.len() as int) =~= needle@);
        return true;
    }
    let last = sv.len() - nv.len();
    let mut i: usize = 0;
    while i <= last
        invariant
            nv@.len() <= sv@.len(),
            last == sv@.len() - nv@.len(),
            nv@.len() > 0,
            sv@.len() <= usize::MAX,
            0 <= i <= last + 1,
            sv@ == s@,
            nv@ == needle@,
            forall|k: int| 0 <= k < i ==> #[trigger] s@.subrange(k, k + nv@.len()) != needle@,
        decreases last + 1 - i,
    {
        let mut j: usize = 0;
        let mut same = true;
        while j < nv.len()
            invariant
                nv@.len() <= sv@.len(),
                i <= last,
                last == sv@.len() - nv@.len(),
                sv@.len() <= usize::MAX,
                0 <= j <= nv@.len(),
                same ==> forall|k: int| 0 <= k < j ==> sv@[i + k] == nv@[k],
                !same ==> s@.subrange(i as int, i + nv@.len()) != needle@,
                sv@ == s@,
                nv@ == needle@,
            decreases nv@.len() - j,
        {
            if same && sv[i + j] != nv[j] {
                same = false;
                assert(s@.subrange(i as int, i + nv@.len())[j as int] != needle@[j as int]);
            }
            j = j + 1;
        }
        if same {
            assert(s@.subrange(i as int, i + nv@.len()) =~= needle@);
            return true;
        }
        i = i + 1;
    }
    false
}

} // verus!

verus! {

/// Do two strings hold the same characters?
pub fn str_eq(a: &str, b: &str) -> (r: bool)
    ensures
        r == (a@ == b@),
{
    let av = chars_of(a);
    let bv = chars_of(b);
    if av.len() != bv.len() {
        return false;
    }
    let mut i: usize = 0;
    while i < av.len()
        invariant
            av@.len() == bv@.len(),
            av@ == a@,
            bv@ == b@,
            0 <= i <= av@.len(),
            forall|k: int| 0 <= k < i ==> av@[k] == bv@[k],
        decreases av@.len() - i,
    {
        if av[i] != bv[i] {
            assert(a@[i as int] != b@[i as int]);
            return false;
        }
        i = i + 1;
    }
    assert(av@ =~= bv@);
    true
}

/// The characters of `s` before the first `c` (all of `s` when it holds none).
pub open spec fn before_char(s: Seq<char>, c: char) -> Seq<char>
    decreases s.len(),
{
    if s.len() == 0 {
        s
    } else if s[0] == c {
        Seq::empty()
    } else {
        seq![s[0]] + before_char(s.drop_first(), c)
    }
}

/// The characters of `s` after its last `c` (all of `s` when it holds none).
pub open spec fn after_last(s: Seq<char>, c: char) -> Seq<char>
    decreases s.len(),
{
    if s.len() == 0 {
        s
    } else if s.last() == c {
        Seq::empty()
    } else {
        after_last(s.drop_last(), c).push(s.last())
    }
}

pub proof fn lemma_before_char(s: Seq<char>, c: char, k: int)
    requires
        0 <= k <= s.len(),
        forall|j: int| 0 <= j < k ==> s[j] != c,
        k == s.len() || s[k] == c,
    ensures
        before_char(s, c) == s.take(k),
    decreases s.len(),
{
    if s.len() == 0 {
        assert(s.take(k) =~= s);
    } else if s[0] == c {
        assert(k == 0);
        assert(s.take(k) =~= Seq::<char>::empty());
    } else {
        assert(k > 0);
        let t = s.drop_first();
        assert forall|j: int| 0 <= j < k - 1 implies t[j] != c by {
            assert(t[j] == s[j + 1]);
        }
        lemma_before_char(t, c, k - 1);
        assert(seq![s[0]] + t.take(k - 1) =~= s.take(k));
    }
}

/// `before_char` is the prefix of `s` up to its first `c`.
pub proof fn lemma_before_char_prefix(s: Seq<char>, c: char)
    ensures
        before_char(s, c).len() <= s.len(),
        before_char(s, c) == s.take(before_char(s, c).len() as int),
        forall|j: int| 0 <= j < before_char(s, c).len() ==> s[j] != c,
        before_char(s, c).len() < s.len() ==> s[before_char(s, c).len() as int] == c,
    decreases s.len(),
{
    if s.len() == 0 {
        assert(s.take(0) =~= s);
    } else if s[0] == c {
        assert(s.take(0) =~= Seq::<char>::empty());
    } else {
        let t = s.drop_first();
        lemma_before_char_prefix(t, c);
        assert(before_char(s, c) =~= seq![s[0]] + before_char(t, c));
        assert(seq![s[0]] + t.take(before_char(t, c).len() as int) =~= s.take(before_char(s, c).len() as int));
        assert forall|j: int| 0 <= j < before_char(s, c).len() implies s[j] != c by {
            if j > 0 {
                assert(s[j] == t[j - 1]);
            }
        }
        if before_char(s, c).len() < s.len() {
            assert(s[before_char(s, c).len() as int] == t[before_char(t, c).len() as int]);
        }
    }
}

pub proof fn lemma_after_last(s: Seq<char>, c: char, k: int)
    requires
        0 <= k <= s.len(),
        forall|j: int| k <= j < s.len() ==> s[j] != c,
        k == 0 || s[k - 1] == c,
    ensures
        after_last(s, c) == s.skip(k),
    decreases s.len(),
{
    if s.len() == 0 {
        assert(s.skip(k) =~= s);
    } else if s.last() == c {
        assert(k == s.len());
        assert(s.skip(k) =~= Seq::<char>::empty());
    } else {
        assert(k < s.len());
        let t = s.drop_last();
        lemma_after_last(t, c, k);
        assert(t.skip(k).push(s.last()) =~= s.skip(k));
    }
}

/// The index of the first `c` in `s`, or its length when it holds none.
pub fn first_index_of(s: &[char], c: char) -> (k: usize)
    ensures
        k <= s@.len(),
        forall|j: int| 0 <= j < k ==> s@[j] != c,
        k == s@.len() || s@[k as int] == c,
        before_char(s@, c) == s@.take(k as int),
{
    let mut k: usize = 0;
    while k < s.len() && s[k] != c
        invariant
            k <= s@.len(),
            forall|j: int| 0 <= j < k ==> s@[j] != c,
        decreases s@.len() - k,
    {
        k = k + 1;
    }
    proof {
        lemma_before_char(s@, c, k as int);
    }
    k
}

/// The index just after the last `c` in `s`, or 0 when it holds none.
pub fn after_last_index_of(s: &[char], c: char) -> (k: usize)
    ensures
        k <= s@.len(),
        forall|j: int| k <= j < s@.len() ==> s@[j] != c,
        k == 0 || s@[k - 1] == c,
        after_last(s@, c) == s@.skip(k as int),
{
    let mut k: usize = s.len();
    while k > 0 && s[k - 1] != c
        invariant
            k <= s@.len(),
            forall|j: int| k <= j < s@.len() ==> s@[j] != c,
        decreases k,
    {
        k = k - 1;
    }
    proof {
        lemma_after_last(s@, c, k as int);
    }
    k
}

/// Every character is an ASCII digit.
pub open spec fn all_ascii_digits(s: Seq<char>) -> bool {
    forall|i: int| 0 <= i < s.len() ==> '0' <= #[trigger] s[i] <= '9'
}

pub fn is_all_ascii_digits(s: &[char]) -> (b: bool)
    ensures
        b == all_ascii_digits(s@),
{
    let mut i: usize = 0;
    while i < s.len()
        invariant
            0 <= i <= s@.len(),
            forall|k: int| 0 <= k < i ==> '0' <= #[trigger] s@[k] <= '9',
        decreases s@.len() - i,
    {
        if !('0' <= s[i] && s[i] <= '9') {
            return false;
        }
        i = i + 1;
    }
    true
}

/// The views of a list of strings.
pub open spec fn views(v: Seq<String>) -> Seq<Seq<char>> {
    v.map_values(|s: String| s@)
}

} // verus!

verus! {

/// `char::is_whitespace`: the Unicode `White_Space` property.
pub open spec fn is_ws(c: char) -> bool {
    ('\u{9}' <= c && c <= '\u{d}') || c == ' ' || c == '\u{85}' || c == '\u{a0}' || c == '\u{1680}'
        || ('\u{2000}' <= c && c <= '\u{200a}') || c == '\u{2028}' || c == '\u{2029}' || c
        == '\u{202f}' || c == '\u{205f}' || c == '\u{3000}'
}

pub fn is_whitespace(c: char) -> (b: bool)
    ensures
        b == is_ws(c),
{
    ('\u{9}' <= c && c <= '\u{d}') || c == ' ' || c == '\u{85}' || c == '\u{a0}' || c == '\u{1680}'
        || ('\u{2000}' <= c && c <= '\u{200a}') || c == '\u{2028}' || c == '\u{2029}' || c
        == '\u{202f}' || c == '\u{205f}' || c == '\u{3000}'
}

/// The line-ending and byte-order marks an answer's CSV or JSON may carry.
pub open spec fn is_line_mark(c: char) -> bool {
    c == '\r' || c == '\n' || c == '\u{feff}'
}

/// The predicate a trim strips: whitespace (`true`) or line marks (`false`).
pub open spec fn trim_pred(ws: bool) -> spec_fn(char) -> bool {
    if ws {
        |c: char| is_ws(c)
    } else {
        |c: char| is_line_mark(c)
    }
}

fn trims(c: char, ws: bool) -> (b: bool)
    ensures
        b == trim_pred(ws)(c),
{
    if ws {
        is_whitespace(c)
    } else {
        c == '\r' || c == '\n' || c == '\u{feff}'
    }
}

/// How many leading characters of `s` satisfy `p`.
pub open spec fn lead(s: Seq<char>, p: spec_fn(char) -> bool) -> nat
    decreases s.len(),
{
    if s.len() > 0 && p(s[0]) {
        1 + lead(s.drop_first(), p)
    } else {
        0
    }
}

/// How many trailing characters of `s` satisfy `p`.
pub open spec fn trail(s: Seq<char>, p: spec_fn(char) -> bool) -> nat
    decreases s.len(),
{
    if s.len() > 0 && p(s.last()) {
        1 + trail(s.drop_last(), p)
    } else {
        0
    }
}

/// `s` with its leading and trailing characters that satisfy `p` removed.
pub open spec fn trim_by(s: Seq<char>, p: spec_fn(char) -> bool) -> Seq<char> {
    if lead(s, p) >= s.len() {
        Seq::empty()
    } else {
        s.subrange(lead(s, p) as int, s.len() - trail(s, p))
    }
}

/// `str::trim`.
pub open spec fn trim_ws(s: Seq<char>) -> Seq<char> {
    trim_by(s, trim_pred(true))
}

pub proof fn lemma_lead(s: Seq<char>, p: spec_fn(char) -> bool, k: int)
    requires
        0 <= k <= s.len(),
        forall|j: int| 0 <= j < k ==> p(s[j]),
        k == s.len() || !p(s[k]),
    ensures
        lead(s, p) == k,
    decreases s.len(),
{
    if s.len() > 0 && p(s[0]) {
        let t = s.drop_first();
        assert forall|j: int| 0 <= j < k - 1 implies p(t[j]) by {
            assert(t[j] == s[j + 1]);
        }
        if k - 1 < t.len() {
            assert(t[k - 1] == s[k]);
        }
        lemma_lead(t, p, k - 1);
    }
}

pub proof fn lemma_trail(s: Seq<char>, p: spec_fn(char) -> bool, k: int)
    requires
        0 <= k <= s.len(),
        forall|j: int| s.len() - k <= j < s.len() ==> p(s[j]),
        k == s.len() || !p(s[s.len() - k - 1]),
    ensures
        trail(s, p) == k,
    decreases s.len(),
{
    if s.len() > 0 && p(s.last()) {
        let t = s.drop_last();
        lemma_trail(t, p, k - 1);
    }
}

/// `s` without its leading and trailing whitespace (`ws`) or line marks.
pub fn trim_chars(s: &str, ws: bool) -> (r: String)
    ensures
        r@ == trim_by(s@, trim_pred(ws)),
{
    let v = chars_of(s);
    let ghost p = trim_pred(ws);
    let mut a: usize = 0;
    while a < v.len() && trims(v[a], ws)
        invariant
            a <= v@.len(),
            p == trim_pred(ws),
            forall|j: int| 0 <= j < a ==> p(v@[j]),
        decreases v@.len() - a,
    {
        a = a + 1;
    }
    proof {
        lemma_lead(v@, p, a as int);
    }
    if a == v.len() {
        return String::new();
    }
    let mut t: usize = 0;
    while t < v.len() - a && trims(v[v.len() - 1 - t], ws)
        invariant
            a < v@.len(),
            t <= v@.len() - a,
            p == trim_pred(ws),
            forall|j: int| v@.len() - t <= j < v@.len() ==> p(v@[j]),
        decreases v@.len() - a - t,
    {
        t = t + 1;
    }
    proof {
        if t < v@.len() - a {
            lemma_trail(v@, p, t as int);
        } else {
            assert(!p(v@[a as int]));
            assert(false);
        }
    }
    slice_string(&v, a, v.len() - t)
}

/// `str::trim`.
pub fn trim(s: &str) -> (r: String)
    ensures
        r@ == trim_ws(s@),
{
    trim_chars(s, true)
}

/// The decimal digit `d` (0 to 9).
pub open spec fn digit_char(d: nat) -> char {
    ((d + 48) as u8) as char
}

/// The decimal notation of `n`, without sign or leading zeros.
pub open spec fn decimal(n: nat) -> Seq<char>
    decreases n,
{
    if n < 10 {
        seq![digit_char(n)]
    } else {
        decimal(n / 10).push(digit_char(n % 10))
    }
}

/// `n.to_string()`.
pub fn fmt_u64(n: u64) -> (s: String)
    ensures
        s@ == decimal(n as nat),
    decreases n,
{
    let d = ((n % 10) as u8 + 48u8) as char;
    if n < 10 {
        let mut s = String::new();
        push_char(&mut s, d);
        assert(s@ =~= seq![digit_char(n as nat)]);
        s
    } else {
        let mut s = fmt_u64(n / 10);
        push_char(&mut s, d);
        s
    }
}

} // verus!

verus! {

/// The value of a run of decimal digits.
pub open spec fn digits_value(s: Seq<char>) -> nat
    decreases s.len(),
{
    if s.len() == 0 {
        0
    } else {
        digits_value(s.drop_last()) * 10 + (s.last() as nat - 48) as nat
    }
}

/// `str::parse::<u64>`: an optional `+`, then at least one digit, and
/// a value that fits.
pub open spec fn parse_u64_spec(s: Seq<char>) -> Option<u64> {
    let d = if s.len() > 0 && s[0] == '+' {
        s.drop_first()
    } else {
        s
    };
    if d.len() > 0 && all_ascii_digits(d) && digits_value(d) <= u64::MAX {
        Some(digits_value(d) as u64)
    } else {
        None
    }
}

proof fn lemma_digits_value_grows(s: Seq<char>, i: int)
    requires
        0 <= i <= s.len(),
        all_ascii_digits(s),
    ensures
        digits_value(s.take(i)) <= digits_value(s),
    decreases s.len() - i,
{
    if i < s.len() {
        lemma_digits_value_grows(s, i + 1);
        assert(s.take(i + 1).drop_last() =~= s.take(i));
        assert('0' <= s[i] <= '9');
    } else {
        assert(s.take(i) =~= s);
    }
}

/// `s.parse::<u64>().ok()`.
pub fn parse_u64(s: &str) -> (r: Option<u64>)
    ensures
        r == parse_u64_spec(s@),
{
    let v = chars_of(s);
    let start: usize = if v.len() > 0 && v[0] == '+' { 1 } else { 0 };
    let ghost d = if s@.len() > 0 && s@[0] == '+' { s@.drop_first() } else { s@ };
    assert(d =~= v@.skip(start as int));
    if start >= v.len() {
        return None;
    }
    let mut value: u64 = 0;
    let mut i: usize = start;
    while i < v.len()
        invariant
            start <= i <= v@.len(),
            v@ == s@,
            d == (if s@.len() > 0 && s@[0] == '+' { s@.drop_first() } else { s@ }),
            d == v@.skip(start as int),
            d.len() > 0,
            all_ascii_digits(d.take(i - start)),
            value as nat == digits_value(d.take(i - start)),
        decreases v@.len() - i,
    {
        let c = v[i];
        assert(d.take(i - start + 1).drop_last() =~= d.take(i - start));
        assert(d[i - start] == c);
        if !('0' <= c && c <= '9') {
            assert(!('0' <= d[i - start] <= '9'));
            assert(!all_ascii_digits(d));
            return None;
        }
        let digit = (c as u32 - 48) as u64;
        if value > 1844674407370955161 || (value == 1844674407370955161 && digit > 5) {
            proof {
                assert(digits_value(d.take(i - start + 1)) == value * 10 + digit);
                if all_ascii_digits(d) {
                    lemma_digits_value_grows(d, i - start + 1);
                }
            }
            return None;
        }
        value = value * 10 + digit;
        i = i + 1;
        assert(all_ascii_digits(d.take(i - start)));
    }
    assert(d.take(i - start) =~= d);
    Some(value)
}

} // verus!

verus! {

/// Is `c` an ASCII digit?
pub open spec fn digit_pred() -> spec_fn(char) -> bool {
    |c: char| '0' <= c && c <= '9'
}

/// The index of the first occurrence of `m` in `s` (`s` holds it).
#[verifier::opaque]
pub open spec fn first_at(s: Seq<char>, m: Seq<char>) -> int {
    choose|i: int|
        0 <= i <= s.len() - m.len() && #[trigger] s.subrange(i, i + m.len()) == m && forall|j: int|
            0 <= j < i ==> #[trigger] s.subrange(j, j + m.len()) != m
}

/// The index of the first occurrence of `needle` in `s`, if any.
pub fn find_str(s: &[char], needle: &[char]) -> (r: Option<usize>)
    ensures
        r is Some <==> has_infix(s@, needle@),
        r matches Some(i) ==> i == first_at(s@, needle@) && i + needle@.len() <= s@.len()
            && s@.subrange(i as int, i + needle@.len()) == needle@,
{
    if needle.len() > s.len() {
        return None;
    }
    let last = s.len() - needle.len();
    let mut i: usize = 0;
    loop
        invariant
            needle@.len() <= s@.len(),
            s@.len() <= usize::MAX,
            last == s@.len() - needle@.len(),
            0 <= i <= last + 1,
            forall|k: int| 0 <= k < i ==> #[trigger] s@.subrange(k, k + needle@.len()) != needle@,
        decreases last + 1 - i,
    {
        if i > last {
            return None;
        }
        let mut j: usize = 0;
        let mut same = true;
        while j < needle.len()
            invariant
                needle@.len() <= s@.len(),
                i <= last,
                last == s@.len() - needle@.len(),
                s@.len() <= usize::MAX,
                0 <= j <= needle@.len(),
                same ==> forall|k: int| 0 <= k < j ==> s@[i + k] == needle@[k],
                !same ==> s@.subrange(i as int, i + needle@.len()) != needle@,
            decreases needle@.len() - j,
        {
            if same && s[i + j] != needle[j] {
                same = false;
                assert(s@.subrange(i as int, i + needle@.len())[j as int] != needle@[j as int]);
            }
            j = j + 1;
        }
        if same {
            assert(s@.subrange(i as int, i + needle@.len()) =~= needle@);
            proof {
                reveal(first_at);
                let f = first_at(s@, needle@);
                assert(0 <= f <= s@.len() - needle@.len() && s@.subrange(f, f + needle@.len()) == needle@);
                if f < i {
                    assert(s@.subrange(f, f + needle@.len()) != needle@);
                }
                if f > i {
                    assert(s@.subrange(i as int, i + needle@.len()) != needle@);
                }
            }
            return Some(i);
        }
        if i == last {
            return None;
        }
        i = i + 1;
    }
}

} // verus!

verus! {

/// `a < b` in the order of `str`: lexicographic by character.
pub open spec fn seq_lt(a: Seq<char>, b: Seq<char>) -> bool
    decreases a.len(),
{
    if a.len() == 0 {
        b.len() > 0
    } else if b.len() == 0 {
        false
    } else if a[0] < b[0] {
        true
    } else if a[0] > b[0] {
        false
    } else {
        seq_lt(a.drop_first(), b.drop_first())
    }
}

pub proof fn lemma_seq_lt_irreflexive(a: Seq<char>)
    ensures
        !seq_lt(a, a),
    decreases a.len(),
{
    if a.len() > 0 {
        lemma_seq_lt_irreflexive(a.drop_first());
    }
}

pub proof fn lemma_seq_lt_total(a: Seq<char>, b: Seq<char>)
    ensures
        a == b || seq_lt(a, b) || seq_lt(b, a),
    decreases a.len(),
{
    if a.len() > 0 && b.len() > 0 && a[0] == b[0] {
        lemma_seq_lt_total(a.drop_first(), b.drop_first());
        if a.drop_first() == b.drop_first() {
            assert(a =~= seq![a[0]] + a.drop_first());
            assert(b =~= seq![b[0]] + b.drop_first());
        }
    } else if a.len() == 0 && b.len() == 0 {
        assert(a =~= b);
    }
}

pub proof fn lemma_seq_lt_asym(a: Seq<char>, b: Seq<char>)
    ensures
        !(seq_lt(a, b) && seq_lt(b, a)),
    decreases a.len(),
{
    if a.len() > 0 && b.len() > 0 && a[0] == b[0] {
        lemma_seq_lt_asym(a.drop_first(), b.drop_first());
    }
}

pub proof fn lemma_seq_lt_trans(a: Seq<char>, b: Seq<char>, c: Seq<char>)
    requires
        seq_lt(a, b),
        seq_lt(b, c),
    ensures
        seq_lt(a, c),
    decreases a.len(),
{
    if a.len() > 0 && b.len() > 0 && c.len() > 0 && a[0] == b[0] && b[0] == c[0] {
        lemma_seq_lt_trans(a.drop_first(), b.drop_first(), c.drop_first());
    }
}

/// `a < b` for strings.
pub fn str_lt(a: &str, b: &str) -> (r: bool)
    ensures
        r == seq_lt(a@, b@),
{
    let av = chars_of(a);
    let bv = chars_of(b);
    let mut i: usize = 0;
    assert(a@.skip(0) =~= a@ && b@.skip(0) =~= b@);
    while i < av.len() && i < bv.len() && av[i] == bv[i]
        invariant
            0 <= i <= av@.len(),
            i <= bv@.len(),
            av@ == a@,
            bv@ == b@,
            seq_lt(a@, b@) == seq_lt(a@.skip(i as int), b@.skip(i as int)),
        decreases av@.len() - i,
    {
        assert(a@.skip(i as int).drop_first() =~= a@.skip(i + 1));
        assert(b@.skip(i as int).drop_first() =~= b@.skip(i + 1));
        i = i + 1;
    }
    if i == av.len() {
        i < bv.len()
    } else if i == bv.len() {
        false
    } else {
        av[i] < bv[i]
    }
}

/// Strictly increasing: sorted and free of repeats.
pub open spec fn strictly_sorted(s: Seq<Seq<char>>) -> bool {
    forall|i: int, j: int| 0 <= i < j < s.len() ==> seq_lt(#[trigger] s[i], #[trigger] s[j])
}

/// Inserts `x` into a strictly sorted list, unless it is already there.
pub fn insert_sorted(v: &mut Vec<String>, x: String)
    requires
        strictly_sorted(views(old(v)@)),
    ensures
        strictly_sorted(views(final(v)@)),
        views(final(v)@).to_set() == views(old(v)@).to_set().insert(x@),
{
    let ghost old_views = views(v@);
    let mut i: usize = 0;
    while i < v.len() && str_lt(v[i].as_str(), x.as_str())
        invariant
            0 <= i <= v@.len(),
            v@ == old(v)@,
            old_views == views(v@),
            strictly_sorted(old_views),
            forall|k: int| 0 <= k < i ==> seq_lt(#[trigger] old_views[k], x@),
        decreases v@.len() - i,
    {
        i = i + 1;
    }
    if i < v.len() && str_eq(v[i].as_str(), x.as_str()) {
        assert(old_views[i as int] == x@);
        assert(old_views.to_set().insert(x@) =~= old_views.to_set());
        return;
    }
    let ghost gt = i < v@.len();
    proof {
        if i < v@.len() {
            lemma_seq_lt_total(old_views[i as int], x@);
            assert(seq_lt(x@, old_views[i as int]));
        }
    }
    let ghost xv = x@;
    v.insert(i, x);
    let ghost new_views = views(v@);
    assert(new_views =~= old_views.insert(i as int, xv));
    assert forall|a: int, b: int| 0 <= a < b < new_views.len() implies seq_lt(#[trigger] new_views[a], #[trigger] new_views[b]) by {
        if b > i {
            // x < old[b - 1]
            if b - 1 > i {
                lemma_seq_lt_trans(xv, old_views[i as int], old_views[b - 1]);
            }
            assert(seq_lt(xv, old_views[b - 1]));
            if a < i {
                assert(seq_lt(old_views[a], xv));
                lemma_seq_lt_trans(old_views[a], xv, old_views[b - 1]);
            } else if a > i {
                assert(seq_lt(old_views[a - 1], old_views[b - 1]));
            }
        } else if b == i {
            assert(seq_lt(old_views[a], xv));
        } else {
            assert(seq_lt(old_views[a], old_views[b]));
        }
    }
    assert(new_views.to_set() =~= old_views.to_set().insert(xv)) by {
        assert forall|e: Seq<char>| new_views.to_set().contains(e) <==> old_views.to_set().insert(xv).contains(e) by {
            if new_views.contains(e) {
                let k = choose|k: int| 0 <= k < new_views.len() && new_views[k] == e;
                if k < i {
                    assert(old_views[k] == e);
                } else if k > i {
                    assert(old_views[k - 1] == e);
                }
            }
            if old_views.contains(e) {
                let k = choose|k: int| 0 <= k < old_views.len() && old_views[k] == e;
                if k < i {
                    assert(new_views[k] == e);
                } else {
                    assert(new_views[k + 1] == e);
                }
            }
            if e == xv {
                assert(new_views[i as int] == e);
            }
        }
    }
}

/// In increasing order, repeats side by side.
pub open spec fn sorted_seqs(s: Seq<Seq<char>>) -> bool {
    forall|i: int, j: int| 0 <= i < j < s.len() ==> !seq_lt(#[trigger] s[j], #[trigger] s[i])
}

/// The strings of `s` in increasing order, each as often as `s` holds it.
pub open spec fn sorted_of(s: Seq<Seq<char>>) -> Seq<Seq<char>> {
    choose|t: Seq<Seq<char>>| sorted_seqs(t) && t.to_multiset() == s.to_multiset()
}

/// Two sorted sequences holding the same strings as often are one.
pub proof fn lemma_sorted_unique(a: Seq<Seq<char>>, b: Seq<Seq<char>>)
    requires
        sorted_seqs(a),
        sorted_seqs(b),
        a.to_multiset() == b.to_multiset(),
    ensures
        a == b,
    decreases a.len(),
{
    broadcast use vstd::seq_lib::group_to_multiset_ensures;
    assert(a.len() == a.to_multiset().len() && b.len() == b.to_multiset().len());
    if a.len() == 0 {
        assert(a =~= b);
    } else {
        assert(a.contains(a[0]) && b.contains(b[0]));
        assert(b.to_multiset().count(a[0]) > 0);
        assert(a.to_multiset().count(b[0]) > 0);
        let j = choose|j: int| 0 <= j < b.len() && b[j] == a[0];
        let k = choose|k: int| 0 <= k < a.len() && a[k] == b[0];
        if j > 0 {
            assert(!seq_lt(b[j], b[0]));
        } else {
            lemma_seq_lt_irreflexive(a[0]);
        }
        if k > 0 {
            assert(!seq_lt(a[k], a[0]));
        } else {
            lemma_seq_lt_irreflexive(b[0]);
        }
        lemma_seq_lt_total(a[0], b[0]);
        assert(a[0] == b[0]);
        let a1 = a.drop_first();
        let b1 = b.drop_first();
        assert(a1 =~= a.remove(0));
        assert(b1 =~= b.remove(0));
        assert(a1.to_multiset() =~= b1.to_multiset());
        assert forall|x: int, y: int| 0 <= x < y < a1.len() implies !seq_lt(#[trigger] a1[y], #[trigger] a1[x]) by {
            assert(a1[y] == a[y + 1] && a1[x] == a[x + 1]);
        }
        assert forall|x: int, y: int| 0 <= x < y < b1.len() implies !seq_lt(#[trigger] b1[y], #[trigger] b1[x]) by {
            assert(b1[y] == b[y + 1] && b1[x] == b[x + 1]);
        }
        lemma_sorted_unique(a1, b1);
        assert(a =~= seq![a[0]] + a1);
        assert(b =~= seq![b[0]] + b1);
    }
}

/// Inserts `x` into a sorted list after every string not above it.
fn insert_keeping(v: &mut Vec<String>, x: String)
    requires
        sorted_seqs(views(old(v)@)),
    ensures
        sorted_seqs(views(final(v)@)),
        views(final(v)@).to_multiset() == views(old(v)@).to_multiset().insert(x@),
{
    broadcast use vstd::seq_lib::group_to_multiset_ensures;
    let ghost old_views = views(v@);
    let mut i: usize = 0;
    while i < v.len() && !str_lt(x.as_str(), v[i].as_str())
        invariant
            0 <= i <= v@.len(),
            v@ == old(v)@,
            old_views == views(v@),
            sorted_seqs(old_views),
            forall|k: int| 0 <= k < i ==> !seq_lt(x@, #[trigger] old_views[k]),
        decreases v@.len() - i,
    {
        i = i + 1;
    }
    let ghost xv = x@;
    v.insert(i, x);
    let ghost new_views = views(v@);
    assert(new_views =~= old_views.insert(i as int, xv));
    assert forall|a: int, b: int| 0 <= a < b < new_views.len() implies !seq_lt(#[trigger] new_views[b], #[trigger] new_views[a]) by {
        if a < i && b == i {
            assert(!seq_lt(xv, old_views[a]));
        } else if a < i && b > i {
            assert(!seq_lt(old_views[b - 1], old_views[a]));
        } else if a == i {
            // x < old[i] <= old[b - 1]
            assert(seq_lt(xv, old_views[i as int]));
            if b - 1 > i {
                assert(!seq_lt(old_views[b - 1], old_views[i as int]));
                lemma_seq_lt_total(old_views[b - 1], old_views[i as int]);
                if seq_lt(old_views[i as int], old_views[b - 1]) {
                    lemma_seq_lt_trans(xv, old_views[i as int], old_views[b - 1]);
                }
            }
            assert(seq_lt(xv, old_views[b - 1]));
            lemma_seq_lt_asym(xv, old_views[b - 1]);
        } else if a > i {
            assert(!seq_lt(old_views[b - 1], old_views[a - 1]));
        } else {
            assert(!seq_lt(old_views[b], old_views[a]));
        }
    }
    assert(new_views.remove(i as int) =~= old_views);
    assert(new_views[i as int] == xv);
    assert(new_views.to_multiset() =~= old_views.to_multiset().insert(xv)) by {
        assert(old_views.to_multiset() == new_views.to_multiset().remove(xv));
        assert(new_views.contains(xv));
        assert(new_views.to_multiset().count(xv) > 0);
    }
}

/// The strings of `v` in increasing order, each as often as `v` holds it.
pub fn sort_strings(v: &Vec<String>) -> (r: Vec<String>)
    ensures
        views(r@) == sorted_of(views(v@)),
{
    broadcast use vstd::seq_lib::group_to_multiset_ensures;
    let ghost all = views(v@);
    let mut acc: Vec<String> = Vec::new();
    let mut i: usize = 0;
    assert(views(acc@).to_multiset() =~= all.take(0).to_multiset()) by {
        assert(all.take(0) =~= Seq::<Seq<char>>::empty());
        assert(views(acc@) =~= Seq::<Seq<char>>::empty());
    }
    while i < v.len()
        invariant
            0 <= i <= v@.len(),
            all == views(v@),
            sorted_seqs(views(acc@)),
            views(acc@).to_multiset() == all.take(i as int).to_multiset(),
        decreases v@.len() - i,
    {
        let x = v[i].clone();
        assert(x@ == all[i as int]);
        assert(all.take(i + 1) =~= all.take(i as int).push(x@));
        proof {
            all.take(i as int).to_multiset_ensures();
        }
        assert(all.take(i as int).push(x@).to_multiset() =~= all.take(i as int).to_multiset().insert(x@));
        insert_keeping(&mut acc, x);
        i = i + 1;
    }
    assert(all.take(v@.len() as int) =~= all);
    proof {
        let t = sorted_of(all);
        assert(sorted_seqs(t) && t.to_multiset() == all.to_multiset());
        lemma_sorted_unique(t, views(acc@));
    }
    acc
}

} // verus!

verus! {

/// `str::parse::<usize>`.
pub open spec fn parse_usize_spec(s: Seq<char>) -> Option<usize> {
    match parse_u64_spec(s) {
        Some(v) => if v <= usize::MAX {
            Some(v as usize)
        } else {
            None
        },
        None => None,
    }
}

pub fn parse_usize(s: &str) -> (r: Option<usize>)
    ensures
        r == parse_usize_spec(s@),
{
    match parse_u64(s) {
        Some(v) => if v <= usize::MAX as u64 {
            Some(v as usize)
        } else {
            None
        },
        None => None,
    }
}

} // verus!

verus! {

// --- case and words -----------------------------------------------------------

/// What `str::to_lowercase` answers for a string: each character by the
/// Unicode lowercase mapping, a few of them by their context.
pub uninterp spec fn lowercase(s: Seq<char>) -> Seq<char>;

/// `str::to_lowercase`. The contract names the result and states nothing
/// of the Unicode mapping itself.
#[verifier::external_body]
pub(crate) fn to_lowercase(s: &str) -> (r: String)
    ensures
        r@ == lowercase(s@),
{
    s.to_lowercase()
}

/// The words of `s` read so far, and the word being read.
pub open spec fn words_acc(s: Seq<char>) -> (Seq<Seq<char>>, Seq<char>)
    decreases s.len(),
{
    if s.len() == 0 {
        (Seq::empty(), Seq::empty())
    } else {
        let (ws, cur) = words_acc(s.drop_last());
        if is_ws(s.last()) {
            if cur.len() > 0 {
                (ws.push(cur), Seq::empty())
            } else {
                (ws, Seq::empty())
            }
        } else {
            (ws, cur.push(s.last()))
        }
    }
}

/// `str::split_whitespace`: the maximal runs of non-whitespace characters.
pub open spec fn words_of(s: Seq<char>) -> Seq<Seq<char>> {
    let (ws, cur) = words_acc(s);
    if cur.len() > 0 {
        ws.push(cur)
    } else {
        ws
    }
}

pub fn split_whitespace(s: &str) -> (r: Vec<String>)
    ensures
        views(r@) == words_of(s@),
{
    let v = chars_of(s);
    let mut words: Vec<String> = Vec::new();
    let mut cur: Vec<char> = Vec::new();
    let mut i: usize = 0;
    while i < v.len()
        invariant
            0 <= i <= v@.len(),
            v@ == s@,
            (views(words@), cur@) == words_acc(s@.take(i as int)),
        decreases v@.len() - i,
    {
        assert(s@.take(i + 1).drop_last() =~= s@.take(i as int));
        let c = v[i];
        if is_whitespace(c) {
            if cur.len() > 0 {
                let w = string_of(cur.as_slice());
                let ghost before = views(words@);
                words.push(w);
                assert(views(words@) =~= before.push(cur@));
            }
            cur = Vec::new();
        } else {
            cur.push(c);
        }
        i = i + 1;
    }
    assert(s@.take(v@.len() as int) =~= s@);
    if cur.len() > 0 {
        let w = string_of(cur.as_slice());
        let ghost before = views(words@);
        words.push(w);
        assert(views(words@) =~= before.push(cur@));
    }
    words
}

} // verus!

verus! {

// --- finding a key in a list ------------------------------------------------------

/// Where `key` first sits in `keys`; `keys.len()` when it is not there.
pub open spec fn pos_in<K>(keys: Seq<K>, key: K) -> int
    decreases keys.len(),
{
    if keys.len() == 0 {
        0
    } else if keys[0] == key {
        0
    } else {
        1 + pos_in(keys.drop_first(), key)
    }
}

pub proof fn lemma_pos_in<K>(keys: Seq<K>, key: K, k: int)
    requires
        0 <= k <= keys.len(),
        forall|j: int| 0 <= j < k ==> #[trigger] keys[j] != key,
        k == keys.len() || keys[k] == key,
    ensures
        pos_in(keys, key) == k,
    decreases keys.len(),
{
    if keys.len() > 0 && keys[0] != key {
        let t = keys.drop_first();
        assert forall|j: int| 0 <= j < k - 1 implies #[trigger] t[j] != key by {
            assert(t[j] == keys[j + 1]);
        }
        if k - 1 < t.len() {
            assert(t[k - 1] == keys[k]);
        }
        lemma_pos_in(t, key, k - 1);
    }
}

} // verus!
