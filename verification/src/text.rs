//! Character-level string helpers shared by the fact and graph writers.
//!
//! Every helper here works on the character sequence of a string (its view,
//! `s@`), and each has a spec function that says what it computes.
use vstd::prelude::*;

verus! {

broadcast use vstd::string::group_string_axioms;

// ---------------------------------------------------------------------------
// Spec functions
// ---------------------------------------------------------------------------

/// The character sequences of a sequence of strings.
pub open spec fn views(v: Seq<String>) -> Seq<Seq<char>> {
    v.map_values(|s: String| s@)
}

/// `s` with every occurrence of `from` replaced by `to` (as `str::replace`
/// does for a one-character pattern).
pub open spec fn replace_char(s: Seq<char>, from: char, to: Seq<char>) -> Seq<char>
    decreases s.len(),
{
    if s.len() == 0 {
        Seq::empty()
    } else {
        let prev = replace_char(s.drop_last(), from, to);
        if s.last() == from {
            prev + to
        } else {
            prev.push(s.last())
        }
    }
}

/// The pieces of `s` between occurrences of `sep` (as `str::split` does for a
/// one-character pattern): one more piece than there are separators, empty
/// pieces included.
pub open spec fn split_on(s: Seq<char>, sep: char) -> Seq<Seq<char>>
    decreases s.len(),
{
    if s.len() == 0 {
        seq![Seq::empty()]
    } else {
        let prev = split_on(s.drop_last(), sep);
        if s.last() == sep {
            prev.push(Seq::empty())
        } else {
            prev.update(prev.len() - 1, prev.last().push(s.last()))
        }
    }
}

/// The pieces joined with `sep` between consecutive pieces (as `join` does).
pub open spec fn join_with(parts: Seq<Seq<char>>, sep: Seq<char>) -> Seq<char>
    decreases parts.len(),
{
    if parts.len() == 0 {
        Seq::empty()
    } else if parts.len() == 1 {
        parts[0]
    } else {
        join_with(parts.drop_last(), sep) + sep + parts.last()
    }
}

/// The pieces one after another.
pub open spec fn concat_all(parts: Seq<Seq<char>>) -> Seq<char>
    decreases parts.len(),
{
    if parts.len() == 0 {
        Seq::empty()
    } else {
        concat_all(parts.drop_last()) + parts.last()
    }
}

/// The sequences one after another.
pub open spec fn flat<A>(parts: Seq<Seq<A>>) -> Seq<A>
    decreases parts.len(),
{
    if parts.len() == 0 {
        Seq::empty()
    } else {
        flat(parts.drop_last()) + parts.last()
    }
}

/// The first index of `s` whose element satisfies `p`, if any.
pub open spec fn first_index<A>(s: Seq<A>, p: spec_fn(A) -> bool) -> Option<int>
    decreases s.len(),
{
    if s.len() == 0 {
        None
    } else {
        match first_index(s.drop_last(), p) {
            Some(i) => Some(i),
            None => if p(s.last()) {
                Some(s.len() - 1)
            } else {
                None
            },
        }
    }
}

/// `first_index` on a prefix, as it grows by one element.
pub proof fn lemma_first_index_step<A>(s: Seq<A>, p: spec_fn(A) -> bool, i: int)
    requires
        0 <= i < s.len(),
        first_index(s.take(i), p) is None,
    ensures
        first_index(s.take(i + 1), p) == (if p(s[i]) {
            Some(i)
        } else {
            None::<int>
        }),
{
    assert(s.take(i + 1).drop_last() =~= s.take(i));
}

/// What `first_index` finds in a prefix, it finds in the whole.
pub proof fn lemma_first_index_prefix<A>(s: Seq<A>, p: spec_fn(A) -> bool, k: int)
    requires
        0 <= k <= s.len(),
        first_index(s.take(k), p) is Some,
    ensures
        first_index(s, p) == first_index(s.take(k), p),
    decreases s.len() - k,
{
    if k < s.len() {
        assert(s.take(k + 1).drop_last() =~= s.take(k));
        lemma_first_index_prefix(s, p, k + 1);
    } else {
        assert(s.take(k) =~= s);
    }
}

/// The index that `first_index` finds satisfies `p`, and no earlier one does.
pub proof fn lemma_first_index_found<A>(s: Seq<A>, p: spec_fn(A) -> bool)
    ensures
        match first_index(s, p) {
            Some(i) => 0 <= i < s.len() && p(s[i]) && forall|j: int| 0 <= j < i ==> !p(#[trigger] s[j]),
            None => forall|j: int| 0 <= j < s.len() ==> !p(#[trigger] s[j]),
        },
    decreases s.len(),
{
    if s.len() > 0 {
        lemma_first_index_found(s.drop_last(), p);
        match first_index(s.drop_last(), p) {
            Some(i) => {
                assert forall|j: int| 0 <= j < i implies !p(#[trigger] s[j]) by {
                    assert(s[j] == s.drop_last()[j]);
                }
                assert(s[i] == s.drop_last()[i]);
            },
            None => {
                assert forall|j: int| 0 <= j < s.len() - 1 implies !p(#[trigger] s[j]) by {
                    assert(s[j] == s.drop_last()[j]);
                }
            },
        }
    }
}

/// Replacing every `from` by a text without `from` leaves no `from`.
pub proof fn lemma_replace_char_drops(s: Seq<char>, from: char, to: Seq<char>)
    requires
        !to.contains(from),
    ensures
        !replace_char(s, from, to).contains(from),
    decreases s.len(),
{
    if s.len() > 0 {
        lemma_replace_char_drops(s.drop_last(), from, to);
        let prev = replace_char(s.drop_last(), from, to);
        let r = replace_char(s, from, to);
        if r.contains(from) {
            let i = choose|i: int| 0 <= i < r.len() && r[i] == from;
            if i < prev.len() {
                assert(prev[i] == from);
            } else if s.last() == from {
                assert(to[i - prev.len()] == from);
            }
        }
    }
}

/// An element of one of the parts is an element of the parts one after
/// another.
pub proof fn lemma_flat_contains<A>(parts: Seq<Seq<A>>, i: int, x: A)
    requires
        0 <= i < parts.len(),
        parts[i].contains(x),
    ensures
        flat(parts).contains(x),
    decreases parts.len(),
{
    let p = parts.drop_last();
    let k = choose|k: int| 0 <= k < parts[i].len() && parts[i][k] == x;
    if i == parts.len() - 1 {
        assert(flat(parts)[flat(p).len() + k] == x);
    } else {
        assert(p[i] == parts[i]);
        lemma_flat_contains(p, i, x);
        let idx = choose|idx: int| 0 <= idx < flat(p).len() && flat(p)[idx] == x;
        assert(flat(parts)[idx] == x);
    }
}

/// Every element of the parts one after another is an element of one of
/// the parts.
pub proof fn lemma_flat_member<A>(parts: Seq<Seq<A>>, idx: int)
    requires
        0 <= idx < flat(parts).len(),
    ensures
        exists|i: int, k: int| 0 <= i < parts.len() && 0 <= k < parts[i].len() && #[trigger] parts[i][k] == flat(parts)[idx],
    decreases parts.len(),
{
    let p = parts.drop_last();
    let n = parts.len() - 1;
    if idx < flat(p).len() {
        lemma_flat_member(p, idx);
        let (i, k) = choose|i: int, k: int| 0 <= i < p.len() && 0 <= k < p[i].len() && #[trigger] p[i][k] == flat(p)[idx];
        assert(p[i] == parts[i]);
        assert(parts[i][k] == flat(parts)[idx]);
    } else {
        assert(parts[n][idx - flat(p).len()] == flat(parts)[idx]);
    }
}

/// `p` is a prefix of `s`.
pub open spec fn has_prefix(s: Seq<char>, p: Seq<char>) -> bool {
    p.len() <= s.len() && s.subrange(0, p.len() as int) == p
}

/// `p` is a suffix of `s`.
pub open spec fn has_suffix(s: Seq<char>, p: Seq<char>) -> bool {
    p.len() <= s.len() && s.subrange(s.len() - p.len(), s.len() as int) == p
}

/// `p` occurs in `s` starting at position `i`.
pub open spec fn occurs_at(s: Seq<char>, p: Seq<char>, i: int) -> bool {
    0 <= i && i + p.len() <= s.len() && s.subrange(i, i + p.len()) == p
}

/// `p` occurs somewhere in `s` (as `str::contains` says).
pub open spec fn contains_sub(s: Seq<char>, p: Seq<char>) -> bool {
    exists|i: int| #[trigger] occurs_at(s, p, i)
}

/// The decimal digit character for `d` (for `0 <= d < 10`).
pub open spec fn digit_char(d: int) -> char {
    if d == 0 { '0' }
    else if d == 1 { '1' }
    else if d == 2 { '2' }
    else if d == 3 { '3' }
    else if d == 4 { '4' }
    else if d == 5 { '5' }
    else if d == 6 { '6' }
    else if d == 7 { '7' }
    else if d == 8 { '8' }
    else { '9' }
}

/// The decimal notation of `n`, as `to_string` writes an unsigned integer.
pub open spec fn decimal(n: nat) -> Seq<char>
    decreases n,
{
    if n < 10 {
        seq![digit_char(n as int)]
    } else {
        decimal(n / 10).push(digit_char((n % 10) as int))
    }
}

/// `n` spaces.
pub open spec fn spaces(n: nat) -> Seq<char> {
    Seq::new(n, |i: int| ' ')
}

/// Lexicographic order on character sequences by code point, which is the
/// order of `str`'s `Ord` (UTF-8 preserves code point order).
pub open spec fn lex_lt(a: Seq<char>, b: Seq<char>) -> bool
    decreases a.len(),
{
    if a.len() == 0 {
        b.len() > 0
    } else if b.len() == 0 {
        false
    } else if a[0] != b[0] {
        a[0] < b[0]
    } else {
        lex_lt(a.drop_first(), b.drop_first())
    }
}

/// Every element of `s` is strictly smaller than the next ones.
pub open spec fn strictly_sorted(s: Seq<Seq<char>>) -> bool {
    forall|i: int, j: int| 0 <= i < j < s.len() ==> lex_lt(#[trigger] s[i], #[trigger] s[j])
}

/// `char::is_whitespace`: the characters with the Unicode `White_Space`
/// property.
pub open spec fn is_white(c: char) -> bool {
    ||| '\t' <= c <= '\r'
    ||| c == ' '
    ||| c == '\u{85}'
    ||| c == '\u{A0}'
    ||| c == '\u{1680}'
    ||| '\u{2000}' <= c <= '\u{200A}'
    ||| c == '\u{2028}'
    ||| c == '\u{2029}'
    ||| c == '\u{202F}'
    ||| c == '\u{205F}'
    ||| c == '\u{3000}'
}

/// Every character of `s` is whitespace (so `s.trim()` is empty).
pub open spec fn all_white(s: Seq<char>) -> bool {
    forall|i: int| 0 <= i < s.len() ==> is_white(#[trigger] s[i])
}

/// Some character of `s` is whitespace.
pub open spec fn has_white(s: Seq<char>) -> bool {
    exists|i: int| 0 <= i < s.len() && is_white(#[trigger] s[i])
}

/// The maximal runs of non-whitespace characters of `s`, in order (as
/// `str::split_whitespace` gives them).
pub open spec fn words(s: Seq<char>) -> Seq<Seq<char>>
    decreases s.len(),
{
    if s.len() == 0 {
        Seq::empty()
    } else {
        let prev = words(s.drop_last());
        if is_white(s.last()) {
            prev
        } else if s.len() >= 2 && !is_white(s[s.len() - 2]) {
            prev.update(prev.len() - 1, prev.last().push(s.last()))
        } else {
            prev.push(seq![s.last()])
        }
    }
}

// ---------------------------------------------------------------------------
// Lemmas
// ---------------------------------------------------------------------------

pub proof fn lemma_split_nonempty(s: Seq<char>, sep: char)
    ensures
        split_on(s, sep).len() >= 1,
    decreases s.len(),
{
    if s.len() > 0 {
        lemma_split_nonempty(s.drop_last(), sep);
    }
}

/// Without the separator, `s` is one piece.
pub proof fn lemma_split_no_sep(s: Seq<char>, sep: char)
    requires
        !s.contains(sep),
    ensures
        split_on(s, sep) == seq![s],
    decreases s.len(),
{
    if s.len() > 0 {
        assert(!s.drop_last().contains(sep)) by {
            if s.drop_last().contains(sep) {
                let i = choose|i: int| 0 <= i < s.drop_last().len() && s.drop_last()[i] == sep;
                assert(s[i] == sep);
            }
        }
        lemma_split_no_sep(s.drop_last(), sep);
        assert(s.last() != sep) by {
            assert(s[s.len() - 1] == s.last());
        }
        assert(s.drop_last().push(s.last()) =~= s);
    } else {
        assert(s =~= Seq::<char>::empty());
    }
}

/// Splitting after a prefix whose last piece is empty: the prefix's pieces
/// but that last one, then the pieces of the rest.
proof fn lemma_split_after(p: Seq<char>, y: Seq<char>, sep: char)
    requires
        split_on(p, sep).last() == Seq::<char>::empty(),
    ensures
        split_on(p + y, sep) == split_on(p, sep).drop_last() + split_on(y, sep),
    decreases y.len(),
{
    lemma_split_nonempty(p, sep);
    if y.len() == 0 {
        assert(p + y =~= p);
        assert(split_on(p, sep).drop_last() + seq![Seq::<char>::empty()] =~= split_on(p, sep));
    } else {
        assert((p + y).drop_last() =~= p + y.drop_last());
        lemma_split_after(p, y.drop_last(), sep);
        lemma_split_nonempty(y.drop_last(), sep);
        assert((p + y).last() == y.last());
        let a = split_on(p, sep).drop_last();
        let s1 = split_on(y.drop_last(), sep);
        if y.last() == sep {
            assert((a + s1).push(Seq::<char>::empty()) =~= a + s1.push(Seq::<char>::empty()));
        } else {
            assert((a + s1).update((a + s1).len() - 1, (a + s1).last().push(y.last())) =~= a
                + s1.update(s1.len() - 1, s1.last().push(y.last())));
        }
    }
}

/// A separator-free piece, the separator, and the rest split into that
/// piece followed by the pieces of the rest.
pub proof fn lemma_split_first_piece(x: Seq<char>, y: Seq<char>, sep: char)
    requires
        !x.contains(sep),
    ensures
        split_on(x + seq![sep] + y, sep) == seq![x] + split_on(y, sep),
{
    lemma_split_no_sep(x, sep);
    let p = x + seq![sep];
    assert(p.drop_last() =~= x);
    assert(split_on(p, sep) == seq![x].push(Seq::<char>::empty()));
    lemma_split_after(p, y, sep);
    assert(seq![x].push(Seq::<char>::empty()).drop_last() =~= seq![x]);
}

pub proof fn lemma_lex_irreflexive(a: Seq<char>)
    ensures
        !lex_lt(a, a),
    decreases a.len(),
{
    if a.len() > 0 {
        lemma_lex_irreflexive(a.drop_first());
    }
}

pub proof fn lemma_lex_transitive(a: Seq<char>, b: Seq<char>, c: Seq<char>)
    requires
        lex_lt(a, b),
        lex_lt(b, c),
    ensures
        lex_lt(a, c),
    decreases a.len(),
{
    if a.len() > 0 && b.len() > 0 && c.len() > 0 && a[0] == b[0] && b[0] == c[0] {
        lemma_lex_transitive(a.drop_first(), b.drop_first(), c.drop_first());
    }
}

pub proof fn lemma_lex_total(a: Seq<char>, b: Seq<char>)
    requires
        a != b,
    ensures
        lex_lt(a, b) || lex_lt(b, a),
    decreases a.len(),
{
    if a.len() > 0 && b.len() > 0 && a[0] == b[0] {
        if a.drop_first() == b.drop_first() {
            assert(a =~= seq![a[0]] + a.drop_first());
            assert(b =~= seq![b[0]] + b.drop_first());
        }
        lemma_lex_total(a.drop_first(), b.drop_first());
    } else if a.len() > 0 && b.len() > 0 {
    } else if a.len() == 0 && b.len() == 0 {
        assert(a =~= b);
    }
}

/// Comparing after a common prefix of length `i` decides the order.
proof fn lemma_lex_skip(a: Seq<char>, b: Seq<char>, i: int)
    requires
        0 <= i <= a.len(),
        i <= b.len(),
        a.take(i) == b.take(i),
    ensures
        lex_lt(a, b) == lex_lt(a.skip(i), b.skip(i)),
    decreases i,
{
    if i > 0 {
        assert(a[0] == a.take(i)[0]);
        assert(b[0] == b.take(i)[0]);
        assert(a.drop_first().take(i - 1) =~= a.take(i).drop_first());
        assert(b.drop_first().take(i - 1) =~= b.take(i).drop_first());
        lemma_lex_skip(a.drop_first(), b.drop_first(), i - 1);
        assert(a.drop_first().skip(i - 1) =~= a.skip(i));
        assert(b.drop_first().skip(i - 1) =~= b.skip(i));
    } else {
        assert(a.skip(0) =~= a);
        assert(b.skip(0) =~= b);
    }
}

// ---------------------------------------------------------------------------
// Executable helpers
// ---------------------------------------------------------------------------

/// Appends one character to a `String` (calls `String::push`).
/// Trusted: the new contents are the old contents followed by `c`.
#[verifier::external_body]
pub(crate) fn push_char(s: &mut String, c: char)
    ensures
        final(s)@ == old(s)@.push(c),
{
    s.push(c);
}

/// The characters of `s`, in order.
pub fn chars_of(s: &str) -> (v: Vec<char>)
    ensures
        v@ == s@,
{
    let mut v: Vec<char> = Vec::new();
    for c in it: s.chars()
        invariant
            v@ == it.seq().take(it.index() as int),
            it.seq() == s@,
    {
        v.push(c);
    }
    v
}

/// A `String` holding exactly the characters of `v`.
pub fn string_of(v: &Vec<char>) -> (s: String)
    ensures
        s@ == v@,
{
    let mut s = String::new();
    let mut i: usize = 0;
    while i < v.len()
        invariant
            i <= v.len(),
            s@ == v@.take(i as int),
        decreases v.len() - i,
    {
        push_char(&mut s, v[i]);
        i = i + 1;
        assert(s@ =~= v@.take(i as int));
    }
    assert(v@.take(v.len() as int) =~= v@);
    s
}

/// A copy of `s` as an owned `String`.
pub fn owned(s: &str) -> (r: String)
    ensures
        r@ == s@,
{
    s.to_owned()
}

/// `a` followed by `b`.
pub fn concat(a: &str, b: &str) -> (r: String)
    ensures
        r@ == a@ + b@,
{
    let mut r = a.to_owned();
    r.append(b);
    r
}

/// The two strings have the same characters.
pub fn str_eq(a: &str, b: &str) -> (r: bool)
    ensures
        r == (a@ == b@),
{
    let x = a.to_owned();
    let y = b.to_owned();
    x == y
}

/// `p` occurs in `s` at position `i`.
pub fn matches_at(s: &Vec<char>, p: &Vec<char>, i: usize) -> (r: bool)
    ensures
        r == occurs_at(s@, p@, i as int),
{
    if i > s.len() || p.len() > s.len() - i {
        return false;
    }
    let mut k: usize = 0;
    while k < p.len()
        invariant
            i + p.len() <= s.len(),
            k <= p.len(),
            forall|j: int| 0 <= j < k ==> s@[i + j] == p@[j],
        decreases p.len() - k,
    {
        if s[i + k] != p[k] {
            assert(s@.subrange(i as int, i + p.len())[k as int] != p@[k as int]);
            return false;
        }
        k = k + 1;
    }
    assert(s@.subrange(i as int, i + p.len()) =~= p@);
    true
}

/// `s` starts with `p` (as `str::starts_with`).
pub fn starts_with(s: &str, p: &str) -> (r: bool)
    ensures
        r == has_prefix(s@, p@),
{
    let sv = chars_of(s);
    let pv = chars_of(p);
    matches_at(&sv, &pv, 0)
}

/// `s` ends with `p` (as `str::ends_with`).
pub fn ends_with(s: &str, p: &str) -> (r: bool)
    ensures
        r == has_suffix(s@, p@),
{
    let sv = chars_of(s);
    let pv = chars_of(p);
    if pv.len() > sv.len() {
        return false;
    }
    matches_at(&sv, &pv, sv.len() - pv.len())
}

/// `p` occurs in `s` (as `str::contains`).
pub fn contains_str(s: &str, p: &str) -> (r: bool)
    ensures
        r == contains_sub(s@, p@),
{
    let sv = chars_of(s);
    let pv = chars_of(p);
    if pv.len() > sv.len() {
        assert forall|i: int| !occurs_at(s@, p@, i) by {}
        return false;
    }
    let last = sv.len() - pv.len();
    let mut i: usize = 0;
    loop
        invariant
            last == sv.len() - pv.len(),
            i <= last,
            sv@ == s@,
            pv@ == p@,
            forall|j: int| 0 <= j < i ==> !occurs_at(s@, p@, j),
        ensures
            forall|j: int| 0 <= j <= last ==> !occurs_at(s@, p@, j),
        decreases last - i,
    {
        if matches_at(&sv, &pv, i) {
            return true;
        }
        if i == last {
            break;
        }
        i = i + 1;
    }
    assert forall|j: int| !occurs_at(s@, p@, j) by {
        if 0 <= j <= last {
        }
    }
    false
}

/// `s` with each `from` replaced by `to` (as `str::replace` with a
/// one-character pattern).
pub fn replace_char_str(s: &str, from: char, to: &str) -> (r: String)
    ensures
        r@ == replace_char(s@, from, to@),
{
    let sv = chars_of(s);
    let tv = chars_of(to);
    let mut out: Vec<char> = Vec::new();
    let mut i: usize = 0;
    while i < sv.len()
        invariant
            i <= sv.len(),
            sv@ == s@,
            tv@ == to@,
            out@ == replace_char(s@.take(i as int), from, to@),
        decreases sv.len() - i,
    {
        assert(s@.take(i + 1).drop_last() =~= s@.take(i as int));
        if sv[i] == from {
            let mut k: usize = 0;
            let ghost base = out@;
            while k < tv.len()
                invariant
                    k <= tv.len(),
                    tv@ == to@,
                    out@ == base + to@.take(k as int),
                decreases tv.len() - k,
            {
                out.push(tv[k]);
                k = k + 1;
                assert(out@ =~= base + to@.take(k as int));
            }
            assert(to@.take(tv.len() as int) =~= to@);
        } else {
            out.push(sv[i]);
        }
        i = i + 1;
    }
    assert(s@.take(sv.len() as int) =~= s@);
    string_of(&out)
}

/// The pieces of `s` between occurrences of `sep` (as `str::split` with a
/// one-character pattern).
pub fn split_str(s: &str, sep: char) -> (r: Vec<String>)
    ensures
        views(r@) == split_on(s@, sep),
{
    let sv = chars_of(s);
    let mut pieces: Vec<String> = Vec::new();
    let mut cur: Vec<char> = Vec::new();
    let mut i: usize = 0;
    assert(s@.take(0) =~= Seq::<char>::empty());
    while i < sv.len()
        invariant
            i <= sv.len(),
            sv@ == s@,
            views(pieces@).push(cur@) == split_on(s@.take(i as int), sep),
        decreases sv.len() - i,
    {
        assert(s@.take(i + 1).drop_last() =~= s@.take(i as int));
        let ghost prev = split_on(s@.take(i as int), sep);
        if sv[i] == sep {
            let piece = string_of(&cur);
            let ghost before = pieces@;
            pieces.push(piece);
            cur = Vec::new();
            assert(views(pieces@) =~= views(before).push(piece@));
            assert(views(pieces@).push(cur@) =~= prev.push(Seq::empty()));
        } else {
            cur.push(sv[i]);
            assert(views(pieces@).push(cur@) =~= prev.update(prev.len() - 1, prev.last().push(sv@[i as int])));
        }
        i = i + 1;
    }
    assert(s@.take(sv.len() as int) =~= s@);
    let last = string_of(&cur);
    pieces.push(last);
    assert(views(pieces@) =~= split_on(s@, sep));
    pieces
}

/// The strings joined with `sep` between consecutive ones (as `join`).
pub fn join_strings(parts: &Vec<String>, sep: &str) -> (r: String)
    ensures
        r@ == join_with(views(parts@), sep@),
{
    let mut r = String::new();
    let mut i: usize = 0;
    while i < parts.len()
        invariant
            i <= parts.len(),
            r@ == join_with(views(parts@).take(i as int), sep@),
        decreases parts.len() - i,
    {
        let ghost vs = views(parts@);
        assert(vs.take(i + 1).drop_last() =~= vs.take(i as int));
        if i == 0 {
            assert(vs.take(1) =~= seq![vs[0]]);
            r.append(parts[i].as_str());
            assert(r@ =~= vs[0]);
        } else {
            r.append(sep);
            r.append(parts[i].as_str());
        }
        i = i + 1;
    }
    assert(views(parts@).take(parts.len() as int) =~= views(parts@));
    r
}

/// The digit character for `d`.
fn digit(d: u64) -> (c: char)
    requires
        d < 10,
    ensures
        c == digit_char(d as int),
{
    match d {
        0 => '0',
        1 => '1',
        2 => '2',
        3 => '3',
        4 => '4',
        5 => '5',
        6 => '6',
        7 => '7',
        8 => '8',
        _ => '9',
    }
}

fn decimal_chars(n: u64) -> (v: Vec<char>)
    ensures
        v@ == decimal(n as nat),
    decreases n,
{
    if n < 10 {
        let mut v: Vec<char> = Vec::new();
        v.push(digit(n));
        assert(v@ =~= seq![digit_char(n as int)]);
        v
    } else {
        let mut v = decimal_chars(n / 10);
        v.push(digit(n % 10));
        v
    }
}

/// The decimal notation of `n` (as `n.to_string()`).
pub fn decimal_string(n: u64) -> (r: String)
    ensures
        r@ == decimal(n as nat),
{
    let v = decimal_chars(n);
    string_of(&v)
}

/// `n` spaces (as `format!("{:n$}", "")`).
pub fn spaces_string(n: usize) -> (r: String)
    ensures
        r@ == spaces(n as nat),
{
    let mut r = String::new();
    let mut i: usize = 0;
    while i < n
        invariant
            i <= n,
            r@ == spaces(i as nat),
        decreases n - i,
    {
        push_char(&mut r, ' ');
        i = i + 1;
        assert(r@ =~= spaces(i as nat));
    }
    r
}

/// `a` comes strictly before `b` in the order of `str`'s `Ord`.
pub fn lex_less(a: &str, b: &str) -> (r: bool)
    ensures
        r == lex_lt(a@, b@),
{
    let av = chars_of(a);
    let bv = chars_of(b);
    let mut i: usize = 0;
    while i < av.len() && i < bv.len() && av[i] == bv[i]
        invariant
            i <= av.len(),
            i <= bv.len(),
            av@ == a@,
            bv@ == b@,
            a@.take(i as int) == b@.take(i as int),
        decreases av.len() - i,
    {
        assert(a@.take(i + 1) =~= a@.take(i as int).push(a@[i as int]));
        assert(b@.take(i + 1) =~= b@.take(i as int).push(b@[i as int]));
        i = i + 1;
    }
    proof {
        lemma_lex_skip(a@, b@, i as int);
    }
    if i == av.len() {
        proof { assert(a@.skip(i as int).len() == 0); }
        i < bv.len()
    } else if i == bv.len() {
        false
    } else {
        proof {
            assert(a@.skip(i as int)[0] == a@[i as int]);
            assert(b@.skip(i as int)[0] == b@[i as int]);
        }
        av[i] < bv[i]
    }
}

/// Whether `s` is among `v`.
pub fn contains_string(v: &Vec<String>, s: &str) -> (r: bool)
    ensures
        r == views(v@).contains(s@),
{
    let mut i: usize = 0;
    while i < v.len()
        invariant
            i <= v.len(),
            forall|j: int| 0 <= j < i ==> v@[j]@ != s@,
        decreases v.len() - i,
    {
        if str_eq(v[i].as_str(), s) {
            assert(views(v@)[i as int] == s@);
            return true;
        }
        i = i + 1;
    }
    assert(!views(v@).contains(s@)) by {
        if views(v@).contains(s@) {
            let j = choose|j: int| 0 <= j < v@.len() && views(v@)[j] == s@;
            assert(v@[j]@ == s@);
        }
    }
    false
}

/// Whether `c` is whitespace (as `char::is_whitespace`).
pub fn is_white_char(c: char) -> (r: bool)
    ensures
        r == is_white(c),
{
    ('\t' <= c && c <= '\r') || c == ' ' || c == '\u{85}' || c == '\u{A0}' || c == '\u{1680}'
        || ('\u{2000}' <= c && c <= '\u{200A}') || c == '\u{2028}' || c == '\u{2029}' || c
        == '\u{202F}' || c == '\u{205F}' || c == '\u{3000}'
}

/// The whitespace-separated words of `s` (as `str::split_whitespace`).
pub fn split_words(s: &str) -> (r: Vec<String>)
    ensures
        views(r@) == words(s@),
{
    let sv = chars_of(s);
    let mut done: Vec<String> = Vec::new();
    let mut cur: Vec<char> = Vec::new();
    let mut i: usize = 0;
    assert(s@.take(0) =~= Seq::<char>::empty());
    while i < sv.len()
        invariant
            i <= sv.len(),
            sv@ == s@,
            cur@.len() == 0 ==> views(done@) == words(s@.take(i as int)),
            cur@.len() > 0 ==> views(done@).push(cur@) == words(s@.take(i as int)),
            cur@.len() > 0 ==> i > 0 && !is_white(s@[i - 1]),
            i > 0 && !is_white(s@[i - 1]) ==> cur@.len() > 0,
        decreases sv.len() - i,
    {
        let ghost t = s@.take(i + 1);
        assert(t.drop_last() =~= s@.take(i as int));
        assert(t.last() == sv@[i as int]);
        if is_white_char(sv[i]) {
            if cur.len() > 0 {
                let w = string_of(&cur);
                let ghost before = done@;
                done.push(w);
                assert(views(done@) =~= views(before).push(w@));
                cur = Vec::new();
            }
        } else {
            let ghost prev = words(s@.take(i as int));
            if cur.len() > 0 {
                assert(t[t.len() - 2] == s@[i - 1]);
                cur.push(sv[i]);
                assert(views(done@).push(cur@) =~= prev.update(prev.len() - 1, prev.last().push(t.last())));
            } else {
                if i > 0 {
                    assert(t[t.len() - 2] == s@[i - 1]);
                }
                cur.push(sv[i]);
                assert(cur@ =~= seq![t.last()]);
            }
        }
        i = i + 1;
    }
    assert(s@.take(sv.len() as int) =~= s@);
    if cur.len() > 0 {
        let w = string_of(&cur);
        let ghost before = done@;
        done.push(w);
        assert(views(done@) =~= views(before).push(w@));
    }
    done
}

} // verus!
