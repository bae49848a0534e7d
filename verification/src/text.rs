//! Text primitives over character sequences.
//!
//! Every string is read as its sequence of characters, and each operation is
//! specified as a function on such sequences.

use vstd::prelude::*;
use vstd::string::*;

verus! {

broadcast use vstd::string::group_string_axioms;

// ---------------------------------------------------------------------------
// What is taken from std
// ---------------------------------------------------------------------------

/// `String::push` appends one character to the end of the string.
pub assume_specification[ String::push ](s: &mut String, c: char)
    ensures
        final(s)@ == old(s)@.push(c),
;

/// `str::eq` holds exactly when the two slices have the same characters.
#[verifier::external_body]
pub(crate) fn str_eq(a: &str, b: &str) -> (r: bool)
    ensures
        r == (a@ == b@),
{
    a == b
}

/// Whether a character is white space: whether it has the Unicode property
/// White_Space.
pub open spec fn is_white(c: char) -> bool {
    ||| '\t' <= c <= '\r'
    ||| c == ' '
    ||| c == '\u{85}'
    ||| c == '\u{a0}'
    ||| c == '\u{1680}'
    ||| '\u{2000}' <= c <= '\u{200a}'
    ||| c == '\u{2028}'
    ||| c == '\u{2029}'
    ||| c == '\u{202f}'
    ||| c == '\u{205f}'
    ||| c == '\u{3000}'
}

/// `char::is_whitespace`: whether the character has the Unicode property
/// White_Space, which the listed characters have.
#[verifier::external_body]
pub(crate) fn is_white_space(c: char) -> (r: bool)
    ensures
        r == is_white(c),
{
    c.is_whitespace()
}

/// The lower-case form of a text, as `str::to_lowercase` gives it.
pub uninterp spec fn lower_case(s: Seq<char>) -> Seq<char>;

/// The lower-case letter of an ASCII capital; any other character itself.
pub open spec fn ascii_lower(c: char) -> char {
    if 'A' <= c <= 'Z' {
        ((c as u32) + 32) as char
    } else {
        c
    }
}

/// A text in lower case: each capital of an ASCII text replaced by the lower-case
/// letter, and the lower-case form of any other text.
pub open spec fn lowered(s: Seq<char>) -> Seq<char> {
    if vstd::utf8::is_ascii_chars(s) {
        s.map_values(|c: char| ascii_lower(c))
    } else {
        lower_case(s)
    }
}

/// `str::to_lowercase`. An ASCII text has each of its capitals replaced by the
/// lower-case letter and is otherwise unchanged; of other texts the result is
/// named.
#[verifier::external_body]
pub(crate) fn to_lower(s: &str) -> (r: String)
    ensures
        vstd::utf8::is_ascii_chars(s@) ==> r@ == s@.map_values(|c: char| ascii_lower(c)),
        !vstd::utf8::is_ascii_chars(s@) ==> r@ == lower_case(s@),
{
    s.to_lowercase()
}

// ---------------------------------------------------------------------------
// Conversions
// ---------------------------------------------------------------------------

/// The characters of a string slice.
pub fn chars_of(s: &str) -> (r: Vec<char>)
    ensures
        r@ == s@,
{
    let mut r: Vec<char> = Vec::new();
    for c in it: s.chars()
        invariant
            r@ == it.seq().take(it.index() as int),
            it.seq() == s@,
    {
        r.push(c);
    }
    r
}

/// A string with the given characters.
pub fn string_of(v: &[char]) -> (r: String)
    ensures
        r@ == v@,
{
    let mut r = String::new();
    for i in 0..v.len()
        invariant
            r@ == v@.take(i as int),
    {
        r.push(v[i]);
    }
    r
}

/// The character sequences of a list of strings.
pub open spec fn strings(v: Seq<String>) -> Seq<Seq<char>> {
    Seq::new(v.len(), |i: int| v[i]@)
}

/// The character sequences of a list of character vectors.
pub open spec fn texts(v: Seq<Vec<char>>) -> Seq<Seq<char>> {
    Seq::new(v.len(), |i: int| v[i]@)
}

/// The view of an optional string.
pub open spec fn opt_text(s: Option<String>) -> Option<Seq<char>> {
    match s {
        Some(v) => Some(v@),
        None => None,
    }
}

/// The concatenation of two texts.
pub fn concat2(a: &str, b: &str) -> (r: String)
    ensures
        r@ == a@ + b@,
{
    let mut r = String::new();
    r.append(a);
    r.append(b);
    assert(r@ =~= a@ + b@);
    r
}

/// The concatenation of three texts.
pub fn concat3(a: &str, b: &str, c: &str) -> (r: String)
    ensures
        r@ == a@ + b@ + c@,
{
    let mut r = concat2(a, b);
    r.append(c);
    r
}

/// The concatenation of four texts.
pub fn concat4(a: &str, b: &str, c: &str, d: &str) -> (r: String)
    ensures
        r@ == a@ + b@ + c@ + d@,
{
    let mut r = concat3(a, b, c);
    r.append(d);
    r
}

/// The concatenation of five texts.
pub fn concat5(a: &str, b: &str, c: &str, d: &str, e: &str) -> (r: String)
    ensures
        r@ == a@ + b@ + c@ + d@ + e@,
{
    let mut r = concat4(a, b, c, d);
    r.append(e);
    r
}

/// The clone of an optional string.
pub fn clone_opt(s: &Option<String>) -> (r: Option<String>)
    ensures
        r == *s,
{
    match s {
        Some(v) => Some(v.clone()),
        None => None,
    }
}

// ---------------------------------------------------------------------------
// Equality, prefixes, order
// ---------------------------------------------------------------------------

/// Whether two character slices are equal.
pub fn chars_eq(a: &[char], b: &[char]) -> (r: bool)
    ensures
        r == (a@ == b@),
{
    if a.len() != b.len() {
        return false;
    }
    for i in 0..a.len()
        invariant
            a@.len() == b@.len(),
            forall|j: int| 0 <= j < i ==> a@[j] == b@[j],
    {
        if a[i] != b[i] {
            assert(a@[i as int] != b@[i as int]);
            return false;
        }
    }
    assert(a@ =~= b@);
    true
}

/// Whether `s` begins with `p`.
pub open spec fn starts_with(s: Seq<char>, p: Seq<char>) -> bool {
    p.len() <= s.len() && s.take(p.len() as int) == p
}

/// Whether `s` ends with `p`.
pub open spec fn ends_with(s: Seq<char>, p: Seq<char>) -> bool {
    p.len() <= s.len() && s.skip(s.len() - p.len()) == p
}

/// Whether `p` stands somewhere in `s`.
pub open spec fn contains_text(s: Seq<char>, p: Seq<char>) -> bool {
    exists|i: int|
        0 <= i && i + p.len() <= s.len() && #[trigger] s.subrange(i, i + p.len()) == p
}

/// Whether `p` stands in `s` at position `at`.
fn matches_at(s: &[char], p: &[char], at: usize) -> (r: bool)
    requires
        at + p@.len() <= s@.len(),
    ensures
        r == (s@.subrange(at as int, at + p@.len()) == p@),
{
    let total: usize = s.len();
    for i in 0..p.len()
        invariant
            total == s@.len(),
            at + p@.len() <= total,
            forall|j: int| 0 <= j < i ==> s@[at + j] == p@[j],
    {
        if s[at + i] != p[i] {
            assert(s@.subrange(at as int, at + p@.len())[i as int] != p@[i as int]);
            return false;
        }
    }
    assert(s@.subrange(at as int, at + p@.len()) =~= p@);
    true
}

/// Whether one text begins with another.
pub fn text_starts_with(s: &str, p: &str) -> (r: bool)
    ensures
        r == starts_with(s@, p@),
{
    let sc = chars_of(s);
    let pc = chars_of(p);
    if pc.len() > sc.len() {
        return false;
    }
    assert(s@.take(p@.len() as int) =~= s@.subrange(0, p@.len() as int));
    matches_at(&sc, &pc, 0)
}

/// Whether one text ends with another.
pub fn text_ends_with(s: &str, p: &str) -> (r: bool)
    ensures
        r == ends_with(s@, p@),
{
    let sc = chars_of(s);
    let pc = chars_of(p);
    if pc.len() > sc.len() {
        return false;
    }
    let at: usize = sc.len() - pc.len();
    assert(s@.skip(s@.len() - p@.len()) =~= s@.subrange(at as int, at + p@.len()));
    matches_at(&sc, &pc, at)
}

/// Whether one text stands somewhere in another.
pub fn text_contains(s: &str, p: &str) -> (r: bool)
    ensures
        r == contains_text(s@, p@),
{
    let sc = chars_of(s);
    let pc = chars_of(p);
    if pc.len() > sc.len() {
        return false;
    }
    let last: usize = sc.len() - pc.len();
    let mut i: usize = 0;
    while i <= last
        invariant
            sc@ == s@,
            pc@ == p@,
            last + pc@.len() == sc@.len(),
            0 <= i <= last + 1,
            forall|j: int| 0 <= j < i ==> #[trigger] s@.subrange(j, j + p@.len()) != p@,
        decreases last + 1 - i,
    {
        if matches_at(&sc, &pc, i) {
            return true;
        }
        if i == last {
            return false;
        }
        i = i + 1;
    }
    false
}

/// The rest of a text after a prefix, where it has that prefix.
pub open spec fn strip_prefix(s: Seq<char>, p: Seq<char>) -> Option<Seq<char>> {
    if starts_with(s, p) {
        Some(s.skip(p.len() as int))
    } else {
        None
    }
}

/// `a` comes strictly before `b` in the order of characters, first difference
/// first; a proper prefix comes before the longer text.
pub open spec fn text_lt(a: Seq<char>, b: Seq<char>) -> bool
    decreases a.len(),
{
    if b.len() == 0 {
        false
    } else if a.len() == 0 {
        true
    } else if a[0] != b[0] {
        a[0] < b[0]
    } else {
        text_lt(a.drop_first(), b.drop_first())
    }
}

/// No text comes before itself.
pub proof fn lemma_text_lt_irreflexive(a: Seq<char>)
    ensures
        !text_lt(a, a),
    decreases a.len(),
{
    if a.len() > 0 {
        lemma_text_lt_irreflexive(a.drop_first());
    }
}

/// The order of texts is transitive.
pub proof fn lemma_text_lt_transitive(a: Seq<char>, b: Seq<char>, c: Seq<char>)
    requires
        text_lt(a, b),
        text_lt(b, c),
    ensures
        text_lt(a, c),
    decreases a.len(),
{
    if a.len() > 0 && b.len() > 0 && c.len() > 0 && a[0] == b[0] && b[0] == c[0] {
        lemma_text_lt_transitive(a.drop_first(), b.drop_first(), c.drop_first());
    }
}

/// Of two different texts one comes before the other.
pub proof fn lemma_text_lt_total(a: Seq<char>, b: Seq<char>)
    ensures
        a == b || text_lt(a, b) || text_lt(b, a),
    decreases a.len(),
{
    if a.len() == 0 || b.len() == 0 {
        if a.len() == 0 && b.len() == 0 {
            assert(a =~= b);
        }
    } else if a[0] == b[0] {
        lemma_text_lt_total(a.drop_first(), b.drop_first());
        if a.drop_first() == b.drop_first() {
            assert(a =~= seq![a[0]] + a.drop_first());
            assert(b =~= seq![b[0]] + b.drop_first());
        }
    }
}

/// Whether one text comes strictly before another.
pub fn text_before(a: &str, b: &str) -> (r: bool)
    ensures
        r == text_lt(a@, b@),
{
    let ac = chars_of(a);
    let bc = chars_of(b);
    let mut i: usize = 0;
    assert(a@.skip(0) =~= a@);
    assert(b@.skip(0) =~= b@);
    while i < ac.len() && i < bc.len()
        invariant
            ac@ == a@,
            bc@ == b@,
            i <= a@.len(),
            i <= b@.len(),
            text_lt(a@, b@) == text_lt(a@.skip(i as int), b@.skip(i as int)),
        decreases ac.len() - i,
    {
        if ac[i] != bc[i] {
            assert(a@.skip(i as int)[0] == ac@[i as int]);
            assert(b@.skip(i as int)[0] == bc@[i as int]);
            return ac[i] < bc[i];
        }
        assert(a@.skip(i as int).drop_first() =~= a@.skip(i + 1));
        assert(b@.skip(i as int).drop_first() =~= b@.skip(i + 1));
        i = i + 1;
    }
    i < bc.len()
}


// ---------------------------------------------------------------------------
// Splitting and joining
// ---------------------------------------------------------------------------

/// Picks out one character.
pub open spec fn the_char(c: char) -> spec_fn(char) -> bool {
    |x: char| x == c
}

/// Picks out white space.
pub open spec fn any_white() -> spec_fn(char) -> bool {
    |x: char| is_white(x)
}

/// The pieces of a text between the characters that `sep` picks out: read from
/// the left, such a character opens a new piece and any other one is added to
/// the last piece.
pub open spec fn pieces(s: Seq<char>, sep: spec_fn(char) -> bool) -> Seq<Seq<char>>
    decreases s.len(),
{
    if s.len() == 0 {
        seq![Seq::empty()]
    } else {
        let before = pieces(s.drop_last(), sep);
        if sep(s.last()) {
            before.push(Seq::empty())
        } else {
            before.drop_last().push(before.last().push(s.last()))
        }
    }
}

/// The pieces of a text between the occurrences of one character.
pub open spec fn split(s: Seq<char>, c: char) -> Seq<Seq<char>> {
    pieces(s, the_char(c))
}

/// The pieces of a text between the first `n - 1` occurrences of one character;
/// the last piece holds the rest, further occurrences included.
pub open spec fn splitn(s: Seq<char>, n: nat, c: char) -> Seq<Seq<char>>
    decreases s.len(),
{
    if s.len() == 0 {
        seq![Seq::empty()]
    } else {
        let before = splitn(s.drop_last(), n, c);
        if s.last() == c && before.len() < n {
            before.push(Seq::empty())
        } else {
            before.drop_last().push(before.last().push(s.last()))
        }
    }
}

/// Picks out the texts that are not empty.
pub open spec fn non_empty() -> spec_fn(Seq<char>) -> bool {
    |s: Seq<char>| s.len() > 0
}

/// The words of a text: its longest runs of characters that are no white space.
pub open spec fn words(s: Seq<char>) -> Seq<Seq<char>> {
    pieces(s, any_white()).filter(non_empty())
}

/// The non-empty segments of a path.
pub open spec fn path_parts(s: Seq<char>) -> Seq<Seq<char>> {
    split(s, '/').filter(non_empty())
}

/// A line without the carriage return that may stand at its end.
pub open spec fn strip_cr(s: Seq<char>) -> Seq<char> {
    if s.len() > 0 && s.last() == '\r' {
        s.drop_last()
    } else {
        s
    }
}

/// Takes the carriage return from the end of a line.
pub open spec fn without_cr() -> spec_fn(Seq<char>) -> Seq<char> {
    |s: Seq<char>| strip_cr(s)
}

/// The lines of a text. A line ends with a line feed, which a carriage return
/// may precede; what follows the last line feed is a line if it is not empty.
pub open spec fn lines(s: Seq<char>) -> Seq<Seq<char>> {
    let parts = split(s, '\n');
    let ended = parts.drop_last().map_values(without_cr());
    if parts.last().len() == 0 {
        ended
    } else {
        ended.push(parts.last())
    }
}

/// The parts of a list with a separator between each two.
pub open spec fn join(parts: Seq<Seq<char>>, sep: Seq<char>) -> Seq<char>
    decreases parts.len(),
{
    if parts.len() == 0 {
        Seq::empty()
    } else if parts.len() == 1 {
        parts[0]
    } else {
        join(parts.drop_last(), sep) + sep + parts.last()
    }
}

/// A text is never split into no pieces at all.
pub proof fn lemma_pieces_non_empty(s: Seq<char>, sep: spec_fn(char) -> bool)
    ensures
        pieces(s, sep).len() > 0,
    decreases s.len(),
{
    if s.len() > 0 {
        lemma_pieces_non_empty(s.drop_last(), sep);
    }
}

/// A bounded split yields at least one piece and at most `n`.
pub proof fn lemma_splitn_len(s: Seq<char>, n: nat, c: char)
    requires
        n > 0,
    ensures
        0 < splitn(s, n, c).len() <= n,
    decreases s.len(),
{
    if s.len() > 0 {
        lemma_splitn_len(s.drop_last(), n, c);
    }
}

/// Splitting a text at a character and joining the pieces with that character
/// gives the text back.
pub proof fn law_join_undoes_split(s: Seq<char>, c: char)
    ensures
        join(split(s, c), seq![c]) == s,
    decreases s.len(),
{
    let sep = the_char(c);
    if s.len() == 0 {
        assert(join(split(s, c), seq![c]) =~= s);
    } else {
        let before = pieces(s.drop_last(), sep);
        lemma_pieces_non_empty(s.drop_last(), sep);
        law_join_undoes_split(s.drop_last(), c);
        assert(s =~= s.drop_last().push(s.last()));
        let after = split(s, c);
        if s.last() == c {
            assert(after.drop_last() =~= before);
            assert(join(after, seq![c]) =~= s);
        } else {
            assert(after.drop_last() =~= before.drop_last());
            if before.len() == 1 {
                assert(join(after, seq![c]) =~= s);
            } else {
                assert(join(after, seq![c]) =~= s);
            }
        }
    }
}

/// A vector of vectors that grows by one element.
pub proof fn lemma_texts_push(v: Seq<Vec<char>>, x: Vec<char>)
    ensures
        texts(v.push(x)) == texts(v).push(x@),
{
    assert(texts(v.push(x)) =~= texts(v).push(x@));
}

/// Filtering a list that grows by one element.
pub proof fn lemma_filter_push<T>(s: Seq<T>, p: spec_fn(T) -> bool, x: T)
    ensures
        s.push(x).filter(p) == (if p(x) {
            s.filter(p).push(x)
        } else {
            s.filter(p)
        }),
{
    reveal(Seq::filter);
    assert(s.push(x).drop_last() =~= s);
}

/// The pieces of a text between the occurrences of one character.
pub fn split_chars(s: &[char], c: char) -> (r: Vec<Vec<char>>)
    ensures
        texts(r@) == split(s@, c),
        r@.len() > 0,
{
    let ghost sep = the_char(c);
    let mut out: Vec<Vec<char>> = Vec::new();
    let mut cur: Vec<char> = Vec::new();
    assert(texts(out@).push(cur@) =~= pieces(s@.take(0), sep));
    for i in 0..s.len()
        invariant
            sep == the_char(c),
            texts(out@).push(cur@) == pieces(s@.take(i as int), sep),
    {
        let ghost before = texts(out@).push(cur@);
        assert(s@.take(i + 1).drop_last() =~= s@.take(i as int));
        assert(before.drop_last() =~= texts(out@));
        if s[i] == c {
            proof {
                lemma_texts_push(out@, cur);
            }
            out.push(cur);
            cur = Vec::new();
            assert(cur@ =~= Seq::empty());
        } else {
            cur.push(s[i]);
        }
    }
    assert(s@.take(s@.len() as int) =~= s@);
    proof {
        lemma_texts_push(out@, cur);
    }
    out.push(cur);
    out
}

/// The pieces of a text between the first `n - 1` occurrences of one character.
pub fn splitn_chars(s: &[char], n: usize, c: char) -> (r: Vec<Vec<char>>)
    requires
        n > 0,
    ensures
        texts(r@) == splitn(s@, n as nat, c),
        0 < r@.len() <= n,
{
    let mut out: Vec<Vec<char>> = Vec::new();
    let mut cur: Vec<char> = Vec::new();
    assert(texts(out@).push(cur@) =~= splitn(s@.take(0), n as nat, c));
    for i in 0..s.len()
        invariant
            n > 0,
            out@.len() < n,
            texts(out@).push(cur@) == splitn(s@.take(i as int), n as nat, c),
    {
        let ghost before = texts(out@).push(cur@);
        assert(s@.take(i + 1).drop_last() =~= s@.take(i as int));
        assert(before.drop_last() =~= texts(out@));
        if s[i] == c && out.len() < n - 1 {
            proof {
                lemma_texts_push(out@, cur);
            }
            out.push(cur);
            cur = Vec::new();
            assert(cur@ =~= Seq::empty());
        } else {
            cur.push(s[i]);
        }
    }
    assert(s@.take(s@.len() as int) =~= s@);
    proof {
        lemma_texts_push(out@, cur);
    }
    out.push(cur);
    out
}

/// Adds a piece to a list unless it is empty.
fn push_non_empty(out: &mut Vec<Vec<char>>, piece: Vec<char>)
    ensures
        texts(final(out)@) == (if piece@.len() > 0 {
            texts(old(out)@).push(piece@)
        } else {
            texts(old(out)@)
        }),
{
    if piece.len() > 0 {
        proof {
            lemma_texts_push(out@, piece);
        }
        out.push(piece);
    }
}

/// The words of a text.
pub fn words_of(s: &[char]) -> (r: Vec<Vec<char>>)
    ensures
        texts(r@) == words(s@),
{
    let ghost sep = any_white();
    let ghost keep = non_empty();
    let mut out: Vec<Vec<char>> = Vec::new();
    let mut cur: Vec<char> = Vec::new();
    let ghost mut done: Seq<Seq<char>> = Seq::empty();
    assert(done.push(cur@) =~= pieces(s@.take(0), sep));
    assert(texts(out@) =~= done.filter(keep)) by {
        reveal(Seq::filter);
    }
    for i in 0..s.len()
        invariant
            sep == any_white(),
            keep == non_empty(),
            done.push(cur@) == pieces(s@.take(i as int), sep),
            texts(out@) == done.filter(keep),
    {
        let ghost before = done.push(cur@);
        assert(s@.take(i + 1).drop_last() =~= s@.take(i as int));
        assert(before.drop_last() =~= done);
        if is_white_space(s[i]) {
            proof {
                lemma_filter_push(done, keep, cur@);
                done = done.push(cur@);
            }
            push_non_empty(&mut out, cur);
            cur = Vec::new();
            assert(cur@ =~= Seq::empty());
        } else {
            cur.push(s[i]);
        }
    }
    assert(s@.take(s@.len() as int) =~= s@);
    proof {
        lemma_filter_push(done, keep, cur@);
    }
    push_non_empty(&mut out, cur);
    out
}

/// The non-empty segments of a path.
pub fn path_parts_of(s: &[char]) -> (r: Vec<Vec<char>>)
    ensures
        texts(r@) == path_parts(s@),
{
    let ghost keep = non_empty();
    let all = split_chars(s, '/');
    let mut out: Vec<Vec<char>> = Vec::new();
    assert(texts(out@) =~= texts(all@).take(0).filter(keep)) by {
        reveal(Seq::filter);
    }
    for i in 0..all.len()
        invariant
            keep == non_empty(),
            texts(out@) == texts(all@).take(i as int).filter(keep),
    {
        proof {
            lemma_filter_push(texts(all@).take(i as int), keep, all@[i as int]@);
            assert(texts(all@).take(i as int).push(all@[i as int]@) =~= texts(all@).take(i + 1));
        }
        let piece = clone_chars(&all[i]);
        push_non_empty(&mut out, piece);
    }
    assert(texts(all@).take(all@.len() as int) =~= texts(all@));
    out
}

/// A copy of a character vector.
pub fn clone_chars(v: &[char]) -> (r: Vec<char>)
    ensures
        r@ == v@,
{
    let mut r: Vec<char> = Vec::new();
    for i in 0..v.len()
        invariant
            r@ == v@.take(i as int),
    {
        r.push(v[i]);
    }
    assert(v@.take(v@.len() as int) =~= v@);
    r
}

/// The lines of a text.
pub fn lines_of(s: &[char]) -> (r: Vec<Vec<char>>)
    ensures
        texts(r@) == lines(s@),
{
    let parts = split_chars(s, '\n');
    let last: usize = parts.len() - 1;
    let mut out: Vec<Vec<char>> = Vec::new();
    let ghost ended = texts(parts@).drop_last().map_values(without_cr());
    assert(texts(out@) =~= ended.take(0));
    for i in 0..last
        invariant
            last == parts@.len() - 1,
            ended == texts(parts@).drop_last().map_values(without_cr()),
            texts(out@) == ended.take(i as int),
    {
        let mut line = clone_chars(&parts[i]);
        if line.len() > 0 && line[line.len() - 1] == '\r' {
            line.pop();
            assert(line@ =~= parts@[i as int]@.drop_last());
        }
        assert(line@ == ended[i as int]);
        proof {
            lemma_texts_push(out@, line);
        }
        out.push(line);
        assert(ended.take(i as int).push(ended[i as int]) =~= ended.take(i + 1));
    }
    assert(ended.take(last as int) =~= ended);
    assert(texts(parts@).last() == parts@[last as int]@);
    if parts[last].len() > 0 {
        let line = clone_chars(&parts[last]);
        proof {
            lemma_texts_push(out@, line);
        }
        out.push(line);
    }
    out
}

/// The parts of a list with a separator between each two.
pub fn join_chars(parts: &[Vec<char>], sep: &str) -> (r: String)
    ensures
        r@ == join(texts(parts@), sep@),
{
    let mut r = String::new();
    assert(texts(parts@).take(0) =~= Seq::<Seq<char>>::empty());
    for i in 0..parts.len()
        invariant
            r@ == join(texts(parts@).take(i as int), sep@),
    {
        let ghost now = texts(parts@).take(i + 1);
        assert(now.drop_last() =~= texts(parts@).take(i as int));
        if i > 0 {
            r.append(sep);
        }
        let piece = string_of(&parts[i]);
        r.append(piece.as_str());
        assert(now.last() == parts@[i as int]@);
        if i == 0 {
            assert(r@ =~= now[0]);
        }
    }
    assert(texts(parts@).take(parts@.len() as int) =~= texts(parts@));
    r
}

// ---------------------------------------------------------------------------
// Trimming and replacing
// ---------------------------------------------------------------------------

/// A text without the leading characters that `p` picks out.
pub open spec fn trim_start_by(s: Seq<char>, p: spec_fn(char) -> bool) -> Seq<char>
    decreases s.len(),
{
    if s.len() > 0 && p(s[0]) {
        trim_start_by(s.drop_first(), p)
    } else {
        s
    }
}

/// A text without the trailing characters that `p` picks out.
pub open spec fn trim_end_by(s: Seq<char>, p: spec_fn(char) -> bool) -> Seq<char>
    decreases s.len(),
{
    if s.len() > 0 && p(s.last()) {
        trim_end_by(s.drop_last(), p)
    } else {
        s
    }
}

/// A text without the white space at both its ends.
pub open spec fn trim(s: Seq<char>) -> Seq<char> {
    trim_end_by(trim_start_by(s, any_white()), any_white())
}

/// A text without the occurrences of one character at both its ends.
pub open spec fn trim_char(s: Seq<char>, c: char) -> Seq<char> {
    trim_end_by(trim_start_by(s, the_char(c)), the_char(c))
}

/// A text without the white space at both its ends.
pub fn trim_white(s: &[char]) -> (r: Vec<char>)
    ensures
        r@ == trim(s@),
{
    let ghost p = any_white();
    let mut start: usize = 0;
    assert(s@.skip(0) =~= s@);
    while start < s.len() && is_white_space(s[start])
        invariant
            start <= s@.len(),
            p == any_white(),
            trim_start_by(s@, p) == trim_start_by(s@.skip(start as int), p),
        decreases s@.len() - start,
    {
        assert(s@.skip(start as int).drop_first() =~= s@.skip(start + 1));
        start = start + 1;
    }
    let ghost rest = s@.skip(start as int);
    let mut end: usize = s.len();
    assert(s@.subrange(start as int, end as int) =~= rest);
    while end > start && is_white_space(s[end - 1])
        invariant
            start <= end <= s@.len(),
            p == any_white(),
            trim_end_by(rest, p) == trim_end_by(s@.subrange(start as int, end as int), p),
        decreases end,
    {
        assert(s@.subrange(start as int, end as int).drop_last() =~= s@.subrange(
            start as int,
            end - 1,
        ));
        end = end - 1;
    }
    sub_chars(s, start, end)
}

/// The characters of a slice from one position up to another.
pub fn sub_chars(s: &[char], start: usize, end: usize) -> (r: Vec<char>)
    requires
        start <= end <= s@.len(),
    ensures
        r@ == s@.subrange(start as int, end as int),
{
    let mut r: Vec<char> = Vec::new();
    assert(r@ =~= s@.subrange(start as int, start as int));
    for i in start..end
        invariant
            start <= end <= s@.len(),
            r@ == s@.subrange(start as int, i as int),
    {
        r.push(s[i]);
        assert(r@ =~= s@.subrange(start as int, i + 1));
    }
    r
}

/// A text without the trailing occurrences of one character.
pub fn trim_end_char(s: &[char], c: char) -> (r: Vec<char>)
    ensures
        r@ == trim_end_by(s@, the_char(c)),
{
    let ghost p = the_char(c);
    let mut end: usize = s.len();
    assert(s@.take(end as int) =~= s@);
    while end > 0 && s[end - 1] == c
        invariant
            end <= s@.len(),
            p == the_char(c),
            trim_end_by(s@, p) == trim_end_by(s@.take(end as int), p),
        decreases end,
    {
        assert(s@.take(end as int).drop_last() =~= s@.take(end - 1));
        end = end - 1;
    }
    assert(s@.subrange(0, end as int) =~= s@.take(end as int));
    sub_chars(s, 0, end)
}

/// A text without the occurrences of one character at both its ends.
pub fn trim_both_char(s: &[char], c: char) -> (r: Vec<char>)
    ensures
        r@ == trim_char(s@, c),
{
    let ghost p = the_char(c);
    let mut start: usize = 0;
    assert(s@.skip(0) =~= s@);
    while start < s.len() && s[start] == c
        invariant
            start <= s@.len(),
            p == the_char(c),
            trim_start_by(s@, p) == trim_start_by(s@.skip(start as int), p),
        decreases s@.len() - start,
    {
        assert(s@.skip(start as int).drop_first() =~= s@.skip(start + 1));
        start = start + 1;
    }
    assert(s@.subrange(start as int, s@.len() as int) =~= s@.skip(start as int));
    let rest = sub_chars(s, start, s.len());
    trim_end_char(&rest, c)
}

/// Adds a text to a list.
pub fn push_text(v: &mut Vec<String>, s: &str)
    ensures
        strings(final(v)@) == strings(old(v)@).push(s@),
        final(v)@.len() == old(v)@.len() + 1,
{
    let ghost before = v@;
    v.push(s.to_string());
    assert(strings(v@) =~= strings(before).push(s@));
}

/// A text in which another text stands for each occurrence of one character.
pub open spec fn replace_char(s: Seq<char>, c: char, with: Seq<char>) -> Seq<char>
    decreases s.len(),
{
    if s.len() == 0 {
        Seq::empty()
    } else if s.last() == c {
        replace_char(s.drop_last(), c, with) + with
    } else {
        replace_char(s.drop_last(), c, with).push(s.last())
    }
}

/// A text in which another text stands for each occurrence of one character.
pub fn replace_text(s: &str, c: char, with: &str) -> (r: String)
    ensures
        r@ == replace_char(s@, c, with@),
{
    let sc = chars_of(s);
    let mut r = String::new();
    for i in 0..sc.len()
        invariant
            sc@ == s@,
            r@ == replace_char(s@.take(i as int), c, with@),
    {
        assert(s@.take(i + 1).drop_last() =~= s@.take(i as int));
        if sc[i] == c {
            r.append(with);
        } else {
            r.push(sc[i]);
        }
    }
    assert(s@.take(s@.len() as int) =~= s@);
    r
}

/// The first `n` characters of a text, or all of it where it is shorter.
pub open spec fn take_chars(s: Seq<char>, n: nat) -> Seq<char> {
    if s.len() <= n {
        s
    } else {
        s.take(n as int)
    }
}

/// The first `n` characters of a text, or all of it where it is shorter.
pub fn take_text(s: &str, n: usize) -> (r: String)
    ensures
        r@ == take_chars(s@, n as nat),
{
    let sc = chars_of(s);
    if sc.len() <= n {
        string_of(&sc)
    } else {
        assert(s@.subrange(0, n as int) =~= s@.take(n as int));
        let head = sub_chars(&sc, 0, n);
        string_of(&head)
    }
}

// ---------------------------------------------------------------------------
// Decimal numbers
// ---------------------------------------------------------------------------

/// The digit of a number below ten.
pub open spec fn digit(d: nat) -> char {
    (48 + d) as char
}

/// The decimal numeral of a number, without leading zeros.
pub open spec fn decimal(n: nat) -> Seq<char>
    decreases n,
{
    if n < 10 {
        seq![digit(n)]
    } else {
        decimal(n / 10).push(digit(n % 10))
    }
}

/// Whether a character is a decimal digit.
pub open spec fn is_digit(c: char) -> bool {
    '0' <= c <= '9'
}

/// Whether every character of a text is a decimal digit.
pub open spec fn all_digits(s: Seq<char>) -> bool {
    forall|i: int| 0 <= i < s.len() ==> is_digit(#[trigger] s[i])
}

/// The number that a sequence of digits denotes.
pub open spec fn digits_value(s: Seq<char>) -> nat
    decreases s.len(),
{
    if s.len() == 0 {
        0
    } else {
        digits_value(s.drop_last()) * 10 + (s.last() as u32 - 48) as nat
    }
}

/// A text without the plus sign that may stand at its front.
pub open spec fn after_plus(s: Seq<char>) -> Seq<char> {
    if s.len() > 0 && s[0] == '+' {
        s.drop_first()
    } else {
        s
    }
}

/// The number up to `max` that a text denotes: at least one digit, which one
/// plus sign may precede, and nothing else.
pub open spec fn parse_number(s: Seq<char>, max: nat) -> Option<nat> {
    let t = after_plus(s);
    if t.len() > 0 && all_digits(t) && digits_value(t) <= max {
        Some(digits_value(t))
    } else {
        None
    }
}

/// Adds the numeral of a number to the end of a string.
fn push_number(r: &mut String, n: u64)
    ensures
        final(r)@ == old(r)@ + decimal(n as nat),
    decreases n,
{
    if n < 10 {
        r.push((48u8 + n as u8) as char);
        assert(r@ =~= old(r)@ + decimal(n as nat));
    } else {
        push_number(r, n / 10);
        r.push((48u8 + (n % 10) as u8) as char);
        assert(r@ =~= old(r)@ + decimal(n as nat));
    }
}

/// The decimal numeral of a number.
pub fn number_text(n: u64) -> (r: String)
    ensures
        r@ == decimal(n as nat),
{
    let mut r = String::new();
    push_number(&mut r, n);
    assert(r@ =~= decimal(n as nat));
    r
}

/// The number up to `max` that a text denotes.
pub fn number_of(s: &[char], max: u64) -> (r: Option<u64>)
    ensures
        match r {
            Some(v) => parse_number(s@, max as nat) == Some(v as nat),
            None => parse_number(s@, max as nat) is None,
        },
{
    let start: usize = if s.len() > 0 && s[0] == '+' {
        1
    } else {
        0
    };
    let ghost t = after_plus(s@);
    assert(t =~= s@.skip(start as int));
    if start == s.len() {
        return None;
    }
    let mut value: u64 = 0;
    let mut over: bool = false;
    let len: usize = s.len();
    for i in start..len
        invariant
            start <= len == s@.len(),
            t == s@.skip(start as int),
            t == after_plus(s@),
            forall|j: int| 0 <= j < i - start ==> is_digit(#[trigger] t[j]),
            !over ==> value as nat == digits_value(t.take(i - start)) && value <= max,
            over ==> digits_value(t.take(i - start)) > max,
    {
        let c = s[i];
        assert(t[i - start] == c);
        if !(c >= '0' && c <= '9') {
            assert(!is_digit(t[i - start]));
            return None;
        }
        let ghost k = i - start;
        assert(t.take(k + 1).drop_last() =~= t.take(k));
        assert(t.take(k + 1).last() == c);
        let d: u64 = (c as u32 - 48) as u64;
        if !over {
            if d > max || value > max / 10 || value * 10 > max - d {
                over = true;
            } else {
                value = value * 10 + d;
            }
        }
    }
    assert(t.take(len - start) =~= t);
    if over {
        None
    } else {
        Some(value)
    }
}

/// The numeral of a number consists of digits and denotes that number.
pub proof fn law_decimal_denotes(n: nat)
    ensures
        decimal(n).len() > 0,
        all_digits(decimal(n)),
        digits_value(decimal(n)) == n,
    decreases n,
{
    if n < 10 {
        let s = decimal(n);
        assert(s.drop_last() =~= Seq::empty());
        assert(digits_value(s.drop_last()) == 0);
        assert(s.last() == digit(n));
    } else {
        law_decimal_denotes(n / 10);
        let s = decimal(n);
        assert(s.drop_last() =~= decimal(n / 10));
        assert(s.last() == digit(n % 10));
        assert forall|i: int| 0 <= i < s.len() implies is_digit(#[trigger] s[i]) by {
            if i < s.len() - 1 {
                assert(s[i] == decimal(n / 10)[i]);
            }
        }
    }
}

/// Reading the numeral of a number gives the number back.
pub proof fn law_parse_undoes_decimal(n: nat, max: nat)
    requires
        n <= max,
    ensures
        parse_number(decimal(n), max) == Some(n),
{
    law_decimal_denotes(n);
    assert(is_digit(decimal(n)[0]));
}

// ---------------------------------------------------------------------------
// Laws
// ---------------------------------------------------------------------------

/// A text begins with each of its beginnings, ends with each of its ends, and
/// holds what stands in its middle; what follows a prefix is the rest.
pub proof fn law_parts_are_seen(a: Seq<char>, p: Seq<char>, b: Seq<char>)
    ensures
        starts_with(p + b, p),
        ends_with(a + p, p),
        contains_text(a + p + b, p),
        strip_prefix(p + b, p) == Some(b),
{
    assert((p + b).take(p.len() as int) =~= p);
    assert((p + b).skip(p.len() as int) =~= b);
    assert((a + p).skip(a.len() as int) =~= p);
    let at = a.len() as int;
    assert((a + p + b).subrange(at, at + p.len()) =~= p);
}

/// The first difference decides which of two texts comes first, and the lesser
/// character comes first; a text comes before every longer one that it begins.
pub proof fn law_first_difference_decides(
    p: Seq<char>,
    x: char,
    y: char,
    a: Seq<char>,
    b: Seq<char>,
)
    ensures
        x < y ==> text_lt(p + seq![x] + a, p + seq![y] + b),
        x > y ==> !text_lt(p + seq![x] + a, p + seq![y] + b),
        text_lt(p, p + seq![y] + b),
        !text_lt(p + seq![x] + a, p),
    decreases p.len(),
{
    let u = p + seq![x] + a;
    let v = p + seq![y] + b;
    if p.len() == 0 {
        assert(u[0] == x && v[0] == y);
    } else {
        let q = p.drop_first();
        law_first_difference_decides(q, x, y, a, b);
        assert(u.drop_first() =~= q + seq![x] + a);
        assert(v.drop_first() =~= q + seq![y] + b);
        assert(u[0] == p[0] && v[0] == p[0]);
    }
}

/// A text without a separator is its only piece.
pub proof fn law_unsplit_text_is_one_piece(s: Seq<char>, sep: spec_fn(char) -> bool)
    requires
        forall|i: int| 0 <= i < s.len() ==> !sep(#[trigger] s[i]),
    ensures
        pieces(s, sep) == seq![s],
    decreases s.len(),
{
    if s.len() > 0 {
        assert forall|i: int| 0 <= i < s.drop_last().len() implies !sep(
            #[trigger] s.drop_last()[i],
        ) by {
            assert(s[i] == s.drop_last()[i]);
        }
        law_unsplit_text_is_one_piece(s.drop_last(), sep);
        assert(s.drop_last().push(s.last()) =~= s);
        assert(pieces(s, sep) =~= seq![s]);
    } else {
        assert(s =~= Seq::empty());
    }
}

/// What stands before the first separator is the first piece; the others are the
/// pieces of what follows.
pub proof fn law_first_piece(
    head: Seq<char>,
    c: char,
    rest: Seq<char>,
    sep: spec_fn(char) -> bool,
)
    requires
        forall|i: int| 0 <= i < head.len() ==> !sep(#[trigger] head[i]),
        sep(c),
    ensures
        pieces(head + seq![c] + rest, sep) == seq![head] + pieces(rest, sep),
    decreases rest.len(),
{
    let s = head + seq![c] + rest;
    if rest.len() == 0 {
        law_unsplit_text_is_one_piece(head, sep);
        assert(s.drop_last() =~= head);
        assert(pieces(s, sep) =~= seq![head] + pieces(rest, sep));
    } else {
        law_first_piece(head, c, rest.drop_last(), sep);
        lemma_pieces_non_empty(rest.drop_last(), sep);
        assert(s.drop_last() =~= head + seq![c] + rest.drop_last());
        assert(s.last() == rest.last());
        let after = pieces(rest.drop_last(), sep);
        let before = seq![head] + after;
        assert(before.last() == after.last());
        assert(before.drop_last() =~= seq![head] + after.drop_last());
        assert(pieces(s, sep) =~= seq![head] + pieces(rest, sep));
    }
}

/// A split that is bounded by one piece keeps the text whole, and so does one
/// whose separator does not occur.
pub proof fn law_bounded_split_keeps_the_rest(s: Seq<char>, n: nat, c: char)
    requires
        n > 0,
        n == 1 || forall|i: int| 0 <= i < s.len() ==> #[trigger] s[i] != c,
    ensures
        splitn(s, n, c) == seq![s],
    decreases s.len(),
{
    if s.len() > 0 {
        if n != 1 {
            assert forall|i: int| 0 <= i < s.drop_last().len() implies #[trigger] s.drop_last()[i]
                != c by {
                assert(s[i] == s.drop_last()[i]);
            }
        }
        law_bounded_split_keeps_the_rest(s.drop_last(), n, c);
        assert(s.drop_last().push(s.last()) =~= s);
        assert(splitn(s, n, c) =~= seq![s]);
    } else {
        assert(s =~= Seq::empty());
    }
}

/// What stands before the first separator is the first piece of a bounded split
/// too; what follows is split with a bound that is less by one.
pub proof fn law_bounded_first_piece(head: Seq<char>, c: char, rest: Seq<char>, n: nat)
    requires
        n > 1,
        forall|i: int| 0 <= i < head.len() ==> #[trigger] head[i] != c,
    ensures
        splitn(head + seq![c] + rest, n, c) == seq![head] + splitn(rest, (n - 1) as nat, c),
    decreases rest.len(),
{
    let s = head + seq![c] + rest;
    let m = (n - 1) as nat;
    if rest.len() == 0 {
        law_bounded_split_keeps_the_rest(head, n, c);
        assert(s.drop_last() =~= head);
        assert(splitn(s, n, c) =~= seq![head] + splitn(rest, m, c));
    } else {
        law_bounded_first_piece(head, c, rest.drop_last(), n);
        lemma_splitn_len(rest.drop_last(), m, c);
        assert(s.drop_last() =~= head + seq![c] + rest.drop_last());
        assert(s.last() == rest.last());
        let after = splitn(rest.drop_last(), m, c);
        let before = seq![head] + after;
        assert(before.last() == after.last());
        assert(before.drop_last() =~= seq![head] + after.drop_last());
        assert(splitn(s, n, c) =~= seq![head] + splitn(rest, m, c));
    }
}

/// Filtering a list whose first element is kept or left out.
proof fn lemma_filter_first<T>(x: T, s: Seq<T>, p: spec_fn(T) -> bool)
    ensures
        (seq![x] + s).filter(p) == (if p(x) {
            seq![x] + s.filter(p)
        } else {
            s.filter(p)
        }),
    decreases s.len(),
{
    reveal(Seq::filter);
    let all = seq![x] + s;
    if s.len() == 0 {
        assert(all.drop_last() =~= Seq::<T>::empty());
        assert(all.drop_last().filter(p) =~= Seq::<T>::empty());
        assert(all.filter(p) =~= if p(x) {
            seq![x] + s.filter(p)
        } else {
            s.filter(p)
        });
    } else {
        lemma_filter_first(x, s.drop_last(), p);
        assert(all.drop_last() =~= seq![x] + s.drop_last());
        assert(all.last() == s.last());
        assert(all.filter(p) =~= if p(x) {
            seq![x] + s.filter(p)
        } else {
            s.filter(p)
        });
    }
}

/// The words of a text, read from the left: white space is passed over, and what
/// stands before the next white space is a word.
pub proof fn law_words_read_from_the_left(word: Seq<char>, space: char, rest: Seq<char>)
    requires
        forall|i: int| 0 <= i < word.len() ==> !is_white(#[trigger] word[i]),
        is_white(space),
    ensures
        words(Seq::empty()) == Seq::<Seq<char>>::empty(),
        words(seq![space] + rest) == words(rest),
        word.len() > 0 ==> words(word) == seq![word],
        word.len() > 0 ==> words(word + seq![space] + rest) == seq![word] + words(rest),
{
    let none = Seq::<char>::empty();
    let sep = any_white();
    assert forall|i: int| 0 <= i < word.len() implies !sep(#[trigger] word[i]) by {}
    law_unsplit_text_is_one_piece(none, sep);
    lemma_filter_first(none, Seq::<Seq<char>>::empty(), non_empty());
    law_first_piece(none, space, rest, sep);
    assert(none + seq![space] + rest =~= seq![space] + rest);
    lemma_filter_first(none, pieces(rest, sep), non_empty());
    law_unsplit_text_is_one_piece(word, sep);
    law_first_piece(word, space, rest, sep);
    lemma_filter_first(word, pieces(rest, sep), non_empty());
    lemma_filter_first(word, Seq::<Seq<char>>::empty(), non_empty());
    assert(seq![none] + Seq::<Seq<char>>::empty() =~= seq![none]);
    assert(seq![word] + Seq::<Seq<char>>::empty() =~= seq![word]);
    assert(Seq::<Seq<char>>::empty().filter(non_empty()) =~= Seq::<Seq<char>>::empty()) by {
        reveal(Seq::filter);
    }
}

/// The lines of a text, read from the left: what stands before a line feed is a
/// line, without the carriage return at its end; what follows the last line feed
/// is a line as it stands, unless it is empty.
pub proof fn law_lines_read_from_the_left(line: Seq<char>, rest: Seq<char>)
    requires
        forall|i: int| 0 <= i < line.len() ==> #[trigger] line[i] != '\n',
    ensures
        lines(Seq::empty()) == Seq::<Seq<char>>::empty(),
        line.len() > 0 ==> lines(line) == seq![line],
        line.len() == 0 || line.last() != '\r' ==> lines(line + seq!['\n'] + rest) == seq![line]
            + lines(rest),
        lines(line + seq!['\r', '\n'] + rest) == seq![line] + lines(rest),
{
    let none = Seq::<char>::empty();
    let sep = the_char('\n');
    assert(split(none, '\n') =~= seq![none]);
    assert(lines(none) =~= Seq::<Seq<char>>::empty());
    assert forall|i: int| 0 <= i < line.len() implies !sep(#[trigger] line[i]) by {}
    law_unsplit_text_is_one_piece(line, sep);
    if line.len() > 0 {
        assert(lines(line) =~= seq![line]);
    }
    lemma_first_line(line, rest);
    let with_cr = line.push('\r');
    assert forall|i: int| 0 <= i < with_cr.len() implies #[trigger] with_cr[i] != '\n' by {
        if i < line.len() {
            assert(with_cr[i] == line[i]);
        }
    }
    lemma_first_line(with_cr, rest);
    assert(with_cr + seq!['\n'] + rest =~= line + seq!['\r', '\n'] + rest);
    assert(with_cr.drop_last() =~= line);
}

proof fn lemma_first_line(line: Seq<char>, rest: Seq<char>)
    requires
        forall|i: int| 0 <= i < line.len() ==> #[trigger] line[i] != '\n',
    ensures
        lines(line + seq!['\n'] + rest) == seq![strip_cr(line)] + lines(rest),
{
    let sep = the_char('\n');
    assert forall|i: int| 0 <= i < line.len() implies !sep(#[trigger] line[i]) by {}
    law_first_piece(line, '\n', rest, sep);
    lemma_pieces_non_empty(rest, sep);
    let s = line + seq!['\n'] + rest;
    let after = split(rest, '\n');
    let parts = split(s, '\n');
    assert(parts == seq![line] + after);
    assert(parts.drop_last() =~= seq![line] + after.drop_last());
    assert(parts.last() == after.last());
    assert(parts.drop_last().map_values(without_cr()) =~= seq![strip_cr(line)]
        + after.drop_last().map_values(without_cr()));
    assert(lines(s) =~= seq![strip_cr(line)] + lines(rest));
}

/// What `p` picks out at the ends of a text is taken off, and nothing else: where
/// the first and the last character of the core are not picked out, the core is
/// left.
pub proof fn law_trim_leaves_the_core(
    a: Seq<char>,
    core: Seq<char>,
    b: Seq<char>,
    p: spec_fn(char) -> bool,
)
    requires
        forall|i: int| 0 <= i < a.len() ==> p(#[trigger] a[i]),
        forall|i: int| 0 <= i < b.len() ==> p(#[trigger] b[i]),
        core.len() > 0 ==> !p(core[0]) && !p(core.last()),
    ensures
        trim_end_by(trim_start_by(a + core + b, p), p) == core,
    decreases a.len() + b.len(),
{
    let s = a + core + b;
    if a.len() > 0 {
        let rest = a.drop_first();
        assert forall|i: int| 0 <= i < rest.len() implies p(#[trigger] rest[i]) by {
            assert(rest[i] == a[i + 1]);
        }
        assert(p(a[0]));
        assert(s.drop_first() =~= rest + core + b);
        law_trim_leaves_the_core(rest, core, b, p);
    } else if core.len() > 0 {
        assert(s[0] == core[0]);
        lemma_trim_end(core, b, p);
        assert(s =~= core + b);
    } else {
        assert(s =~= b);
        lemma_trim_start_all(b, p);
    }
}

proof fn lemma_trim_start_all(b: Seq<char>, p: spec_fn(char) -> bool)
    requires
        forall|i: int| 0 <= i < b.len() ==> p(#[trigger] b[i]),
    ensures
        trim_start_by(b, p).len() == 0,
    decreases b.len(),
{
    if b.len() > 0 {
        assert(p(b[0]));
        assert forall|i: int| 0 <= i < b.drop_first().len() implies p(
            #[trigger] b.drop_first()[i],
        ) by {
            assert(b.drop_first()[i] == b[i + 1]);
        }
        lemma_trim_start_all(b.drop_first(), p);
    }
}

proof fn lemma_trim_end(core: Seq<char>, b: Seq<char>, p: spec_fn(char) -> bool)
    requires
        forall|i: int| 0 <= i < b.len() ==> p(#[trigger] b[i]),
        core.len() > 0,
        !p(core.last()),
    ensures
        trim_end_by(core + b, p) == core,
    decreases b.len(),
{
    let s = core + b;
    if b.len() > 0 {
        assert(p(b[b.len() - 1]));
        assert(s.last() == b.last());
        assert(s.drop_last() =~= core + b.drop_last());
        assert forall|i: int| 0 <= i < b.drop_last().len() implies p(
            #[trigger] b.drop_last()[i],
        ) by {
            assert(b.drop_last()[i] == b[i]);
        }
        lemma_trim_end(core, b.drop_last(), p);
    } else {
        assert(s =~= core);
    }
}

/// White space around a text is trimmed off, and so are the occurrences of one
/// character; what is between them stays.
pub proof fn law_trim(a: Seq<char>, core: Seq<char>, b: Seq<char>, c: char)
    ensures
        (forall|i: int| 0 <= i < a.len() ==> is_white(#[trigger] a[i])) && (forall|i: int|
            0 <= i < b.len() ==> is_white(#[trigger] b[i])) && (core.len() > 0 ==> !is_white(
            core[0],
        ) && !is_white(core.last())) ==> trim(a + core + b) == core,
        (forall|i: int| 0 <= i < a.len() ==> #[trigger] a[i] == c) && (forall|i: int|
            0 <= i < b.len() ==> #[trigger] b[i] == c) && (core.len() > 0 ==> core[0] != c
            && core.last() != c) ==> trim_char(a + core + b, c) == core,
{
    if (forall|i: int| 0 <= i < a.len() ==> is_white(#[trigger] a[i])) && (forall|i: int|
        0 <= i < b.len() ==> is_white(#[trigger] b[i])) && (core.len() > 0 ==> !is_white(core[0])
        && !is_white(core.last())) {
        assert forall|i: int| 0 <= i < a.len() implies any_white()(#[trigger] a[i]) by {}
        assert forall|i: int| 0 <= i < b.len() implies any_white()(#[trigger] b[i]) by {}
        law_trim_leaves_the_core(a, core, b, any_white());
    }
    if (forall|i: int| 0 <= i < a.len() ==> #[trigger] a[i] == c) && (forall|i: int|
        0 <= i < b.len() ==> #[trigger] b[i] == c) && (core.len() > 0 ==> core[0] != c
        && core.last() != c) {
        assert forall|i: int| 0 <= i < a.len() implies the_char(c)(#[trigger] a[i]) by {}
        assert forall|i: int| 0 <= i < b.len() implies the_char(c)(#[trigger] b[i]) by {}
        law_trim_leaves_the_core(a, core, b, the_char(c));
    }
}

/// To replace a character is to split at it and to join the pieces with what
/// stands for it.
pub proof fn law_replace_joins_the_pieces(s: Seq<char>, c: char, with: Seq<char>)
    ensures
        replace_char(s, c, with) == join(split(s, c), with),
    decreases s.len(),
{
    let sep = the_char(c);
    if s.len() == 0 {
        assert(join(split(s, c), with) =~= Seq::<char>::empty());
    } else {
        let before = pieces(s.drop_last(), sep);
        lemma_pieces_non_empty(s.drop_last(), sep);
        law_replace_joins_the_pieces(s.drop_last(), c, with);
        let after = split(s, c);
        if s.last() == c {
            assert(after.drop_last() =~= before);
            assert(join(after, with) =~= join(before, with) + with);
        } else {
            assert(after.drop_last() =~= before.drop_last());
            assert(join(after, with) =~= join(before, with).push(s.last()));
        }
    }
}

/// The parts of a list are joined from the left, with the separator between each
/// two and nowhere else.
pub proof fn law_join_from_the_left(first: Seq<char>, rest: Seq<Seq<char>>, sep: Seq<char>)
    ensures
        join(Seq::empty(), sep) == Seq::<char>::empty(),
        join(seq![first], sep) == first,
        rest.len() > 0 ==> join(seq![first] + rest, sep) == first + sep + join(rest, sep),
    decreases rest.len(),
{
    let all = seq![first] + rest;
    if rest.len() == 1 {
        assert(all.drop_last() =~= seq![first]);
        assert(all.last() == rest[0]);
        assert(join(seq![first], sep) == first);
        assert(join(all, sep) =~= first + sep + join(rest, sep));
    } else if rest.len() > 1 {
        law_join_from_the_left(first, rest.drop_last(), sep);
        assert(all.drop_last() =~= seq![first] + rest.drop_last());
        assert(all.last() == rest.last());
        assert(join(all, sep) =~= first + sep + join(rest, sep));
    }
}

/// A numeral has no leading zero, but for that of zero itself.
pub proof fn law_no_leading_zero(n: nat)
    ensures
        n > 0 ==> decimal(n)[0] != '0',
        n == 0 ==> decimal(n) == seq!['0'],
    decreases n,
{
    if n >= 10 {
        law_no_leading_zero(n / 10);
        law_decimal_denotes(n / 10);
        assert(decimal(n)[0] == decimal(n / 10)[0]);
    } else if n == 0 {
        assert(decimal(n) =~= seq!['0']);
    }
}

/// A number is read from digits alone, which one plus sign may precede: zeros at
/// the front count for nothing, every other character spoils it, and so does a
/// value above the bound.
pub proof fn law_what_is_a_number(s: Seq<char>, n: nat, max: nat)
    ensures
        s.len() == 0 ==> parse_number(s, max) is None,
        parse_number(s, max) matches Some(v) ==> v <= max,
        (exists|i: int| 0 < i < s.len() && !is_digit(#[trigger] s[i])) ==> parse_number(s, max)
            is None,
        s.len() > 0 && s[0] != '+' && !is_digit(s[0]) ==> parse_number(s, max) is None,
        n > max ==> parse_number(decimal(n), max) is None,
        n <= max ==> parse_number(seq!['+'] + decimal(n), max) == Some(n),
        n <= max ==> parse_number(seq!['0'] + decimal(n), max) == Some(n),
{
    law_decimal_denotes(n);
    let d = decimal(n);
    assert(is_digit(d[0]));
    assert((seq!['+'] + d).drop_first() =~= d);
    lemma_zero_in_front(d);
    let z = seq!['0'] + d;
    assert forall|i: int| 0 <= i < z.len() implies is_digit(#[trigger] z[i]) by {
        if i > 0 {
            assert(z[i] == d[i - 1]);
        }
    }
    assert(after_plus(z) == z);
    if exists|i: int| 0 < i < s.len() && !is_digit(#[trigger] s[i]) {
        let i = choose|i: int| 0 < i < s.len() && !is_digit(#[trigger] s[i]);
        let t = after_plus(s);
        if s[0] == '+' {
            assert(t[i - 1] == s[i]);
        }
        assert(!all_digits(t));
    }
    if s.len() > 0 && s[0] != '+' && !is_digit(s[0]) {
        assert(after_plus(s)[0] == s[0]);
    }
}

proof fn lemma_zero_in_front(s: Seq<char>)
    ensures
        digits_value(seq!['0'] + s) == digits_value(s),
    decreases s.len(),
{
    let z = seq!['0'] + s;
    if s.len() == 0 {
        assert(z.drop_last() =~= Seq::<char>::empty());
        assert(digits_value(z.drop_last()) == 0);
    } else {
        lemma_zero_in_front(s.drop_last());
        assert(z.drop_last() =~= seq!['0'] + s.drop_last());
        assert(z.last() == s.last());
    }
}

/// What follows the last separator is the last piece.
pub proof fn law_last_piece(before: Seq<char>, c: char, last: Seq<char>, sep: spec_fn(char) -> bool)
    requires
        forall|i: int| 0 <= i < last.len() ==> !sep(#[trigger] last[i]),
        sep(c),
    ensures
        pieces(before + seq![c] + last, sep) == pieces(before, sep).push(last),
    decreases last.len(),
{
    let s = before + seq![c] + last;
    if last.len() == 0 {
        assert(s.drop_last() =~= before);
        assert(last =~= Seq::empty());
    } else {
        let shorter = last.drop_last();
        assert forall|i: int| 0 <= i < shorter.len() implies !sep(#[trigger] shorter[i]) by {
            assert(last[i] == shorter[i]);
        }
        law_last_piece(before, c, shorter, sep);
        assert(s.drop_last() =~= before + seq![c] + shorter);
        assert(s.last() == last[last.len() - 1]);
        assert(shorter.push(last.last()) =~= last);
        assert(pieces(s, sep) =~= pieces(before, sep).push(last));
    }
}

/// A text that does not begin with white space is not blank.
pub proof fn law_visible_start_is_kept(s: Seq<char>)
    requires
        s.len() > 0,
        !is_white(s[0]),
    ensures
        trim(s).len() > 0,
{
    lemma_trim_end_keeps_first(s, any_white());
}

proof fn lemma_trim_end_keeps_first(s: Seq<char>, p: spec_fn(char) -> bool)
    requires
        s.len() > 0,
        !p(s[0]),
    ensures
        trim_end_by(s, p).len() > 0,
    decreases s.len(),
{
    if p(s.last()) {
        lemma_trim_end_keeps_first(s.drop_last(), p);
    }
}

/// What a text begins with, ends with or holds stands there character by
/// character.
pub proof fn law_seen_parts_are_there(s: Seq<char>, p: Seq<char>)
    ensures
        starts_with(s, p) ==> p.len() <= s.len() && forall|i: int|
            0 <= i < p.len() ==> #[trigger] s[i] == p[i],
        ends_with(s, p) ==> p.len() <= s.len() && forall|i: int|
            0 <= i < p.len() ==> s[s.len() - p.len() + i] == #[trigger] p[i],
        contains_text(s, p) ==> exists|at: int|
            0 <= at && at + p.len() <= s.len() && #[trigger] stands_at(s, p, at),
{
    if starts_with(s, p) {
        assert forall|i: int| 0 <= i < p.len() implies #[trigger] s[i] == p[i] by {
            assert(s.take(p.len() as int)[i] == s[i]);
        }
    }
    if ends_with(s, p) {
        assert forall|i: int| 0 <= i < p.len() implies s[s.len() - p.len() + i]
            == #[trigger] p[i] by {
            assert(s.skip(s.len() - p.len())[i] == s[s.len() - p.len() + i]);
        }
    }
    if contains_text(s, p) {
        let at = choose|i: int|
            0 <= i && i + p.len() <= s.len() && #[trigger] s.subrange(i, i + p.len()) == p;
        assert forall|i: int| 0 <= i < p.len() implies s[at + i] == #[trigger] p[i] by {
            assert(s.subrange(at, at + p.len())[i] == s[at + i]);
        }
        assert(stands_at(s, p, at));
    }
}

/// Whether the characters of a text stand in another one from a place on.
pub open spec fn stands_at(s: Seq<char>, p: Seq<char>, at: int) -> bool {
    forall|i: int| 0 <= i < p.len() ==> s[at + i] == #[trigger] p[i]
}

/// The segments of a path, read from the left: slashes are passed over, and what
/// stands before the next one is a segment.
pub proof fn law_segments_read_from_the_left(segment: Seq<char>, rest: Seq<char>)
    requires
        forall|i: int| 0 <= i < segment.len() ==> #[trigger] segment[i] != '/',
    ensures
        path_parts(Seq::empty()) == Seq::<Seq<char>>::empty(),
        path_parts(seq!['/'] + rest) == path_parts(rest),
        segment.len() > 0 ==> path_parts(segment) == seq![segment],
        segment.len() > 0 ==> path_parts(segment + seq!['/'] + rest) == seq![segment] + path_parts(
            rest,
        ),
{
    let none = Seq::<char>::empty();
    let sep = the_char('/');
    assert forall|i: int| 0 <= i < segment.len() implies !sep(#[trigger] segment[i]) by {}
    law_unsplit_text_is_one_piece(none, sep);
    lemma_filter_first(none, Seq::<Seq<char>>::empty(), non_empty());
    law_first_piece(none, '/', rest, sep);
    assert(none + seq!['/'] + rest =~= seq!['/'] + rest);
    lemma_filter_first(none, pieces(rest, sep), non_empty());
    law_unsplit_text_is_one_piece(segment, sep);
    law_first_piece(segment, '/', rest, sep);
    lemma_filter_first(segment, pieces(rest, sep), non_empty());
    lemma_filter_first(segment, Seq::<Seq<char>>::empty(), non_empty());
    assert(seq![none] + Seq::<Seq<char>>::empty() =~= seq![none]);
    assert(seq![segment] + Seq::<Seq<char>>::empty() =~= seq![segment]);
    assert(Seq::<Seq<char>>::empty().filter(non_empty()) =~= Seq::<Seq<char>>::empty()) by {
        reveal(Seq::filter);
    }
}

} // verus!
