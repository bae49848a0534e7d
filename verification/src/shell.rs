//! Command lines: texts quoted for a POSIX shell, and names that tmux takes.

use vstd::prelude::*;
use vstd::string::*;

use crate::text::{
    chars_of, concat3, join, law_replace_joins_the_pieces, law_trim, law_unsplit_text_is_one_piece,
    replace_char, replace_text, split, string_of, strings, the_char, trim_both_char, trim_char,
    trim_end_by, trim_start_by,
};

verus! {

/// A program and its arguments.
#[derive(Debug)]
pub struct CommandLine {
    pub program: String,
    pub args: Vec<String>,
}

/// A program and its arguments as values.
#[verifier::ext_equal]
pub struct CommandView {
    pub program: Seq<char>,
    pub args: Seq<Seq<char>>,
}

impl View for CommandLine {
    type V = CommandView;

    open spec fn view(&self) -> CommandView {
        CommandView { program: self.program@, args: strings(self.args@) }
    }
}

// ---------------------------------------------------------------------------
// How a shell reads a command line
// ---------------------------------------------------------------------------

/// Where a shell stands while it reads a command line.
pub enum Reading {
    /// Outside quotes.
    Bare,
    /// Inside single quotes.
    Quoted,
    /// Behind a backslash.
    Escaped,
    /// Behind a character that is not just read.
    Special,
}

/// What a shell has read of a command line: the words before, the word at
/// hand, if one has begun, and where it stands.
#[verifier::ext_equal]
pub struct ShellState {
    pub words: Seq<Seq<char>>,
    pub word: Option<Seq<char>>,
    pub at: Reading,
}

/// Whether a character stands for itself outside quotes.
pub open spec fn stands_for_itself(c: char) -> bool {
    ('a' <= c && c <= 'z') || ('A' <= c && c <= 'Z') || ('0' <= c && c <= '9') || c == '/' || c
        == '.' || c == '_' || c == '-' || c == ':' || c == '@'
}

/// The word at hand, empty where none has begun.
pub open spec fn word_of(st: ShellState) -> Seq<char> {
    match st.word {
        Some(w) => w,
        None => Seq::empty(),
    }
}

/// What a shell does with the next character.
pub open spec fn shell_step(st: ShellState, c: char) -> ShellState {
    match st.at {
        Reading::Bare => if c == '\'' {
            ShellState { word: Some(word_of(st)), at: Reading::Quoted, ..st }
        } else if c == '\\' {
            ShellState { at: Reading::Escaped, ..st }
        } else if c == ' ' {
            match st.word {
                Some(w) => ShellState { words: st.words.push(w), word: None, at: Reading::Bare },
                None => st,
            }
        } else if stands_for_itself(c) {
            ShellState { word: Some(word_of(st).push(c)), ..st }
        } else {
            ShellState { at: Reading::Special, ..st }
        },
        Reading::Quoted => if c == '\'' {
            ShellState { at: Reading::Bare, ..st }
        } else {
            ShellState { word: Some(word_of(st).push(c)), ..st }
        },
        Reading::Escaped => if c == '\n' {
            ShellState { at: Reading::Special, ..st }
        } else {
            ShellState { word: Some(word_of(st).push(c)), at: Reading::Bare, ..st }
        },
        Reading::Special => st,
    }
}

/// What a shell has read once it has gone through a text.
pub open spec fn shell_read(st: ShellState, s: Seq<char>) -> ShellState
    decreases s.len(),
{
    if s.len() == 0 {
        st
    } else {
        shell_step(shell_read(st, s.drop_last()), s.last())
    }
}

/// The state before a command line.
pub open spec fn shell_start() -> ShellState {
    ShellState { words: Seq::empty(), word: None, at: Reading::Bare }
}

/// The words of a command line, where it holds nothing but words.
pub open spec fn shell_words(s: Seq<char>) -> Option<Seq<Seq<char>>> {
    let st = shell_read(shell_start(), s);
    if st.at is Bare {
        Some(
            match st.word {
                Some(w) => st.words.push(w),
                None => st.words,
            },
        )
    } else {
        None
    }
}

/// A shell reads two texts one after the other.
pub proof fn lemma_shell_read_concat(st: ShellState, a: Seq<char>, b: Seq<char>)
    ensures
        shell_read(st, a + b) == shell_read(shell_read(st, a), b),
    decreases b.len(),
{
    if b.len() == 0 {
        assert(a + b =~= a);
    } else {
        lemma_shell_read_concat(st, a, b.drop_last());
        assert((a + b).drop_last() =~= a + b.drop_last());
        assert((a + b).last() == b.last());
    }
}

// ---------------------------------------------------------------------------
// Quoting
// ---------------------------------------------------------------------------

/// A text to stand inside single quotes.
pub open spec fn inside_quotes(s: Seq<char>) -> Seq<char> {
    replace_char(s, '\'', "'\\''"@)
}

/// Whether every character of a text stands for itself.
pub open spec fn all_bare(s: Seq<char>) -> bool {
    forall|i: int| 0 <= i < s.len() ==> stands_for_itself(#[trigger] s[i])
}

/// A text as one word of a command line.
pub open spec fn quoted(s: Seq<char>) -> Seq<char> {
    if s.len() == 0 {
        "''"@
    } else if all_bare(s) {
        s
    } else {
        "'"@ + inside_quotes(s) + "'"@
    }
}

/// Words as a command line.
pub open spec fn command_line(words: Seq<Seq<char>>) -> Seq<char>
    decreases words.len(),
{
    if words.len() == 0 {
        Seq::empty()
    } else if words.len() == 1 {
        quoted(words[0])
    } else {
        command_line(words.drop_last()) + " "@ + quoted(words.last())
    }
}

/// A shell reads one character.
proof fn lemma_shell_read_one(st: ShellState, s: Seq<char>, c: char)
    ensures
        shell_read(st, s.push(c)) == shell_step(shell_read(st, s), c),
{
    assert(s.push(c).drop_last() =~= s);
}

/// Inside quotes a shell reads an escaped quote as a quote.
proof fn lemma_reads_escaped_quote(st: ShellState)
    requires
        st.at is Quoted,
    ensures
        shell_read(st, "'\\''"@) == (ShellState { word: Some(word_of(st).push('\'')), ..st }),
{
    reveal_strlit("'\\''");
    let e0 = Seq::<char>::empty();
    let e1 = e0.push('\'');
    let e2 = e1.push('\\');
    let e3 = e2.push('\'');
    let e4 = e3.push('\'');
    assert("'\\''"@ =~= e4);
    lemma_shell_read_one(st, e0, '\'');
    lemma_shell_read_one(st, e1, '\\');
    lemma_shell_read_one(st, e2, '\'');
    lemma_shell_read_one(st, e3, '\'');
    assert(shell_read(st, e0) == st);
    assert(shell_read(st, e1) == (ShellState { at: Reading::Bare, ..st }));
    assert(shell_read(st, e2) == (ShellState { at: Reading::Escaped, ..st }));
    assert(shell_read(st, e3) == (ShellState {
        word: Some(word_of(st).push('\'')),
        at: Reading::Bare,
        ..st
    }));
}

/// Inside quotes a shell reads an escaped text as the text.
pub proof fn lemma_reads_inside_quotes(st: ShellState, s: Seq<char>)
    requires
        st.at is Quoted,
    ensures
        shell_read(st, inside_quotes(s)).at is Quoted,
        shell_read(st, inside_quotes(s)).words == st.words,
        word_of(shell_read(st, inside_quotes(s))) == word_of(st) + s,
        s.len() > 0 || st.word is Some ==> shell_read(st, inside_quotes(s)).word is Some,
    decreases s.len(),
{
    if s.len() == 0 {
        assert(word_of(st) + s =~= word_of(st));
    } else {
        let head = s.drop_last();
        lemma_reads_inside_quotes(st, head);
        let mid = shell_read(st, inside_quotes(head));
        if s.last() == '\'' {
            lemma_shell_read_concat(st, inside_quotes(head), "'\\''"@);
            lemma_reads_escaped_quote(mid);
            assert(word_of(st) + s =~= (word_of(st) + head).push('\''));
        } else {
            let all = inside_quotes(s);
            assert(all.drop_last() =~= inside_quotes(head));
            assert(all.last() == s.last());
            assert(word_of(st) + s =~= (word_of(st) + head).push(s.last()));
        }
    }
}

/// Outside quotes a shell reads characters that stand for themselves as they
/// are.
pub proof fn lemma_reads_bare(st: ShellState, s: Seq<char>)
    requires
        st.at is Bare,
        all_bare(s),
    ensures
        shell_read(st, s).at is Bare,
        shell_read(st, s).words == st.words,
        word_of(shell_read(st, s)) == word_of(st) + s,
        s.len() > 0 ==> shell_read(st, s).word is Some,
    decreases s.len(),
{
    if s.len() == 0 {
        assert(word_of(st) + s =~= word_of(st));
    } else {
        let head = s.drop_last();
        assert forall|i: int| 0 <= i < head.len() implies stands_for_itself(#[trigger] head[i]) by {
            assert(head[i] == s[i]);
        }
        lemma_reads_bare(st, head);
        assert(stands_for_itself(s[s.len() - 1]));
        assert(word_of(st) + s =~= (word_of(st) + head).push(s.last()));
    }
}

/// A shell takes a word as read at the space behind it.
pub proof fn lemma_reads_space(st: ShellState)
    requires
        st.at is Bare,
        st.word is Some,
    ensures
        shell_read(st, " "@) == (ShellState {
            words: st.words.push(word_of(st)),
            word: None,
            at: Reading::Bare,
        }),
{
    reveal_strlit(" ");
    reveal_with_fuel(shell_read, 2);
    assert(" "@.drop_last() =~= Seq::<char>::empty());
}

/// A shell reads characters that stand for themselves, and the space behind
/// them, as one word.
pub proof fn lemma_reads_word(st: ShellState, w: Seq<char>)
    requires
        st.at is Bare,
        st.word is None,
        all_bare(w),
        w.len() > 0,
    ensures
        shell_read(st, w + " "@) == (ShellState {
            words: st.words.push(w),
            word: None,
            at: Reading::Bare,
        }),
{
    lemma_reads_bare(st, w);
    assert(word_of(st) + w =~= w);
    lemma_shell_read_concat(st, w, " "@);
    lemma_reads_space(shell_read(st, w));
}

/// A shell reads a text in single quotes, and the space behind it, as one word.
pub proof fn lemma_reads_quoted_word(st: ShellState, s: Seq<char>)
    requires
        st.at is Bare,
        st.word is None,
    ensures
        shell_read(st, "'"@ + inside_quotes(s) + "'"@ + " "@) == (ShellState {
            words: st.words.push(s),
            word: None,
            at: Reading::Bare,
        }),
{
    lemma_reads_in_quotes(st, s);
    assert(word_of(st) + s =~= s);
    let q = "'"@ + inside_quotes(s) + "'"@;
    lemma_shell_read_concat(st, q, " "@);
    lemma_reads_space(shell_read(st, q));
}

/// A shell reads a text in single quotes as the text.
pub proof fn lemma_reads_in_quotes(st: ShellState, s: Seq<char>)
    requires
        st.at is Bare,
    ensures
        shell_read(st, "'"@ + inside_quotes(s) + "'"@) == (ShellState {
            words: st.words,
            word: Some(word_of(st) + s),
            at: Reading::Bare,
        }),
{
    reveal_strlit("'");
    reveal_with_fuel(shell_read, 2);
    let q = "'"@;
    assert(q.drop_last() =~= Seq::<char>::empty());
    let open = shell_read(st, q);
    assert(open == shell_step(st, '\''));
    lemma_shell_read_concat(st, q, inside_quotes(s));
    lemma_shell_read_concat(st, q + inside_quotes(s), q);
    lemma_reads_inside_quotes(open, s);
    let mid = shell_read(open, inside_quotes(s));
    assert(shell_read(mid, q) == shell_step(mid, '\''));
    assert(word_of(open) == word_of(st));
}

/// A shell reads a quoted text as one word.
pub proof fn lemma_reads_quoted(st: ShellState, s: Seq<char>)
    requires
        st.at is Bare,
    ensures
        shell_read(st, quoted(s)) == (ShellState {
            words: st.words,
            word: Some(word_of(st) + s),
            at: Reading::Bare,
        }),
{
    if s.len() == 0 {
        reveal_strlit("''");
        reveal_with_fuel(shell_read, 3);
        let e = "''"@;
        assert(e.drop_last() =~= seq!['\'']);
        assert(e.drop_last().drop_last() =~= Seq::<char>::empty());
        assert(word_of(st) + s =~= word_of(st));
    } else if all_bare(s) {
        lemma_reads_bare(st, s);
    } else {
        lemma_reads_in_quotes(st, s);
    }
}

/// A shell reads a command line as the words that it was made of.
pub proof fn law_command_line_reads_back(words: Seq<Seq<char>>)
    ensures
        shell_words(command_line(words)) == Some(words),
{
    lemma_command_line(words);
    if words.len() > 0 {
        assert(words.drop_last().push(words.last()) =~= words);
    } else {
        assert(words =~= Seq::<Seq<char>>::empty());
    }
}

proof fn lemma_command_line(words: Seq<Seq<char>>)
    ensures
        words.len() == 0 ==> shell_read(shell_start(), command_line(words)) == shell_start(),
        words.len() > 0 ==> shell_read(shell_start(), command_line(words)) == (ShellState {
            words: words.drop_last(),
            word: Some(words.last()),
            at: Reading::Bare,
        }),
    decreases words.len(),
{
    let st = shell_start();
    if words.len() == 1 {
        lemma_reads_quoted(st, words[0]);
        assert(word_of(st) + words[0] =~= words[0]);
        assert(words.drop_last() =~= Seq::<Seq<char>>::empty());
    } else if words.len() > 1 {
        let head = words.drop_last();
        lemma_command_line(head);
        let a = command_line(head);
        let b = " "@;
        let c = quoted(words.last());
        lemma_shell_read_concat(st, a, b);
        lemma_shell_read_concat(st, a + b, c);
        reveal_strlit(" ");
        reveal_with_fuel(shell_read, 2);
        assert(b.drop_last() =~= Seq::<char>::empty());
        let after = shell_read(st, a + b);
        assert(after.words =~= head) by {
            assert(head.drop_last().push(head.last()) =~= head);
        }
        lemma_reads_quoted(after, words.last());
        assert(word_of(after) + words.last() =~= words.last());
    }
}

/// Whether every character of a text stands for itself.
fn stands_bare(s: &Vec<char>) -> (r: bool)
    ensures
        r == all_bare(s@),
{
    for i in 0..s.len()
        invariant
            forall|k: int| 0 <= k < i ==> stands_for_itself(#[trigger] s@[k]),
    {
        let c = s[i];
        if !(('a' <= c && c <= 'z') || ('A' <= c && c <= 'Z') || ('0' <= c && c <= '9') || c == '/'
            || c == '.' || c == '_' || c == '-' || c == ':' || c == '@') {
            return false;
        }
    }
    true
}

/// A text to stand inside single quotes.
pub fn escape_quotes(value: &str) -> (r: String)
    ensures
        r@ == inside_quotes(value@),
{
    replace_text(value, '\'', "'\\''")
}

/// A text as one word of a command line.
pub fn shell_escape(value: &str) -> (r: String)
    ensures
        r@ == quoted(value@),
{
    let chars = chars_of(value);
    if chars.len() == 0 {
        return "''".to_string();
    }
    if stands_bare(&chars) {
        return value.to_string();
    }
    concat3("'", escape_quotes(value).as_str(), "'")
}

/// A program and its arguments as a command line.
pub fn shell_join(program: &str, args: &Vec<String>) -> (r: String)
    ensures
        r@ == command_line(seq![program@] + strings(args@)),
{
    let ghost all = seq![program@] + strings(args@);
    let mut r = shell_escape(program);
    assert(all.take(1) =~= seq![program@]);
    for i in 0..args.len()
        invariant
            all == seq![program@] + strings(args@),
            r@ == command_line(all.take(i + 1)),
    {
        let word = shell_escape(args[i].as_str());
        r = concat3(r.as_str(), " ", word.as_str());
        assert(all.take(i + 2).drop_last() =~= all.take(i + 1));
        assert(all.take(i + 2).last() == args@[i as int]@);
    }
    assert(all.take(all.len() as int) =~= all);
    r
}

// ---------------------------------------------------------------------------
// Names
// ---------------------------------------------------------------------------

/// Whether a character may stand in a name.
pub open spec fn name_char(c: char) -> bool {
    ('a' <= c && c <= 'z') || ('A' <= c && c <= 'Z') || ('0' <= c && c <= '9') || c == '-' || c
        == '_' || c == '.'
}

/// A text with hyphens for the characters that may not stand in a name.
pub open spec fn hyphenated(s: Seq<char>) -> Seq<char> {
    Seq::new(
        s.len(),
        |i: int|
            if name_char(s[i]) {
                s[i]
            } else {
                '-'
            },
    )
}

/// The name made of a text: hyphens for what may not stand in it, none at its
/// ends, and the fallback where nothing is left.
pub open spec fn sanitized(s: Seq<char>, fallback: Seq<char>) -> Seq<char> {
    let name = trim_char(hyphenated(s), '-');
    if name.len() == 0 {
        fallback
    } else {
        name
    }
}

/// The name made of a text.
pub fn sanitize_name(value: &str, fallback: &str) -> (r: String)
    ensures
        r@ == sanitized(value@, fallback@),
{
    let chars = chars_of(value);
    let mut name: Vec<char> = Vec::new();
    for i in 0..chars.len()
        invariant
            chars@ == value@,
            name@ == hyphenated(value@).take(i as int),
    {
        let c = chars[i];
        if ('a' <= c && c <= 'z') || ('A' <= c && c <= 'Z') || ('0' <= c && c <= '9') || c == '-'
            || c == '_' || c == '.' {
            name.push(c);
        } else {
            name.push('-');
        }
        assert(name@ =~= hyphenated(value@).take(i + 1));
    }
    assert(hyphenated(value@).take(value@.len() as int) =~= hyphenated(value@));
    let trimmed = trim_both_char(&name, '-');
    if trimmed.len() == 0 {
        fallback.to_string()
    } else {
        string_of(&trimmed)
    }
}

/// Whether a text is a name: not empty, no character that may not stand in it,
/// no hyphen at its ends.
pub open spec fn is_name(s: Seq<char>) -> bool {
    &&& s.len() > 0
    &&& forall|i: int| 0 <= i < s.len() ==> name_char(#[trigger] s[i])
    &&& s[0] != '-'
    &&& s.last() != '-'
}

proof fn lemma_trim_start(s: Seq<char>)
    ensures
        ({
            let t = trim_start_by(s, the_char('-'));
            &&& t.len() <= s.len()
            &&& t == s.skip(s.len() - t.len())
            &&& t.len() > 0 ==> t[0] != '-'
        }),
    decreases s.len(),
{
    let p = the_char('-');
    if s.len() > 0 && p(s[0]) {
        lemma_trim_start(s.drop_first());
        let t = trim_start_by(s, p);
        assert(t =~= s.skip(s.len() - t.len()));
    } else {
        assert(s.skip(0) =~= s);
    }
}

proof fn lemma_trim_end(s: Seq<char>)
    ensures
        ({
            let t = trim_end_by(s, the_char('-'));
            &&& t.len() <= s.len()
            &&& t == s.take(t.len() as int)
            &&& t.len() > 0 ==> t.last() != '-'
        }),
    decreases s.len(),
{
    let p = the_char('-');
    if s.len() > 0 && p(s.last()) {
        lemma_trim_end(s.drop_last());
        let t = trim_end_by(s, p);
        assert(t =~= s.take(t.len() as int));
    } else {
        assert(s.take(s.len() as int) =~= s);
    }
}

/// What comes out is a name, and a name comes out as it is.
pub proof fn law_sanitized_is_name(s: Seq<char>, fallback: Seq<char>)
    requires
        is_name(fallback),
    ensures
        is_name(sanitized(s, fallback)),
        is_name(s) ==> sanitized(s, fallback) == s,
        sanitized(sanitized(s, fallback), fallback) == sanitized(s, fallback),
{
    lemma_sanitized(s, fallback);
    lemma_sanitized(sanitized(s, fallback), fallback);
}

proof fn lemma_sanitized(s: Seq<char>, fallback: Seq<char>)
    requires
        is_name(fallback),
    ensures
        is_name(sanitized(s, fallback)),
        is_name(s) ==> sanitized(s, fallback) == s,
{
    let h = hyphenated(s);
    let a = trim_start_by(h, the_char('-'));
    let t = trim_end_by(a, the_char('-'));
    lemma_trim_start(h);
    lemma_trim_end(a);
    if t.len() > 0 {
        assert forall|i: int| 0 <= i < t.len() implies name_char(#[trigger] t[i]) by {
            assert(t[i] == a[i]);
            assert(a[i] == h[h.len() - a.len() + i]);
        }
        assert(t[0] == a[0]);
    }
    if is_name(s) {
        assert(h =~= s);
        assert(trim_start_by(h, the_char('-')) == h);
        assert(trim_end_by(h, the_char('-')) == h);
    }
}

/// The characters of names are letters, digits, hyphens, underscores and dots.
pub proof fn law_characters_of_names(c: char)
    ensures
        name_char(c) <==> ('a' <= c <= 'z') || ('A' <= c <= 'Z') || ('0' <= c <= '9') || c == '-'
            || c == '_' || c == '.',
{
}

/// What is a name already stays as it is; what holds no character of a name gets
/// the fallback.
pub proof fn law_names_are_kept(s: Seq<char>, fallback: Seq<char>)
    ensures
        is_name(s) ==> sanitized(s, fallback) == s,
        (forall|i: int| 0 <= i < s.len() ==> !name_char(#[trigger] s[i])) ==> sanitized(s, fallback)
            == fallback,
{
    let none = Seq::<char>::empty();
    if is_name(s) {
        assert(hyphenated(s) =~= s);
        assert(none + s + none =~= s);
        law_trim(none, s, none, '-');
    }
    if forall|i: int| 0 <= i < s.len() ==> !name_char(#[trigger] s[i]) {
        let h = hyphenated(s);
        assert forall|i: int| 0 <= i < h.len() implies #[trigger] h[i] == '-' by {
            assert(!name_char(s[i]));
        }
        law_trim(h, none, none, '-');
        assert(h + none + none =~= h);
    }
}

/// Every character of a text that is none of a name becomes a hyphen, the others
/// stay, and hyphens around the rest are taken off.
pub proof fn law_others_become_hyphens(a: Seq<char>, core: Seq<char>, b: Seq<char>, fallback: Seq<char>)
    requires
        core.len() > 0,
        name_char(core[0]) && core[0] != '-',
        name_char(core.last()) && core.last() != '-',
        forall|i: int| 0 <= i < a.len() ==> !name_char(#[trigger] a[i]) || a[i] == '-',
        forall|i: int| 0 <= i < b.len() ==> !name_char(#[trigger] b[i]) || b[i] == '-',
    ensures
        sanitized(a + core + b, fallback).len() == core.len(),
        forall|i: int|
            0 <= i < core.len() ==> #[trigger] sanitized(a + core + b, fallback)[i] == if name_char(
                core[i],
            ) {
                core[i]
            } else {
                '-'
            },
{
    let ha = hyphenated(a);
    let hc = hyphenated(core);
    let hb = hyphenated(b);
    assert(hyphenated(a + core + b) =~= ha + hc + hb);
    assert forall|i: int| 0 <= i < ha.len() implies #[trigger] ha[i] == '-' by {
        assert(!name_char(a[i]) || a[i] == '-');
    }
    assert forall|i: int| 0 <= i < hb.len() implies #[trigger] hb[i] == '-' by {
        assert(!name_char(b[i]) || b[i] == '-');
    }
    law_trim(ha, hc, hb, '-');
}

/// The words of a command line follow each other with one space between them, each
/// quoted for itself.
pub proof fn law_command_line_in_turn(first: Seq<char>, rest: Seq<Seq<char>>)
    ensures
        command_line(seq![first]) == quoted(first),
        rest.len() > 0 ==> command_line(seq![first] + rest) == quoted(first) + " "@ + command_line(
            rest,
        ),
    decreases rest.len(),
{
    let all = seq![first] + rest;
    if rest.len() == 1 {
        assert(all.drop_last() =~= seq![first]);
        assert(all.last() == rest[0]);
        assert(command_line(seq![first]) == quoted(first));
        assert(command_line(all) =~= quoted(first) + " "@ + command_line(rest));
    } else if rest.len() > 1 {
        law_command_line_in_turn(first, rest.drop_last());
        assert(all.drop_last() =~= seq![first] + rest.drop_last());
        assert(all.last() == rest.last());
        assert(command_line(all) =~= quoted(first) + " "@ + command_line(rest));
    }
}

/// Inside quotes, each quote is left, escaped and entered again; all else stands as
/// it is.
pub proof fn law_quotes_are_escaped(s: Seq<char>)
    ensures
        inside_quotes(s) == join(split(s, '\''), seq!['\'', '\\', '\'', '\'']),
        (forall|i: int| 0 <= i < s.len() ==> #[trigger] s[i] != '\'') ==> inside_quotes(s) == s,
{
    reveal_strlit("'\\''");
    assert("'\\''"@ =~= seq!['\'', '\\', '\'', '\'']);
    law_replace_joins_the_pieces(s, '\'', "'\\''"@);
    if forall|i: int| 0 <= i < s.len() ==> #[trigger] s[i] != '\'' {
        let sep = the_char('\'');
        assert forall|i: int| 0 <= i < s.len() implies !sep(#[trigger] s[i]) by {}
        law_unsplit_text_is_one_piece(s, sep);
    }
}

/// A word is quoted unless it is made of letters, digits and harmless signs alone;
/// the empty word is a pair of quotes.
pub proof fn law_when_words_are_quoted(s: Seq<char>)
    ensures
        s.len() == 0 ==> quoted(s) == seq!['\'', '\''],
        s.len() > 0 && (forall|i: int|
            0 <= i < s.len() ==> ('a' <= #[trigger] s[i] <= 'z') || ('A' <= s[i] <= 'Z') || ('0'
                <= s[i] <= '9') || s[i] == '/' || s[i] == '.' || s[i] == '_' || s[i] == '-' || s[i]
                == ':' || s[i] == '@') ==> quoted(s) == s,
        (exists|i: int|
            0 <= i < s.len() && !(('a' <= #[trigger] s[i] <= 'z') || ('A' <= s[i] <= 'Z') || ('0'
                <= s[i] <= '9') || s[i] == '/' || s[i] == '.' || s[i] == '_' || s[i] == '-' || s[i]
                == ':' || s[i] == '@')) ==> quoted(s) == seq!['\''] + inside_quotes(s) + seq!['\''],
{
    reveal_strlit("''");
    reveal_strlit("'");
    assert("''"@ =~= seq!['\'', '\'']);
    assert("'"@ =~= seq!['\'']);
    if exists|i: int|
        0 <= i < s.len() && !(('a' <= #[trigger] s[i] <= 'z') || ('A' <= s[i] <= 'Z') || ('0' <= s[i]
            <= '9') || s[i] == '/' || s[i] == '.' || s[i] == '_' || s[i] == '-' || s[i] == ':'
            || s[i] == '@') {
        let i = choose|i: int|
            0 <= i < s.len() && !(('a' <= #[trigger] s[i] <= 'z') || ('A' <= s[i] <= 'Z') || ('0'
                <= s[i] <= '9') || s[i] == '/' || s[i] == '.' || s[i] == '_' || s[i] == '-' || s[i]
                == ':' || s[i] == '@');
        assert(!stands_for_itself(s[i]));
        assert(!all_bare(s));
    }
}

} // verus!
