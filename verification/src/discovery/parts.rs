//! What the stored parts of a session tell of its state.

use vstd::prelude::*;
use vstd::string::*;

use crate::text::{
    chars_of, law_lines_read_from_the_left, lines, lines_of, opt_text, string_of, texts, trim,
    trim_white,
};
use crate::types::{state_of_status, SessionState};

verus! {

/// The value of a hexadecimal digit, in upper or lower case.
pub open spec fn hex_value(c: char) -> Option<nat> {
    if '0' <= c <= '9' {
        Some((c as int - 48) as nat)
    } else if 'A' <= c <= 'F' {
        Some((c as int - 55) as nat)
    } else if 'a' <= c <= 'f' {
        Some((c as int - 87) as nat)
    } else {
        None
    }
}

/// The bytes that pairs of hexadecimal digits stand for.
pub open spec fn hex_bytes(s: Seq<char>) -> Option<Seq<u8>>
    decreases s.len(),
{
    if s.len() == 0 {
        Some(Seq::empty())
    } else if s.len() == 1 {
        None
    } else {
        let n = s.len() as int;
        match (hex_bytes(s.take(n - 2)), hex_value(s[n - 2]), hex_value(s[n - 1])) {
            (Some(before), Some(high), Some(low)) => Some(before.push((16 * high + low) as u8)),
            _ => None,
        }
    }
}

/// The hexadecimal numeral of a byte, in upper case.
pub open spec fn byte_digits(b: u8) -> Seq<char> {
    seq![upper_digit((b / 16) as int), upper_digit((b % 16) as int)]
}

/// The hexadecimal digit of a number below sixteen, in upper case.
pub open spec fn upper_digit(d: int) -> char {
    if d < 10 {
        (48 + d) as char
    } else {
        (55 + d) as char
    }
}

/// The hexadecimal numerals of bytes, one behind the other.
pub open spec fn hex_text(bytes: Seq<u8>) -> Seq<char>
    decreases bytes.len(),
{
    if bytes.len() == 0 {
        Seq::empty()
    } else {
        hex_text(bytes.drop_last()) + byte_digits(bytes.last())
    }
}

/// The value of a hexadecimal digit.
fn digit_value(c: char) -> (r: Option<u8>)
    ensures
        match r {
            Some(v) => hex_value(c) == Some(v as nat) && v < 16,
            None => hex_value(c) is None,
        },
{
    if '0' <= c && c <= '9' {
        Some((c as u32 - 48) as u8)
    } else if 'A' <= c && c <= 'F' {
        Some((c as u32 - 55) as u8)
    } else if 'a' <= c && c <= 'f' {
        Some((c as u32 - 87) as u8)
    } else {
        None
    }
}

/// The bytes of a stored part, which a query gives as hexadecimal digits.
pub fn decode_sqlite_hex_payload(line: &str) -> (r: Option<Vec<u8>>)
    ensures
        match r {
            Some(bytes) => hex_bytes(trim(line@)) == Some(bytes@),
            None => hex_bytes(trim(line@)) is None,
        },
{
    let chars = chars_of(line);
    let digits = trim_white(&chars);
    let ghost s = digits@;
    let n: usize = digits.len();
    let mut bytes: Vec<u8> = Vec::new();
    let mut i: usize = 0;
    while n - i >= 2
        invariant
            i % 2 == 0,
            n == digits@.len(),
            s == digits@,
            s == trim(line@),
            i <= n,
            hex_bytes(s.take(i as int)) == Some(bytes@),
        decreases n - i,
    {
        let ghost head = s.take(i + 2);
        assert(head.take(i as int) =~= s.take(i as int));
        assert(head[i as int] == s[i as int] && head[i + 1] == s[i + 1]);
        match (digit_value(digits[i]), digit_value(digits[i + 1])) {
            (Some(high), Some(low)) => {
                bytes.push(16 * high + low);
                i = i + 2;
            },
            _ => {
                proof {
                    lemma_bad_start(s, i + 2);
                }
                return None;
            },
        }
    }
    if i < n {
        proof {
            lemma_even(s);
        }
        return None;
    }
    assert(s.take(n as int) =~= s);
    Some(bytes)
}

/// Only texts of even length stand for bytes.
proof fn lemma_even(s: Seq<char>)
    ensures
        hex_bytes(s) is Some ==> s.len() % 2 == 0,
    decreases s.len(),
{
    if s.len() >= 2 {
        lemma_even(s.take(s.len() - 2));
    }
}

/// A text whose beginning of even length stands for no bytes stands for none.
proof fn lemma_bad_start(s: Seq<char>, k: int)
    requires
        0 <= k <= s.len(),
        k % 2 == 0,
        hex_bytes(s.take(k)) is None,
    ensures
        hex_bytes(s) is None,
    decreases s.len(),
{
    if s.len() == k {
        assert(s.take(k) =~= s);
    } else if s.len() == k + 1 {
        lemma_even(s);
    } else {
        let head = s.take(s.len() - 2);
        assert(head.take(k) =~= s.take(k));
        lemma_bad_start(head, k);
    }
}

/// The numerals of bytes give the bytes back.
pub proof fn law_hex_reads_back(bytes: Seq<u8>)
    ensures
        hex_bytes(hex_text(bytes)) == Some(bytes),
    decreases bytes.len(),
{
    if bytes.len() > 0 {
        let head = bytes.drop_last();
        law_hex_reads_back(head);
        let s = hex_text(bytes);
        let n = s.len() as int;
        assert(s.take(n - 2) =~= hex_text(head));
        let b = bytes.last();
        assert(s[n - 2] == upper_digit((b / 16) as int));
        assert(s[n - 1] == upper_digit((b % 16) as int));
        assert(hex_value(s[n - 2]) == Some((b / 16) as nat));
        assert(hex_value(s[n - 1]) == Some((b % 16) as nat));
        assert(head.push(b) =~= bytes);
    } else {
        assert(bytes =~= Seq::<u8>::empty());
    }
}

/// The state that the status of a stored part stands for, where it stands for
/// one.
pub open spec fn part_state(status: Option<Seq<char>>) -> Option<SessionState> {
    match status {
        Some(text) => if state_of_status(text) == SessionState::Unknown {
            None
        } else {
            Some(state_of_status(text))
        },
        None => None,
    }
}

/// The state that the status of a stored part stands for.
pub fn infer_session_state_from_part(status: &Option<String>) -> (r: Option<SessionState>)
    ensures
        r == part_state(opt_text(*status)),
{
    match status {
        Some(text) => {
            let state = SessionState::from_oc_str(text.as_str());
            if state == SessionState::Unknown {
                None
            } else {
                Some(state)
            }
        },
        None => None,
    }
}

/// The state that the first status that stands for one stands for.
pub open spec fn first_state(statuses: Seq<Option<Seq<char>>>, from: int) -> Option<SessionState>
    decreases statuses.len() - from,
{
    if from >= statuses.len() {
        None
    } else {
        match part_state(statuses[from]) {
            Some(state) => Some(state),
            None => first_state(statuses, from + 1),
        }
    }
}

/// The views of statuses.
pub open spec fn status_texts(v: Seq<Option<String>>) -> Seq<Option<Seq<char>>> {
    Seq::new(v.len(), |k: int| opt_text(v[k]))
}

/// The state of a session by the statuses of its stored parts, the last part
/// first.
pub fn inferred_state(statuses: &Vec<Option<String>>) -> (r: Option<SessionState>)
    ensures
        r == first_state(status_texts(statuses@), 0),
{
    let ghost texts = status_texts(statuses@);
    let mut i: usize = 0;
    while i < statuses.len()
        invariant
            i <= statuses@.len(),
            texts == status_texts(statuses@),
            first_state(texts, 0) == first_state(texts, i as int),
        decreases statuses@.len() - i,
    {
        assert(texts[i as int] == opt_text(statuses@[i as int]));
        match infer_session_state_from_part(&statuses[i]) {
            Some(state) => {
                return Some(state);
            },
            None => {},
        }
        i = i + 1;
    }
    None
}

// ---------------------------------------------------------------------------
// Stored parts
// ---------------------------------------------------------------------------

/// The text at a place in JSON, as `serde_json` reads it, where there is one.
pub uninterp spec fn json_text_at(json: Seq<u8>, pointer: Seq<char>) -> Option<Seq<char>>;

/// The text at a place in JSON, by `serde_json::from_slice` into a
/// `serde_json::Value`, its `pointer` and `as_str`; none where the bytes are no
/// JSON, where nothing stands at the place, or something that is no text. What
/// the bytes hold is named.
#[verifier::external_body]
fn text_at(json: &Vec<u8>, pointer: &str) -> (r: Option<String>)
    ensures
        opt_text(r) == json_text_at(json@, pointer@),
{
    let value: serde_json::Value = serde_json::from_slice(json).ok()?;
    value.pointer(pointer)?.as_str().map(|text| text.to_string())
}

/// The statuses of stored parts, out of the lines that a query gives; a line that
/// is no numeral of bytes is passed over.
pub open spec fn stored_statuses(lines: Seq<Seq<char>>) -> Seq<Option<Seq<char>>>
    decreases lines.len(),
{
    if lines.len() == 0 {
        Seq::empty()
    } else {
        let before = stored_statuses(lines.drop_last());
        match hex_bytes(trim(lines.last())) {
            Some(bytes) => before.push(json_text_at(bytes, "/state/status"@)),
            None => before,
        }
    }
}

/// The statuses of stored parts, out of what a query gives.
pub fn part_statuses(output: &str) -> (r: Vec<Option<String>>)
    ensures
        status_texts(r@) == stored_statuses(lines(output@)),
{
    let chars = chars_of(output);
    let rows = lines_of(&chars);
    let ghost ls = lines(output@);
    let mut out: Vec<Option<String>> = Vec::new();
    assert(status_texts(out@) =~= Seq::<Option<Seq<char>>>::empty());
    for i in 0..rows.len()
        invariant
            texts(rows@) == ls,
            status_texts(out@) == stored_statuses(ls.take(i as int)),
    {
        assert(ls.take(i + 1).drop_last() =~= ls.take(i as int));
        assert(ls[i as int] == rows@[i as int]@);
        let row = string_of(&rows[i]);
        if let Some(bytes) = decode_sqlite_hex_payload(row.as_str()) {
            let ghost before = status_texts(out@);
            let status = text_at(&bytes, "/state/status");
            out.push(status);
            assert(status_texts(out@) =~= before.push(opt_text(status)));
        }
    }
    assert(ls.take(ls.len() as int) =~= ls);
    out
}

/// The state of a session, out of what a query for its stored parts gives.
pub open spec fn state_in_parts(output: Seq<char>) -> Option<SessionState> {
    first_state(stored_statuses(lines(output)), 0)
}

/// The state of a session, out of what a query for its stored parts gives.
pub fn state_of_parts(output: &str) -> (r: Option<SessionState>)
    ensures
        r == state_in_parts(output@),
{
    inferred_state(&part_statuses(output))
}

/// The first part whose status names a state other than unknown tells the state;
/// where none does, nothing is told.
pub proof fn law_first_known_state_counts(
    statuses: Seq<Option<Seq<char>>>,
    from: int,
    at: int,
)
    requires
        0 <= from <= at <= statuses.len(),
        forall|k: int|
            from <= k < at && (#[trigger] statuses[k]) is Some ==> state_of_status(statuses[k]->0)
                == SessionState::Unknown,
        at < statuses.len() ==> statuses[at] is Some && state_of_status(statuses[at]->0)
            != SessionState::Unknown,
    ensures
        at < statuses.len() ==> first_state(statuses, from) == Some(state_of_status(statuses[at]->0)),
        at == statuses.len() ==> first_state(statuses, from) is None,
    decreases at - from,
{
    if from < at {
        assert(part_state(statuses[from]) is None) by {
            if statuses[from] is Some {
                assert(state_of_status(statuses[from]->0) == SessionState::Unknown);
            }
        }
        law_first_known_state_counts(statuses, from + 1, at);
    }
}

/// The statuses that lines tell of are those of each line in turn, read from the
/// part that the line spells out; a line that spells out nothing is passed over.
pub proof fn law_statuses_in_turn(line: Seq<char>, rest: Seq<Seq<char>>)
    ensures
        stored_statuses(Seq::empty()).len() == 0,
        hex_bytes(trim(line)) matches Some(bytes) ==> stored_statuses(seq![line] + rest) == seq![
            json_text_at(bytes, "/state/status"@),
        ] + stored_statuses(rest),
        hex_bytes(trim(line)) is None ==> stored_statuses(seq![line] + rest) == stored_statuses(
            rest,
        ),
    decreases rest.len(),
{
    let all = seq![line] + rest;
    if rest.len() == 0 {
        assert(all.drop_last() =~= Seq::<Seq<char>>::empty());
        assert(all.last() == line);
        assert(stored_statuses(all.drop_last()) =~= Seq::<Option<Seq<char>>>::empty());
        if let Some(bytes) = hex_bytes(trim(line)) {
            assert(stored_statuses(all) =~= seq![json_text_at(bytes, "/state/status"@)]
                + stored_statuses(rest));
        }
    } else {
        law_statuses_in_turn(line, rest.drop_last());
        assert(all.drop_last() =~= seq![line] + rest.drop_last());
        assert(all.last() == rest.last());
        if let Some(bytes) = hex_bytes(trim(line)) {
            assert(stored_statuses(all) =~= seq![json_text_at(bytes, "/state/status"@)]
                + stored_statuses(rest));
        }
    }
}

/// The value of a hexadecimal digit, whatever its case; other characters have
/// none, and spoil what they stand in, as does an odd number of digits.
pub proof fn law_hexadecimal_digits(d: u8, c: char, bytes: Seq<char>)
    ensures
        d < 10 ==> hex_value((48 + d) as char) == Some(d as nat),
        10 <= d < 16 ==> hex_value((55 + d) as char) == Some(d as nat),
        10 <= d < 16 ==> hex_value((87 + d) as char) == Some(d as nat),
        !('0' <= c <= '9') && !('a' <= c <= 'f') && !('A' <= c <= 'F') ==> hex_value(c) is None,
        bytes.len() % 2 == 1 ==> hex_bytes(bytes) is None,
    decreases bytes.len(),
{
    if bytes.len() > 2 {
        law_hexadecimal_digits(d, c, bytes.take(bytes.len() - 2));
    }
}

/// Parts are looked at from the newest on: where the first line spells out a part
/// whose status names a state, that is the state.
pub proof fn law_newest_part_tells(line: Seq<char>, rest: Seq<char>, bytes: Seq<u8>)
    requires
        forall|i: int| 0 <= i < line.len() ==> #[trigger] line[i] != '\n',
        line.len() == 0 || line.last() != '\r',
        hex_bytes(trim(line)) == Some(bytes),
    ensures
        match json_text_at(bytes, "/state/status"@) {
            Some(text) => if state_of_status(text) != SessionState::Unknown {
                state_in_parts(line + seq!['\n'] + rest) == Some(state_of_status(text))
            } else {
                state_in_parts(line + seq!['\n'] + rest) == state_in_parts(rest)
            },
            None => state_in_parts(line + seq!['\n'] + rest) == state_in_parts(rest),
        },
        state_in_parts(Seq::empty()) is None,
{
    law_lines_read_from_the_left(line, rest);
    law_statuses_in_turn(line, lines(rest));
    let told = json_text_at(bytes, "/state/status"@);
    let more = stored_statuses(lines(rest));
    let all = seq![told] + more;
    assert(all[0] == told);
    lemma_first_state_behind(told, more, 0);
}

proof fn lemma_first_state_behind(
    first: Option<Seq<char>>,
    more: Seq<Option<Seq<char>>>,
    from: int,
)
    requires
        0 <= from,
    ensures
        first_state(seq![first] + more, from + 1) == first_state(more, from),
    decreases more.len() - from,
{
    let all = seq![first] + more;
    if from < more.len() {
        assert(all[from + 1] == more[from]);
        lemma_first_state_behind(first, more, from + 1);
    }
}

} // verus!
