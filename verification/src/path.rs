//! Paths: the name at the end of one that is given as a text, and the joining of
//! those that are given as bytes.

use vstd::prelude::*;

use crate::text::{
    chars_eq, chars_of, law_last_piece, law_unsplit_text_is_one_piece, lemma_filter_push, non_empty,
    path_parts, path_parts_of, pieces, string_of, texts, the_char,
};

verus! {

/// The last of the segments that is not a dot, unless it points to the parent.
pub open spec fn last_name(parts: Seq<Seq<char>>) -> Option<Seq<char>>
    decreases parts.len(),
{
    if parts.len() == 0 {
        None
    } else if parts.last() == "."@ {
        last_name(parts.drop_last())
    } else if parts.last() == ".."@ {
        None
    } else {
        Some(parts.last())
    }
}

/// The name of the file or directory that a path leads to, if it names one.
pub open spec fn file_name(path: Seq<char>) -> Option<Seq<char>> {
    last_name(path_parts(path))
}

/// The name of the file or directory that a path leads to, if it names one.
pub fn file_name_of(path: &str) -> (r: Option<String>)
    ensures
        match r {
            Some(name) => file_name(path@) == Some(name@),
            None => file_name(path@) is None,
        },
{
    let parts = path_parts_of(&chars_of(path));
    let ghost all = texts(parts@);
    let dot = chars_of(".");
    let dots = chars_of("..");
    let mut n: usize = parts.len();
    assert(all.take(n as int) =~= all);
    while n > 0 && chars_eq(&parts[n - 1], &dot)
        invariant
            n <= parts@.len(),
            all == texts(parts@),
            dot@ == "."@,
            last_name(all) == last_name(all.take(n as int)),
        decreases n,
    {
        assert(all.take(n as int).last() == parts@[n - 1]@);
        assert(all.take(n as int).drop_last() =~= all.take(n - 1));
        n = n - 1;
    }
    if n == 0 {
        return None;
    }
    assert(all.take(n as int).last() == parts@[n - 1]@);
    if chars_eq(&parts[n - 1], &dots) {
        return None;
    }
    Some(string_of(&parts[n - 1]))
}

/// The byte that parts a path.
pub const SLASH: u8 = 47;

/// A path followed by another one, both as bytes: the other one alone where it
/// starts at the root.
pub open spec fn joined(dir: Seq<u8>, name: Seq<u8>) -> Seq<u8> {
    if name.len() > 0 && name[0] == SLASH {
        name
    } else if dir.len() == 0 || dir.last() == SLASH {
        dir + name
    } else {
        dir.push(SLASH) + name
    }
}

/// Appends a path to another.
pub fn join_path(dir: &[u8], name: &[u8]) -> (r: Vec<u8>)
    ensures
        r@ == joined(dir@, name@),
{
    let mut out: Vec<u8> = Vec::new();
    if !(name.len() > 0 && name[0] == SLASH) {
        push_bytes(&mut out, dir);
        assert(out@ =~= dir@);
        if dir.len() > 0 && dir[dir.len() - 1] != SLASH {
            out.push(SLASH);
        }
    }
    push_bytes(&mut out, name);
    assert(out@ =~= joined(dir@, name@));
    out
}

/// Appends bytes to others.
fn push_bytes(out: &mut Vec<u8>, bytes: &[u8])
    ensures
        final(out)@ == old(out)@ + bytes@,
{
    let ghost before = out@;
    for i in 0..bytes.len()
        invariant
            out@ == before + bytes@.take(i as int),
    {
        out.push(bytes[i]);
        assert(out@ =~= before + bytes@.take(i + 1));
    }
    assert(bytes@.take(bytes@.len() as int) =~= bytes@);
}

/// The file name of a path is what follows its last slash, unless that is one of
/// the names for a directory itself and the one above.
pub proof fn law_file_name_follows_last_slash(dir: Seq<char>, name: Seq<char>)
    requires
        name.len() > 0,
        forall|i: int| 0 <= i < name.len() ==> #[trigger] name[i] != '/',
        name != "."@,
        name != ".."@,
    ensures
        file_name(name) == Some(name),
        file_name(dir + seq!['/'] + name) == Some(name),
        file_name(dir + seq!['/'] + name + seq!['/']) == Some(name),
{
    let sep = the_char('/');
    let none = Seq::<char>::empty();
    assert forall|i: int| 0 <= i < name.len() implies !sep(#[trigger] name[i]) by {}
    let before = pieces(dir, sep);
    law_unsplit_text_is_one_piece(name, sep);
    lemma_filter_push(Seq::<Seq<char>>::empty(), non_empty(), name);
    assert(Seq::<Seq<char>>::empty().push(name) =~= seq![name]);
    law_last_piece(dir, '/', name, sep);
    lemma_filter_push(before, non_empty(), name);
    law_last_piece(dir + seq!['/'] + name, '/', none, sep);
    lemma_filter_push(before.push(name), non_empty(), none);
    assert(dir + seq!['/'] + name + seq!['/'] + none =~= dir + seq!['/'] + name + seq!['/']);
}

/// Below the root and below the directory above there is no file name.
pub proof fn law_no_file_name(dir: Seq<char>)
    ensures
        file_name(Seq::empty()) is None,
        file_name(dir + seq!['/'] + ".."@) is None,
        file_name(dir + seq!['/'] + "."@) == file_name(dir),
{
    reveal_strlit("..");
    reveal_strlit(".");
    assert(".."@.len() == 2 && "."@.len() == 1);
    let sep = the_char('/');
    let none = Seq::<char>::empty();
    let before = pieces(dir, sep);
    law_unsplit_text_is_one_piece(none, sep);
    lemma_filter_push(Seq::<Seq<char>>::empty(), non_empty(), none);
    assert(Seq::<Seq<char>>::empty().push(none) =~= seq![none]);
    assert(Seq::<Seq<char>>::empty().filter(non_empty()) =~= Seq::<Seq<char>>::empty()) by {
        reveal(Seq::filter);
    }
    law_last_piece(dir, '/', ".."@, sep);
    lemma_filter_push(before, non_empty(), ".."@);
    law_last_piece(dir, '/', "."@, sep);
    lemma_filter_push(before, non_empty(), "."@);
    let kept = before.filter(non_empty());
    assert(kept.push("."@).drop_last() =~= kept);
}

/// A name is joined to a directory with one slash between them; an absolute name
/// stands for itself.
pub proof fn law_joined_with_one_slash(dir: Seq<u8>, name: Seq<u8>)
    ensures
        name.len() > 0 && name[0] == 47 ==> joined(dir, name) == name,
        (name.len() == 0 || name[0] != 47) && dir.len() > 0 && dir.last() != 47 ==> joined(
            dir,
            name,
        ) == dir + seq![47u8] + name,
        (name.len() == 0 || name[0] != 47) && (dir.len() == 0 || dir.last() == 47) ==> joined(
            dir,
            name,
        ) == dir + name,
{
    assert(dir.push(47u8) =~= dir + seq![47u8]);
}

} // verus!
