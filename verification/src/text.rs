//! Comma-separated lists: cutting a text at its separators and putting the
//! pieces together again.

use vstd::prelude::*;
use vstd::string::{StrSliceExecFns, StringExecFns};

verus! {

/// The pieces of a text between its separators, in order. A text without a
/// separator is one piece; the empty text is one empty piece.
pub open spec fn split(text: Seq<char>, sep: char) -> Seq<Seq<char>>
    decreases text.len(),
{
    if text.len() == 0 {
        seq![Seq::<char>::empty()]
    } else {
        let before = split(text.drop_last(), sep);
        if text.last() == sep {
            before.push(Seq::<char>::empty())
        } else {
            before.update(before.len() - 1, before.last().push(text.last()))
        }
    }
}

/// The pieces put together with a separator between every two.
pub open spec fn join(pieces: Seq<Seq<char>>, sep: char) -> Seq<char>
    decreases pieces.len(),
{
    if pieces.len() == 0 {
        Seq::<char>::empty()
    } else if pieces.len() == 1 {
        pieces[0]
    } else {
        join(pieces.drop_last(), sep).push(sep) + pieces.last()
    }
}

/// The texts of a list of strings.
pub open spec fn texts(strings: Seq<String>) -> Seq<Seq<char>> {
    Seq::new(strings.len(), |i: int| strings[i]@)
}

/// Whether no piece holds the separator.
pub open spec fn separator_free(pieces: Seq<Seq<char>>, sep: char) -> bool {
    forall|i: int, k: int|
        0 <= i < pieces.len() && 0 <= k < pieces[i].len() ==> #[trigger] pieces[i][k] != sep
}

/// A text has at least one piece, and no piece holds the separator.
pub proof fn lemma_split_shape(text: Seq<char>, sep: char)
    ensures
        split(text, sep).len() >= 1,
        separator_free(split(text, sep), sep),
    decreases text.len(),
{
    if text.len() > 0 {
        lemma_split_shape(text.drop_last(), sep);
        let before = split(text.drop_last(), sep);
        let now = split(text, sep);
        assert forall|i: int, k: int| 0 <= i < now.len() && 0 <= k < now[i].len() implies #[trigger]
            now[i][k] != sep by {
            if text.last() == sep {
                assert(now[i] == before[i]);
            } else if i == before.len() - 1 {
                if k < before[i].len() {
                    assert(now[i][k] == before[i][k]);
                }
            } else {
                assert(now[i] == before[i]);
            }
        }
    }
}

/// Putting the pieces of a text together gives the text back.
pub proof fn lemma_join_split(text: Seq<char>, sep: char)
    ensures
        join(split(text, sep), sep) == text,
    decreases text.len(),
{
    lemma_split_shape(text, sep);
    if text.len() == 0 {
        assert(join(split(text, sep), sep) =~= text);
    } else {
        let head = text.drop_last();
        lemma_join_split(head, sep);
        lemma_split_shape(head, sep);
        let before = split(head, sep);
        if text.last() == sep {
            let now = before.push(Seq::<char>::empty());
            assert(now.drop_last() =~= before);
            assert(join(now, sep) =~= head.push(sep));
            assert(head.push(sep) =~= text);
        } else {
            let grown = before.last().push(text.last());
            let now = before.update(before.len() - 1, grown);
            lemma_join_grow_last(before, sep, text.last());
            assert(head.push(text.last()) =~= text);
        }
    }
}

/// Lengthening the last piece lengthens the joined text by the same character.
pub proof fn lemma_join_grow_last(pieces: Seq<Seq<char>>, sep: char, c: char)
    requires
        pieces.len() >= 1,
    ensures
        join(pieces.update(pieces.len() - 1, pieces.last().push(c)), sep) == join(pieces, sep).push(
            c,
        ),
{
    let now = pieces.update(pieces.len() - 1, pieces.last().push(c));
    if pieces.len() == 1 {
        assert(join(now, sep) =~= join(pieces, sep).push(c));
    } else {
        assert(now.drop_last() =~= pieces.drop_last());
        assert(join(now, sep) =~= join(pieces, sep).push(c));
    }
}

/// Cutting a joined text gives the pieces back, where no piece holds the
/// separator.
pub proof fn lemma_split_join(pieces: Seq<Seq<char>>, sep: char)
    requires
        pieces.len() >= 1,
        separator_free(pieces, sep),
    ensures
        split(join(pieces, sep), sep) == pieces,
    decreases pieces.len(),
{
    if pieces.len() == 1 {
        lemma_split_piece(seq![Seq::<char>::empty()], Seq::<char>::empty(), pieces[0], sep);
        assert(Seq::<char>::empty() + pieces[0] =~= pieces[0]);
        assert(seq![Seq::<char>::empty()].update(0, Seq::<char>::empty() + pieces[0]) =~= pieces);
    } else {
        let rest = pieces.drop_last();
        assert(separator_free(rest, sep)) by {
            assert forall|i: int, k: int|
                0 <= i < rest.len() && 0 <= k < rest[i].len() implies #[trigger] rest[i][k]
                != sep by {
                assert(rest[i] == pieces[i]);
                assert(pieces[i][k] != sep);
            }
        }
        lemma_split_join(rest, sep);
        let head = join(rest, sep).push(sep);
        assert(head.drop_last() =~= join(rest, sep));
        assert(split(head, sep) == rest.push(Seq::<char>::empty()));
        lemma_split_piece(split(head, sep), head, pieces.last(), sep);
        assert(Seq::<char>::empty() + pieces.last() =~= pieces.last());
        assert(rest.push(Seq::<char>::empty()).update(rest.len() as int, pieces.last())
            =~= pieces);
    }
}

/// Lengthening a text by a run without separators lengthens its last piece
/// by that run.
pub proof fn lemma_split_piece(cut: Seq<Seq<char>>, text: Seq<char>, piece: Seq<char>, sep: char)
    requires
        cut == split(text, sep),
        forall|k: int| 0 <= k < piece.len() ==> piece[k] != sep,
    ensures
        cut.len() >= 1,
        split(text + piece, sep) == cut.update(cut.len() - 1, cut.last() + piece),
    decreases piece.len(),
{
    lemma_split_shape(text, sep);
    if piece.len() == 0 {
        assert(text + piece =~= text);
        assert(cut.last() + piece =~= cut.last());
        assert(cut.update(cut.len() - 1, cut.last()) =~= cut);
    } else {
        let shorter = piece.drop_last();
        lemma_split_piece(cut, text, shorter, sep);
        assert((text + piece).drop_last() =~= text + shorter);
        assert((text + piece).last() == piece.last());
        let mid = cut.update(cut.len() - 1, cut.last() + shorter);
        assert(mid.last().push(piece.last()) =~= cut.last() + piece);
        assert(mid.update(mid.len() - 1, cut.last() + piece) =~= cut.update(
            cut.len() - 1,
            cut.last() + piece,
        ));
    }
}

/// Copies the characters of a text into a vector.
pub fn chars_of(s: &str) -> (v: Vec<char>)
    ensures
        v@ == s@,
{
    let mut v: Vec<char> = Vec::new();
    for c in it: s.chars()
        invariant
            v@ == it.seq().take(it.index() as int),
            it.seq() == s@,
    {
        v.push(c);
    }
    v
}

/// Cuts a text at every separator and returns the pieces in order.
pub fn split_text(s: &str, sep: char) -> (pieces: Vec<String>)
    ensures
        texts(pieces@) == split(s@, sep),
        pieces@.len() >= 1,
{
    let chars: Vec<char> = chars_of(s);
    let mut pieces: Vec<String> = Vec::new();
    let mut start: usize = 0;
    let mut i: usize = 0;
    proof {
        assert(s@.take(0) =~= Seq::<char>::empty());
        assert(s@.subrange(0, 0) =~= Seq::<char>::empty());
        assert(texts(pieces@).push(Seq::<char>::empty()) =~= seq![Seq::<char>::empty()]);
    }
    while i < chars.len()
        invariant
            start <= i <= chars.len(),
            chars@ == s@,
            texts(pieces@).push(s@.subrange(start as int, i as int)) == split(
                s@.take(i as int),
                sep,
            ),
        decreases chars.len() - i,
    {
        let ghost before = split(s@.take(i as int), sep);
        proof {
            assert(s@.take(i + 1).drop_last() =~= s@.take(i as int));
            assert(s@.take(i + 1).last() == s@[i as int]);
            assert(before.last() == s@.subrange(start as int, i as int));
            assert(before.drop_last() =~= texts(pieces@));
        }
        if chars[i] == sep {
            let piece: String = String::from_str(s.substring_char(start, i));
            let ghost old_pieces = pieces@;
            pieces.push(piece);
            start = i + 1;
            proof {
                assert(texts(pieces@) =~= texts(old_pieces).push(piece@));
                assert(s@.subrange(start as int, i + 1) =~= Seq::<char>::empty());
                assert(texts(pieces@).push(s@.subrange(start as int, i + 1)) =~= before.push(
                    Seq::<char>::empty(),
                ));
            }
        } else {
            proof {
                assert(s@.subrange(start as int, i + 1) =~= s@.subrange(
                    start as int,
                    i as int,
                ).push(s@[i as int]));
                assert(texts(pieces@).push(s@.subrange(start as int, i + 1)) =~= before.update(
                    before.len() - 1,
                    before.last().push(s@[i as int]),
                ));
            }
        }
        i += 1;
    }
    let last: String = String::from_str(s.substring_char(start, i));
    let ghost old_pieces = pieces@;
    pieces.push(last);
    proof {
        assert(s@.take(i as int) =~= s@);
        assert(texts(pieces@) =~= texts(old_pieces).push(last@));
    }
    pieces
}

/// Puts texts together with a one-character separator between every two.
pub(crate) fn join_texts(pieces: &Vec<String>, sep: &str) -> (joined: String)
    requires
        sep@.len() == 1,
    ensures
        joined@ == join(texts(pieces@), sep@[0]),
{
    let mut joined: String = String::new();
    let mut i: usize = 0;
    while i < pieces.len()
        invariant
            i <= pieces.len(),
            sep@.len() == 1,
            joined@ == join(texts(pieces@).take(i as int), sep@[0]),
        decreases pieces.len() - i,
    {
        let ghost done = texts(pieces@).take(i as int);
        let ghost now = texts(pieces@).take(i + 1);
        proof {
            assert(now.drop_last() =~= done);
            assert(now.last() == pieces@[i as int]@);
        }
        if i > 0 {
            joined.append(sep);
            proof {
                assert(sep@ =~= seq![sep@[0]]);
                assert(join(done, sep@[0]) + sep@ =~= join(done, sep@[0]).push(sep@[0]));
            }
        } else {
            proof {
                assert(Seq::<char>::empty() + pieces@[0]@ =~= pieces@[0]@);
            }
        }
        joined.append(pieces[i].as_str());
        i += 1;
    }
    assert(texts(pieces@).take(i as int) =~= texts(pieces@));
    joined
}

} // verus!
