//! Layout files: how their text is read, and how they are told from other
//! files.

use crate::text::concat;
use crate::text::first_n;
use crate::text::is_white_space;
use crate::text::lemma_words_of;
use crate::text::lines;
use crate::text::lines_of;
use crate::text::same_text;
use crate::text::words;
use crate::text::words_of;
use vstd::prelude::*;
use vstd::string::StringExecFns;

verus! {

/// Number of rows that are read from a layout text.
pub const ROWS: usize = 3;

/// Number of words that are read from a row of a layout text.
pub const ROW_KEYS: usize = 10;

/// The first ten words of each of the first `count` rows, written one
/// after the other with nothing between them.
pub open spec fn rows_text(rows: Seq<Seq<Seq<char>>>, count: int) -> Seq<char> {
    concat(Seq::new(count as nat, |r: int| concat(first_n(rows[r], ROW_KEYS as int))))
}

/// The keys of a layout whose rows hold the words `rows`: the first ten
/// words of each of the first three rows, written together.
pub open spec fn keys_text(rows: Seq<Seq<Seq<char>>>) -> Seq<char> {
    rows_text(rows, first_n(rows, ROWS as int).len() as int)
}

/// The words of each of the first three lines of a text.
pub open spec fn layout_rows(text: Seq<char>) -> Seq<Seq<Seq<char>>> {
    let found = first_n(lines_of(text), ROWS as int);
    Seq::new(found.len(), |r: int| words_of(found[r]))
}

/// What is read from a layout text: of each of the first three lines the
/// first ten words, all written together.
pub open spec fn layout_text(text: Seq<char>) -> Seq<char> {
    keys_text(layout_rows(text))
}

/// Texts without white space give a text without white space when they
/// are written one after the other.
pub proof fn lemma_concat_no_space(parts: Seq<Seq<char>>)
    requires
        forall|k: int, i: int|
            0 <= k < parts.len() && 0 <= i < parts[k].len() ==> !is_white_space(
                #[trigger] parts[k][i],
            ),
    ensures
        forall|i: int| 0 <= i < concat(parts).len() ==> !is_white_space(#[trigger] concat(parts)[i]),
    decreases parts.len(),
{
    if parts.len() > 0 {
        let before = parts.drop_last();
        assert forall|k: int, i: int|
            0 <= k < before.len() && 0 <= i < before[k].len() implies !is_white_space(
            #[trigger] before[k][i],
        ) by {
            assert(before[k] == parts[k]);
        }
        lemma_concat_no_space(before);
        assert forall|i: int| 0 <= i < concat(parts).len() implies !is_white_space(
            #[trigger] concat(parts)[i],
        ) by {
            if i >= concat(before).len() {
                assert(concat(parts)[i] == parts[parts.len() - 1][i - concat(before).len()]);
            }
        }
    }
}

/// What is read from a layout text holds no white space.
pub proof fn lemma_layout_text_no_space(text: Seq<char>)
    ensures
        forall|i: int|
            0 <= i < layout_text(text).len() ==> !is_white_space(#[trigger] layout_text(text)[i]),
{
    let rows = layout_rows(text);
    let found = first_n(lines_of(text), ROWS as int);
    let count = first_n(rows, ROWS as int).len() as int;
    let texts = Seq::new(count as nat, |r: int| concat(first_n(rows[r], ROW_KEYS as int)));
    assert forall|k: int, i: int|
        0 <= k < texts.len() && 0 <= i < texts[k].len() implies !is_white_space(
        #[trigger] texts[k][i],
    ) by {
        let keys = first_n(rows[k], ROW_KEYS as int);
        lemma_words_of(found[k]);
        assert forall|w: int, j: int|
            0 <= w < keys.len() && 0 <= j < keys[w].len() implies !is_white_space(
            #[trigger] keys[w][j],
        ) by {
            assert(keys[w] == words_of(found[k])[w]);
        }
        lemma_concat_no_space(keys);
    }
    lemma_concat_no_space(texts);
}

/// The first ten words of each of the first three rows, written together.
pub fn join_keys(rows: &[Vec<&str>]) -> (joined: String)
    ensures
        joined@ == keys_text(rows.deep_view()),
{
    let mut joined = String::new();
    let mut r: usize = 0;
    let ghost all = rows.deep_view();
    assert(Seq::new(0, |r: int| concat(first_n(all[r], ROW_KEYS as int))) =~= Seq::<
        Seq<char>,
    >::empty());
    while r < rows.len() && r < ROWS
        invariant
            r <= rows@.len(),
            r <= 3,
            all == rows.deep_view(),
            all.len() == rows@.len(),
            joined@ == rows_text(all, r as int),
        decreases rows@.len() - r,
    {
        let keys = &rows[r];
        let ghost before = joined@;
        let ghost row = first_n(all[r as int], ROW_KEYS as int);
        assert(all[r as int] == keys.deep_view());
        let mut k: usize = 0;
        assert(row.take(0) =~= Seq::<Seq<char>>::empty());
        while k < keys.len() && k < ROW_KEYS
            invariant
                k <= keys@.len(),
                k <= 10,
                keys.deep_view().len() == keys@.len(),
                row == first_n(keys.deep_view(), ROW_KEYS as int),
                joined@ == before + concat(row.take(k as int)),
            decreases keys@.len() - k,
        {
            joined.append(keys[k]);
            proof {
                assert(row.take(k + 1).drop_last() =~= row.take(k as int));
                assert(row.take(k + 1).last() == keys.deep_view()[k as int]);
                assert(keys.deep_view()[k as int] == keys@[k as int]@);
                assert(joined@ =~= before + concat(row.take(k + 1)));
            }
            k += 1;
        }
        assert(row.take(k as int) =~= row);
        r += 1;
        proof {
            let now = Seq::new(r as nat, |j: int| concat(first_n(all[j], ROW_KEYS as int)));
            assert(now.drop_last() =~= Seq::new(
                (r - 1) as nat,
                |j: int| concat(first_n(all[j], ROW_KEYS as int)),
            ));
            assert(now.last() == concat(row));
        }
    }
    joined
}

/// The keys of a layout, read from its text: the first ten words of each
/// of the first three lines, without the whitespace.
pub fn format_layout_str(layout_str: &str) -> (formatted: String)
    ensures
        formatted@ == layout_text(layout_str@),
{
    let found = lines(layout_str);
    let mut rows: Vec<Vec<&str>> = Vec::new();
    let mut r: usize = 0;
    let ghost kept = first_n(lines_of(layout_str@), ROWS as int);
    while r < found.len() && r < ROWS
        invariant
            r <= found@.len(),
            r <= 3,
            found.deep_view() == lines_of(layout_str@),
            kept == first_n(lines_of(layout_str@), ROWS as int),
            rows@.len() == r,
            forall|j: int| 0 <= j < r ==> (#[trigger] rows@[j]).deep_view() == words_of(kept[j]),
        decreases found@.len() - r,
    {
        let keys = words(found[r].as_str());
        assert(found.deep_view()[r as int] == found@[r as int]@);
        rows.push(keys);
        r += 1;
    }
    let joined = join_keys(rows.as_slice());
    assert(rows.deep_view() =~= layout_rows(layout_str@));
    joined
}

/// Whether `extension` is the extension of a layout file: `kb`.
pub fn is_kb_extension(extension: &str) -> (is_kb: bool)
    ensures
        is_kb == (extension@ == "kb"@),
{
    same_text(extension, "kb")
}

} // verus!
