//! Text: the calls into `str` and `String` that vstd does not specify, and
//! small helpers on text that the other modules share.

use vstd::prelude::*;
use vstd::std_specs::iter::IteratorSpec;

verus! {

/// `String::push` appends one character.
pub assume_specification[ String::push ](text: &mut String, ch: char)
    ensures
        final(text)@ == old(text)@.push(ch),
;

/// The characters of `text`, in order.
pub fn chars_of(text: &str) -> (chars: Vec<char>)
    ensures
        chars@ == text@,
{
    let mut chars: Vec<char> = Vec::new();
    for ch in it: text.chars()
        invariant
            it.seq() == text@,
            chars@ == text@.take(it.index()),
    {
        chars.push(ch);
        assert(chars@ =~= text@.take(it.index() + 1));
    }
    assert(text@.take(text@.len() as int) =~= text@);
    chars
}

/// What `str::to_lowercase` makes of a text.
pub uninterp spec fn lowercase_of(text: Seq<char>) -> Seq<char>;

/// Whether `c` is white space as Unicode defines it: a character with the
/// property White_Space.
pub open spec fn is_white_space(c: char) -> bool {
    let code = c as u32;
    ||| 0x09 <= code <= 0x0D
    ||| code == 0x20
    ||| code == 0x85
    ||| code == 0xA0
    ||| code == 0x1680
    ||| 0x2000 <= code <= 0x200A
    ||| code == 0x2028
    ||| code == 0x2029
    ||| code == 0x202F
    ||| code == 0x205F
    ||| code == 0x3000
}

/// The words of a text: its runs of characters that are not white space,
/// each as long as it can be, in order.
pub open spec fn words_of(text: Seq<char>) -> Seq<Seq<char>>
    decreases text.len(),
{
    if text.len() == 0 {
        Seq::empty()
    } else {
        let before = words_of(text.drop_last());
        if is_white_space(text.last()) {
            before
        } else if text.len() >= 2 && !is_white_space(text[text.len() - 2]) {
            before.update(before.len() - 1, before.last().push(text.last()))
        } else {
            before.push(seq![text.last()])
        }
    }
}

/// No word is empty and no word holds white space. A text that does not
/// end in white space ends with its last word.
pub proof fn lemma_words_of(text: Seq<char>)
    ensures
        forall|k: int|
            0 <= k < words_of(text).len() ==> (#[trigger] words_of(text)[k]).len() > 0,
        forall|k: int, i: int|
            0 <= k < words_of(text).len() && 0 <= i < words_of(text)[k].len() ==> !is_white_space(
                #[trigger] words_of(text)[k][i],
            ),
        text.len() > 0 && !is_white_space(text.last()) ==> words_of(text).len() > 0,
    decreases text.len(),
{
    if text.len() > 0 {
        let before = words_of(text.drop_last());
        let all = words_of(text);
        lemma_words_of(text.drop_last());
        if is_white_space(text.last()) {
        } else if text.len() >= 2 && !is_white_space(text[text.len() - 2]) {
            assert(text.drop_last().last() == text[text.len() - 2]);
            assert forall|k: int| 0 <= k < all.len() implies (#[trigger] all[k]).len() > 0 by {
                if k < all.len() - 1 {
                    assert(all[k] == before[k]);
                }
            }
            assert forall|k: int, i: int|
                0 <= k < all.len() && 0 <= i < all[k].len() implies !is_white_space(
                #[trigger] all[k][i],
            ) by {
                if k < all.len() - 1 {
                    assert(all[k] == before[k]);
                } else if i < before[k].len() {
                    assert(all[k][i] == before[k][i]);
                }
            }
        } else {
            assert forall|k: int| 0 <= k < all.len() implies (#[trigger] all[k]).len() > 0 by {
                if k < all.len() - 1 {
                    assert(all[k] == before[k]);
                }
            }
            assert forall|k: int, i: int|
                0 <= k < all.len() && 0 <= i < all[k].len() implies !is_white_space(
                #[trigger] all[k][i],
            ) by {
                if k < all.len() - 1 {
                    assert(all[k] == before[k]);
                }
            }
        }
    }
}

/// `str::to_lowercase`: the lowercase equivalent of `text`, as Unicode
/// defines it. The contract only names the result.
#[verifier::external_body]
pub(crate) fn lowercase(text: &str) -> (lower: String)
    ensures
        lower@ == lowercase_of(text@),
{
    text.to_lowercase()
}

/// `str::split_whitespace`: the parts of `text` that white space
/// separates, where white space is what Unicode gives the property
/// White_Space. No part is empty.
#[verifier::external_body]
pub(crate) fn words<'a>(text: &'a str) -> (found: Vec<&'a str>)
    ensures
        found.deep_view() == words_of(text@),
{
    text.split_whitespace().collect()
}

/// The ten digits.
pub const DIGITS: [char; 10] = ['0', '1', '2', '3', '4', '5', '6', '7', '8', '9'];

/// `n` written in decimal, without leading zeros.
pub open spec fn decimal(n: nat) -> Seq<char>
    decreases n,
{
    if n < 10 {
        seq![DIGITS[n as int]]
    } else {
        decimal(n / 10).push(DIGITS[(n % 10) as int])
    }
}

/// Appends `n`, written in decimal, to `text`.
pub fn push_decimal(text: &mut String, n: usize)
    ensures
        final(text)@ == old(text)@ + decimal(n as nat),
    decreases n,
{
    if n >= 10 {
        push_decimal(text, n / 10);
    }
    text.push(DIGITS[n % 10]);
    assert(text@ =~= old(text)@ + decimal(n as nat));
}

/// The lines of a text: what stands before, between and after its line
/// feeds. A text without a line feed is one line, and so is an empty text.
pub open spec fn lines_of(text: Seq<char>) -> Seq<Seq<char>>
    decreases text.len(),
{
    if text.len() == 0 {
        seq![Seq::empty()]
    } else {
        let before = lines_of(text.drop_last());
        if text.last() == '\n' {
            before.push(Seq::empty())
        } else {
            before.update(before.len() - 1, before.last().push(text.last()))
        }
    }
}

/// The texts of `parts`, one after the other.
pub open spec fn concat(parts: Seq<Seq<char>>) -> Seq<char>
    decreases parts.len(),
{
    if parts.len() == 0 {
        Seq::empty()
    } else {
        concat(parts.drop_last()) + parts.last()
    }
}

/// The first `n` items, or all of them where there are fewer.
pub open spec fn first_n<A>(items: Seq<A>, n: int) -> Seq<A> {
    if items.len() <= n {
        items
    } else {
        items.take(n)
    }
}

/// The lines of `text`, cut at its line feeds.
pub fn lines(text: &str) -> (found: Vec<String>)
    ensures
        found.deep_view() == lines_of(text@),
{
    let mut found: Vec<String> = Vec::new();
    let mut current = String::new();
    let ghost mut done: Seq<Seq<char>> = Seq::empty();
    assert(text@.take(0) =~= Seq::<char>::empty());
    for ch in it: text.chars()
        invariant
            it.seq() == text@,
            found@.len() == done.len(),
            forall|j: int| 0 <= j < done.len() ==> (#[trigger] found@[j])@ == done[j],
            done.push(current@) == lines_of(text@.take(it.index())),
    {
        proof {
            let seen = text@.take(it.index() + 1);
            assert(seen.drop_last() =~= text@.take(it.index()));
            assert(seen.last() == ch);
        }
        if ch == '\n' {
            proof {
                done = done.push(current@);
            }
            found.push(current);
            current = String::new();
        } else {
            current.push(ch);
            assert(done.push(current@) =~= lines_of(text@.take(it.index() + 1)));
        }
    }
    assert(text@.take(text@.len() as int) =~= text@);
    found.push(current);
    assert(found.deep_view() =~= lines_of(text@));
    found
}

/// Whether two texts hold the same characters.
pub fn same_text(a: &str, b: &str) -> (same: bool)
    ensures
        same == (a@ == b@),
{
    let mut rest_a = a.chars();
    let mut rest_b = b.chars();
    let ghost mut k: int = 0;
    loop
        invariant
            0 <= k <= a@.len(),
            k <= b@.len(),
            rest_a.remaining() == a@.skip(k),
            rest_b.remaining() == b@.skip(k),
            a@.take(k) == b@.take(k),
        decreases a@.len() - k,
    {
        let next_a = rest_a.next();
        let next_b = rest_b.next();
        match (next_a, next_b) {
            (Some(x), Some(y)) => {
                if x != y {
                    return false;
                }
                proof {
                    assert(a@.take(k + 1) =~= a@.take(k).push(x));
                    assert(b@.take(k + 1) =~= b@.take(k).push(y));
                    k = k + 1;
                }
            },
            (None, None) => {
                assert(a@.take(k) =~= a@);
                assert(b@.take(k) =~= b@);
                return true;
            },
            _ => {
                return false;
            },
        }
    }
}

} // verus!
