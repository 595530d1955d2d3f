//! A codec between symbols and small codes.
//!
//! A codec holds an alphabet: the symbols it has met, each once, in the
//! order in which they first came. The code of a symbol is its index in
//! the alphabet, so codes are handed out from 0 upwards and never change.

use crate::text::chars_of;
use fxhash::FxHashMap;
use fxhash::FxHasher;
use std::hash::BuildHasherDefault;
use vstd::prelude::*;

verus! {

/// Largest number of symbols an alphabet can hold: one for each code.
pub const MAX_SYMBOLS: usize = 256;

/// `symbols` can be the alphabet of a codec: no symbol occurs twice, and
/// every index fits a code.
pub open spec fn is_alphabet(symbols: Seq<char>) -> bool {
    symbols.no_duplicates() && symbols.len() <= MAX_SYMBOLS
}

/// The code of `symbol` in the alphabet `symbols`: its index, or the length
/// of the alphabet where the alphabet does not hold it.
pub open spec fn code_of(symbols: Seq<char>, symbol: char) -> int {
    if symbols.contains(symbol) {
        symbols.index_of(symbol)
    } else {
        symbols.len() as int
    }
}

/// The symbol that `code` stands for in `symbols`, or a space where no
/// symbol has that code.
pub open spec fn symbol_of(symbols: Seq<char>, code: int) -> char {
    if 0 <= code < symbols.len() {
        symbols[code]
    } else {
        ' '
    }
}

/// The alphabet after `symbol` has been met.
pub open spec fn with_symbol(symbols: Seq<char>, symbol: char) -> Seq<char> {
    if symbols.contains(symbol) {
        symbols
    } else {
        symbols.push(symbol)
    }
}

/// The alphabet after the symbols of `input` have been met, first to last.
pub open spec fn with_symbols(symbols: Seq<char>, input: Seq<char>) -> Seq<char>
    decreases input.len(),
{
    if input.len() == 0 {
        symbols
    } else {
        with_symbol(with_symbols(symbols, input.drop_last()), input.last())
    }
}

/// The symbols that the codes of `input` stand for in `symbols`.
pub open spec fn decoded(symbols: Seq<char>, input: Seq<u8>) -> Seq<char> {
    Seq::new(input.len(), |i: int| symbol_of(symbols, input[i] as int))
}

/// `codes` holds, for each symbol of `input`, its code in `symbols`.
pub open spec fn is_encoding(symbols: Seq<char>, input: Seq<char>, codes: Seq<u8>) -> bool {
    &&& codes.len() == input.len()
    &&& forall|i: int| 0 <= i < input.len() ==> codes[i] as int == code_of(symbols, input[i])
}

/// Every symbol of `input` has a code in `symbols` that fits 8 bits: the
/// alphabet holds it, or the alphabet's size is below 256.
pub open spec fn can_read(symbols: Seq<char>, input: Seq<char>) -> bool {
    symbols.len() < MAX_SYMBOLS || forall|i: int| 0 <= i < input.len() ==> symbols.contains(input[i])
}

/// The code of a symbol that the alphabet holds is the one index at which
/// it stands; the code of any other symbol is the alphabet's length.
pub proof fn lemma_code_of(symbols: Seq<char>, symbol: char)
    requires
        symbols.no_duplicates(),
    ensures
        0 <= code_of(symbols, symbol) <= symbols.len(),
        symbols.contains(symbol) <==> code_of(symbols, symbol) < symbols.len(),
        forall|i: int|
            0 <= i < symbols.len() && symbols[i] == symbol ==> code_of(symbols, symbol) == i,
{
    if symbols.contains(symbol) {
    }
}

/// Decoding undoes encoding: a symbol of the alphabet comes back from its
/// code.
pub proof fn lemma_decode_encode(symbols: Seq<char>, symbol: char)
    requires
        symbols.no_duplicates(),
        symbols.contains(symbol),
    ensures
        symbol_of(symbols, code_of(symbols, symbol)) == symbol,
{
    lemma_code_of(symbols, symbol);
}

/// Encoding undoes decoding: a code that was issued comes back from its
/// symbol.
pub proof fn lemma_encode_decode(symbols: Seq<char>, code: int)
    requires
        symbols.no_duplicates(),
        0 <= code < symbols.len(),
    ensures
        code_of(symbols, symbol_of(symbols, code)) == code,
{
    lemma_code_of(symbols, symbols[code]);
}

/// Meeting a symbol keeps an alphabet an alphabet as long as there is room,
/// keeps every code that was issued, and gives the symbol the code that
/// a lookup would have answered before.
pub proof fn lemma_with_symbol(symbols: Seq<char>, symbol: char)
    requires
        symbols.no_duplicates(),
    ensures
        with_symbol(symbols, symbol).no_duplicates(),
        with_symbol(symbols, symbol).contains(symbol),
        symbols.len() <= with_symbol(symbols, symbol).len() <= symbols.len() + 1,
        code_of(with_symbol(symbols, symbol), symbol) == code_of(symbols, symbol),
        forall|other: char|
            symbols.contains(other) ==> with_symbol(symbols, symbol).contains(other) && code_of(
                with_symbol(symbols, symbol),
                other,
            ) == code_of(symbols, other),
        forall|i: int| 0 <= i < symbols.len() ==> with_symbol(symbols, symbol)[i] == symbols[i],
{
    let next = with_symbol(symbols, symbol);
    if !symbols.contains(symbol) {
        assert(next[symbols.len() as int] == symbol);
    }
    lemma_code_of(symbols, symbol);
    lemma_code_of(next, symbol);
    assert forall|other: char| symbols.contains(other) implies next.contains(other) && code_of(
        next,
        other,
    ) == code_of(symbols, other) by {
        lemma_code_of(symbols, other);
        let i = code_of(symbols, other);
        assert(next[i] == other);
        lemma_code_of(next, other);
    }
}

/// A lookup that changes nothing answers the size of the alphabet for a
/// symbol that the alphabet does not hold, and goes on doing so while the
/// size stays; once another symbol has joined, it answers the new size.
pub proof fn lemma_lossy_sentinel(symbols: Seq<char>, unknown: char, met: char)
    requires
        symbols.no_duplicates(),
        !symbols.contains(unknown),
    ensures
        code_of(symbols, unknown) == symbols.len(),
        with_symbol(symbols, met).len() == symbols.len() ==> code_of(
            with_symbol(symbols, met),
            unknown,
        ) == code_of(symbols, unknown),
        met != unknown ==> code_of(with_symbol(symbols, met), unknown) == with_symbol(
            symbols,
            met,
        ).len(),
{
    let next = with_symbol(symbols, met);
    if met != unknown && next.contains(unknown) {
        let i = choose|i: int| 0 <= i < next.len() && next[i] == unknown;
        if i < symbols.len() {
            assert(symbols[i] == unknown);
        }
    }
}

/// Meeting a run of symbols keeps an alphabet free of duplicates, keeps
/// what it held, and afterwards it holds every symbol of the run.
pub proof fn lemma_with_symbols(symbols: Seq<char>, input: Seq<char>)
    requires
        symbols.no_duplicates(),
    ensures
        with_symbols(symbols, input).no_duplicates(),
        symbols.len() <= with_symbols(symbols, input).len() <= symbols.len() + input.len(),
        forall|i: int|
            0 <= i < symbols.len() ==> with_symbols(symbols, input)[i] == symbols[i],
        forall|other: char|
            symbols.contains(other) ==> with_symbols(symbols, input).contains(other) && code_of(
                with_symbols(symbols, input),
                other,
            ) == code_of(symbols, other),
        forall|k: int| 0 <= k < input.len() ==> with_symbols(symbols, input).contains(input[k]),
    decreases input.len(),
{
    if input.len() > 0 {
        let before = with_symbols(symbols, input.drop_last());
        lemma_with_symbols(symbols, input.drop_last());
        lemma_with_symbol(before, input.last());
        let after = with_symbols(symbols, input);
        assert forall|k: int| 0 <= k < input.len() implies after.contains(input[k]) by {
            if k < input.len() - 1 {
                assert(input.drop_last()[k] == input[k]);
            }
        }
    }
}

/// Once a prefix of a run has been met, the codes of its symbols stay as
/// they are while the rest of the run is met.
pub proof fn lemma_with_symbols_prefix(symbols: Seq<char>, input: Seq<char>, n: int)
    requires
        symbols.no_duplicates(),
        0 <= n <= input.len(),
    ensures
        with_symbols(symbols, input).len() >= with_symbols(symbols, input.take(n)).len(),
        forall|other: char|
            with_symbols(symbols, input.take(n)).contains(other) ==> code_of(
                with_symbols(symbols, input),
                other,
            ) == code_of(with_symbols(symbols, input.take(n)), other),
    decreases input.len() - n,
{
    if n == input.len() {
        assert(input.take(n) =~= input);
    } else {
        lemma_with_symbols_prefix(symbols, input, n + 1);
        let shorter = with_symbols(symbols, input.take(n));
        assert(input.take(n + 1).drop_last() =~= input.take(n));
        assert(input.take(n + 1).last() == input[n]);
        lemma_with_symbols(symbols, input.take(n));
        lemma_with_symbol(shorter, input[n]);
    }
}

/// Step `n` of meeting a run: the alphabet that the first `n + 1` symbols
/// leave is the one that the first `n` leave, after symbol `n` has been
/// met. Where the whole run leaves room, so does every step.
pub proof fn lemma_steps(symbols: Seq<char>, input: Seq<char>, n: int)
    requires
        symbols.no_duplicates(),
        0 <= n < input.len(),
    ensures
        with_symbols(symbols, input.take(n + 1)) == with_symbol(
            with_symbols(symbols, input.take(n)),
            input[n],
        ),
        with_symbols(symbols, input.take(n)).no_duplicates(),
        with_symbols(symbols, input).len() <= MAX_SYMBOLS ==> with_symbols(symbols, input.take(n)).contains(
            input[n],
        ) || with_symbols(symbols, input.take(n)).len() < MAX_SYMBOLS,
{
    assert(input.take(n + 1).drop_last() =~= input.take(n));
    assert(input.take(n + 1).last() == input[n]);
    lemma_with_symbols(symbols, input.take(n));
    lemma_with_symbols_prefix(symbols, input, n + 1);
}

/// The order in which symbols are met decides the codes: codecs that have
/// met the same run from the same start hold the same alphabet, give every
/// symbol the same code and read every code as the same symbol.
pub proof fn lemma_same_order_same_codes(
    first: Seq<char>,
    second: Seq<char>,
    start: Seq<char>,
    input: Seq<char>,
)
    requires
        first == with_symbols(start, input),
        second == with_symbols(start, input),
    ensures
        first == second,
        forall|symbol: char| code_of(first, symbol) == code_of(second, symbol),
        forall|code: int| symbol_of(first, code) == symbol_of(second, code),
{
}

/// Whatever the order in which symbols are met, codes and symbols stay
/// matched one to one: every symbol of the run comes back from its code,
/// and every code that was issued comes back from its symbol.
pub proof fn lemma_any_order_is_bijective(start: Seq<char>, input: Seq<char>)
    requires
        start.no_duplicates(),
    ensures
        with_symbols(start, input).no_duplicates(),
        forall|k: int|
            0 <= k < input.len() ==> symbol_of(
                with_symbols(start, input),
                code_of(with_symbols(start, input), #[trigger] input[k]),
            ) == input[k],
        forall|code: int|
            0 <= code < with_symbols(start, input).len() ==> code_of(
                with_symbols(start, input),
                #[trigger] symbol_of(with_symbols(start, input), code),
            ) == code,
{
    let all = with_symbols(start, input);
    lemma_with_symbols(start, input);
    assert forall|k: int| 0 <= k < input.len() implies symbol_of(
        all,
        code_of(all, #[trigger] input[k]),
    ) == input[k] by {
        lemma_decode_encode(all, input[k]);
    }
    assert forall|code: int| 0 <= code < all.len() implies code_of(
        all,
        #[trigger] symbol_of(all, code),
    ) == code by {
        lemma_encode_decode(all, code);
    }
}

/// `fxhash::FxHasher`, the hasher of the lookup table. It starts from a
/// fixed state, not from a seed of the process.
#[verifier::external_type_specification]
#[verifier::external_body]
pub struct ExFxHasher(FxHasher);

/// `std::hash::BuildHasherDefault`, which makes the hashers of the lookup
/// table by `Default`.
#[verifier::external_type_specification]
#[verifier::external_body]
#[verifier::reject_recursive_types(H)]
pub struct ExBuildHasherDefault<H>(BuildHasherDefault<H>);

/// `HashMap::get` on a map that hashes with `fxhash::FxHasher`: the value
/// kept under `symbol`, if there is one.
#[verifier::external_body]
fn kept_code(codes: &FxHashMap<char, u8>, symbol: char) -> (code: Option<u8>)
    ensures
        code == (if codes@.contains_key(symbol) {
            Some(codes@[symbol])
        } else {
            None::<u8>
        }),
{
    codes.get(&symbol).copied()
}

/// `HashMap::insert` on a map that hashes with `fxhash::FxHasher`:
/// afterwards the map keeps `code` under `symbol`, and all else as before.
#[verifier::external_body]
fn keep_code(codes: &mut FxHashMap<char, u8>, symbol: char, code: u8)
    ensures
        final(codes)@ == old(codes)@.insert(symbol, code),
{
    codes.insert(symbol, code);
}

/// A codec between symbols and 8-bit codes. Its view is its alphabet.
pub struct ConvertU8 {
    from: Vec<char>,
    to: FxHashMap<char, u8>,
}

impl View for ConvertU8 {
    type V = Seq<char>;

    closed spec fn view(&self) -> Seq<char> {
        self.from@
    }
}

impl ConvertU8 {
    /// The lookup table holds, for each symbol of the alphabet and for no
    /// other, the index at which the symbol stands.
    pub closed spec fn indexed(&self) -> bool {
        &&& forall|symbol: char| #[trigger]
            self.to@.contains_key(symbol) ==> (self.to@[symbol] as int) < self.from@.len()
                && self.from@[self.to@[symbol] as int] == symbol
        &&& forall|i: int|
            0 <= i < self.from@.len() ==> self.to@.contains_key(#[trigger] self.from@[i])
                && self.to@[self.from@[i]] == i
    }

    /// The invariant of a codec: its view is an alphabet, and its lookup
    /// table agrees with it.
    pub open spec fn wf(&self) -> bool {
        is_alphabet(self@) && self.indexed()
    }

    /// The symbol that `c` stands for, or a space where `c` was never
    /// issued.
    pub fn from_single(&self, c: u8) -> (symbol: char)
        ensures
            symbol == symbol_of(self@, c as int),
    {
        let i = c as usize;
        if i < self.from.len() {
            self.from[i]
        } else {
            ' '
        }
    }

    /// The symbols that the codes of `input` stand for, in order.
    pub fn from(&self, input: &[u8]) -> (symbols: Vec<char>)
        ensures
            symbols@ == decoded(self@, input@),
    {
        let mut symbols: Vec<char> = Vec::new();
        let mut i: usize = 0;
        while i < input.len()
            invariant
                i <= input@.len(),
                symbols@ == decoded(self@, input@.take(i as int)),
            decreases input@.len() - i,
        {
            symbols.push(self.from_single(input[i]));
            i += 1;
            assert(symbols@ =~= decoded(self@, input@.take(i as int)));
        }
        assert(input@.take(i as int) =~= input@);
        symbols
    }

    /// The code of `c`, which joins the alphabet if it is new to it.
    pub fn to_single(&mut self, c: char) -> (code: u8)
        requires
            old(self).wf(),
            old(self)@.contains(c) || old(self)@.len() < MAX_SYMBOLS,
        ensures
            final(self).wf(),
            final(self)@ == with_symbol(old(self)@, c),
            code == code_of(old(self)@, c),
            code == code_of(final(self)@, c),
            symbol_of(final(self)@, code as int) == c,
    {
        proof {
            lemma_code_of(self@, c);
            lemma_with_symbol(self@, c);
            lemma_decode_encode(with_symbol(self@, c), c);
        }
        match kept_code(&self.to, c) {
            Some(code) => code,
            None => {
                assert(!self@.contains(c)) by {
                    if self@.contains(c) {
                        let i = choose|i: int| 0 <= i < self.from@.len() && self.from@[i] == c;
                        assert(self.to@.contains_key(self.from@[i]));
                    }
                }
                let code = self.len();
                self.from.push(c);
                keep_code(&mut self.to, c, code);
                assert(self.indexed()) by {
                    assert forall|i: int| 0 <= i < self.from@.len() implies self.to@.contains_key(
                        #[trigger] self.from@[i],
                    ) && self.to@[self.from@[i]] == i by {
                        if i < old(self).from@.len() {
                            assert(old(self).from@[i] == self.from@[i]);
                        }
                    }
                }
                code
            },
        }
    }

    /// The codes of two symbols, each of which joins the alphabet if it is
    /// new to it.
    pub fn to_bigram(&mut self, from: [char; 2]) -> (codes: [u8; 2])
        requires
            old(self).wf(),
            with_symbols(old(self)@, from@).len() <= MAX_SYMBOLS,
        ensures
            final(self).wf(),
            final(self)@ == with_symbols(old(self)@, from@),
            is_encoding(final(self)@, from@, codes@),
    {
        proof {
            lemma_steps(self@, from@, 0);
            lemma_steps(self@, from@, 1);
            lemma_with_symbols_prefix(self@, from@, 1);
            assert(from@.take(0) =~= Seq::<char>::empty());
            assert(from@.take(2) =~= from@);
        }
        let first = self.to_single(from[0]);
        let second = self.to_single(from[1]);
        [first, second]
    }

    /// The codes of three symbols, each of which joins the alphabet if it
    /// is new to it.
    pub fn to_trigram(&mut self, from: [char; 3]) -> (codes: [u8; 3])
        requires
            old(self).wf(),
            with_symbols(old(self)@, from@).len() <= MAX_SYMBOLS,
        ensures
            final(self).wf(),
            final(self)@ == with_symbols(old(self)@, from@),
            is_encoding(final(self)@, from@, codes@),
    {
        proof {
            lemma_steps(self@, from@, 0);
            lemma_steps(self@, from@, 1);
            lemma_steps(self@, from@, 2);
            lemma_with_symbols_prefix(self@, from@, 1);
            lemma_with_symbols_prefix(self@, from@, 2);
            assert(from@.take(0) =~= Seq::<char>::empty());
            assert(from@.take(3) =~= from@);
        }
        let first = self.to_single(from[0]);
        let second = self.to_single(from[1]);
        let third = self.to_single(from[2]);
        [first, second, third]
    }

    /// The codes of the symbols of `input`, each of which joins the
    /// alphabet if it is new to it.
    pub fn to(&mut self, input: &[char]) -> (codes: Vec<u8>)
        requires
            old(self).wf(),
            with_symbols(old(self)@, input@).len() <= MAX_SYMBOLS,
        ensures
            final(self).wf(),
            final(self)@ == with_symbols(old(self)@, input@),
            is_encoding(final(self)@, input@, codes@),
    {
        let mut codes: Vec<u8> = Vec::new();
        let mut i: usize = 0;
        assert(input@.take(0) =~= Seq::<char>::empty());
        while i < input.len()
            invariant
                i <= input@.len(),
                old(self).wf(),
                with_symbols(old(self)@, input@).len() <= MAX_SYMBOLS,
                self.wf(),
                self@ == with_symbols(old(self)@, input@.take(i as int)),
                is_encoding(self@, input@.take(i as int), codes@),
            decreases input@.len() - i,
        {
            proof {
                lemma_steps(old(self)@, input@, i as int);
                lemma_with_symbol(self@, input@[i as int]);
            }
            let ghost before = self@;
            let code = self.to_single(input[i]);
            codes.push(code);
            i += 1;
            assert(is_encoding(self@, input@.take(i as int), codes@)) by {
                assert forall|k: int| 0 <= k < i implies codes@[k] as int == code_of(
                    self@,
                    input@.take(i as int)[k],
                ) by {
                    if k < i - 1 {
                        assert(input@.take(i - 1)[k] == input@[k]);
                        lemma_with_symbols(old(self)@, input@.take(i - 1));
                        assert(before.contains(input@.take(i - 1)[k]));
                    }
                }
            }
        }
        assert(input@.take(i as int) =~= input@);
        codes
    }

    /// The code of `c`, or the size of the alphabet where `c` is not in it.
    /// The alphabet stays as it is.
    pub fn to_single_lossy(&self, c: char) -> (code: u8)
        requires
            self.wf(),
            self@.contains(c) || self@.len() < MAX_SYMBOLS,
        ensures
            code == code_of(self@, c),
            self@.contains(c) ==> symbol_of(self@, code as int) == c,
            !self@.contains(c) ==> code == self@.len(),
    {
        proof {
            lemma_code_of(self@, c);
        }
        match kept_code(&self.to, c) {
            Some(code) => code,
            None => {
                assert(!self@.contains(c)) by {
                    if self@.contains(c) {
                        let i = choose|i: int| 0 <= i < self.from@.len() && self.from@[i] == c;
                        assert(self.to@.contains_key(self.from@[i]));
                    }
                }
                self.len()
            },
        }
    }

    /// The codes of two symbols, read as [`Self::to_single_lossy`] reads
    /// them.
    pub fn to_bigram_lossy(&self, from: [char; 2]) -> (codes: [u8; 2])
        requires
            self.wf(),
            can_read(self@, from@),
        ensures
            is_encoding(self@, from@, codes@),
    {
        [self.to_single_lossy(from[0]), self.to_single_lossy(from[1])]
    }

    /// The codes of three symbols, read as [`Self::to_single_lossy`] reads
    /// them.
    pub fn to_trigram_lossy(&self, from: [char; 3]) -> (codes: [u8; 3])
        requires
            self.wf(),
            can_read(self@, from@),
        ensures
            is_encoding(self@, from@, codes@),
    {
        [
            self.to_single_lossy(from[0]),
            self.to_single_lossy(from[1]),
            self.to_single_lossy(from[2]),
        ]
    }

    /// The codes of the symbols of `input`, read as
    /// [`Self::to_single_lossy`] reads them.
    pub fn to_lossy(&self, input: &[char]) -> (codes: Vec<u8>)
        requires
            self.wf(),
            can_read(self@, input@),
        ensures
            is_encoding(self@, input@, codes@),
    {
        let mut codes: Vec<u8> = Vec::new();
        let mut i: usize = 0;
        while i < input.len()
            invariant
                i <= input@.len(),
                self.wf(),
                can_read(self@, input@),
                codes@.len() == i,
                forall|k: int| 0 <= k < i ==> codes@[k] as int == code_of(self@, input@[k]),
            decreases input@.len() - i,
        {
            codes.push(self.to_single_lossy(input[i]));
            i += 1;
        }
        codes
    }

    /// Lets `c` join the alphabet, unless it is in it already.
    pub fn insert_single(&mut self, c: char)
        requires
            old(self).wf(),
            old(self)@.contains(c) || old(self)@.len() < MAX_SYMBOLS,
        ensures
            final(self).wf(),
            final(self)@ == with_symbol(old(self)@, c),
    {
        let _ = self.to_single(c);
    }

    /// Lets the symbols of `input` join the alphabet, first to last.
    pub fn insert(&mut self, input: &[char])
        requires
            old(self).wf(),
            with_symbols(old(self)@, input@).len() <= MAX_SYMBOLS,
        ensures
            final(self).wf(),
            final(self)@ == with_symbols(old(self)@, input@),
    {
        let mut i: usize = 0;
        assert(input@.take(0) =~= Seq::<char>::empty());
        while i < input.len()
            invariant
                i <= input@.len(),
                old(self).wf(),
                with_symbols(old(self)@, input@).len() <= MAX_SYMBOLS,
                self.wf(),
                self@ == with_symbols(old(self)@, input@.take(i as int)),
            decreases input@.len() - i,
        {
            proof {
                lemma_steps(old(self)@, input@, i as int);
            }
            self.insert_single(input[i]);
            i += 1;
        }
        assert(input@.take(i as int) =~= input@);
    }

    /// A codec whose alphabet is the distinct symbols of `s`, in the order
    /// in which they first occur.
    pub fn with_chars(s: &str) -> (codec: Self)
        requires
            with_symbols(Seq::empty(), s@).len() <= MAX_SYMBOLS,
        ensures
            codec.wf(),
            codec@ == with_symbols(Seq::empty(), s@),
    {
        let mut codec = Self::default();
        let symbols = chars_of(s);
        codec.insert(symbols.as_slice());
        codec
    }

    /// The text that the codes of `input` stand for.
    pub fn as_str(&self, input: &[u8]) -> (text: String)
        ensures
            text@ == decoded(self@, input@),
    {
        let mut text = String::new();
        let mut i: usize = 0;
        while i < input.len()
            invariant
                i <= input@.len(),
                text@ == decoded(self@, input@.take(i as int)),
            decreases input@.len() - i,
        {
            text.push(self.from_single(input[i]));
            i += 1;
            assert(text@ =~= decoded(self@, input@.take(i as int)));
        }
        assert(input@.take(i as int) =~= input@);
        text
    }

    /// Number of symbols in the alphabet, which fits 8 bits as long as a
    /// code is left.
    pub fn len(&self) -> (count: u8)
        requires
            self@.len() < MAX_SYMBOLS,
        ensures
            count == self@.len(),
    {
        u8::try_from(self.from.len()).expect("the alphabet holds more symbols than 8 bits count")
    }
}

impl Default for ConvertU8 {
    /// A codec with an empty alphabet.
    fn default() -> (codec: Self)
        ensures
            codec.wf(),
            codec@ == Seq::<char>::empty(),
    {
        ConvertU8 { from: Vec::new(), to: FxHashMap::default() }
    }
}

impl Clone for ConvertU8 {
    fn clone(&self) -> (copy: Self)
        ensures
            copy@ == self@,
            self.wf() ==> copy.wf(),
    {
        ConvertU8 { from: self.from.clone(), to: self.to.clone() }
    }
}

} // verus!
