use oxeylyzer_core::utility::ConvertU8;

fn alphabet() -> Vec<char> {
    "abcdefghijklmnopqrstuvwxyz',.;".chars().collect()
}

#[test]
fn codes_are_issued_in_order_of_first_occurrence() {
    let mut codec = ConvertU8::default();
    assert_eq!(codec.len(), 0);
    assert_eq!(codec.to_single('q'), 0);
    assert_eq!(codec.to_single('w'), 1);
    assert_eq!(codec.to_single('q'), 0);
    assert_eq!(codec.to_single('e'), 2);
    assert_eq!(codec.len(), 3);
}

#[test]
fn decode_undoes_encode() {
    let mut codec = ConvertU8::default();
    for symbol in alphabet() {
        let code = codec.to_single(symbol);
        assert_eq!(codec.from_single(code), symbol);
    }
    for symbol in alphabet() {
        let code = codec.to_single_lossy(symbol);
        assert_eq!(codec.from_single(code), symbol);
    }
}

#[test]
fn encode_undoes_decode() {
    let symbols = alphabet();
    let mut codec = ConvertU8::default();
    codec.insert(&symbols);
    assert_eq!(codec.len(), 30);
    for code in 0..codec.len() {
        let symbol = codec.from_single(code);
        assert_eq!(codec.to_single(symbol), code);
        assert_eq!(codec.to_single_lossy(symbol), code);
    }
    assert_eq!(codec.len(), 30);
}

#[test]
fn same_order_gives_same_codes() {
    let mut first = ConvertU8::default();
    let mut second = ConvertU8::default();
    let run: Vec<char> = "the quick brown fox".chars().collect();
    let codes_first = first.to(&run);
    let codes_second = second.to(&run);
    assert_eq!(codes_first, codes_second);
    assert_eq!(first.len(), second.len());
    for code in 0..first.len() {
        assert_eq!(first.from_single(code), second.from_single(code));
    }
}

#[test]
fn other_order_may_give_other_codes_and_stays_a_bijection() {
    let mut first = ConvertU8::default();
    let mut second = ConvertU8::default();
    first.insert(&['a', 'b', 'c']);
    second.insert(&['c', 'b', 'a']);
    assert_eq!(first.to_single_lossy('a'), 0);
    assert_eq!(second.to_single_lossy('a'), 2);
    for codec in [&first, &second] {
        for symbol in ['a', 'b', 'c'] {
            assert_eq!(codec.from_single(codec.to_single_lossy(symbol)), symbol);
        }
        for code in 0..3 {
            assert_eq!(codec.to_single_lossy(codec.from_single(code)), code);
        }
    }
}

#[test]
fn lossy_lookup_answers_the_size_for_an_unknown_symbol() {
    let mut codec = ConvertU8::with_chars("abc");
    assert_eq!(codec.to_single_lossy('z'), 3);
    assert_eq!(codec.to_single_lossy('z'), 3);
    assert_eq!(codec.to_single_lossy('y'), 3);
    assert_eq!(codec.len(), 3);
    codec.insert_single('d');
    assert_eq!(codec.to_single_lossy('z'), 4);
    assert_eq!(codec.to_single_lossy('d'), 3);
    assert_eq!(codec.len(), 4);
}

#[test]
fn lossy_sentinel_is_the_code_of_the_next_new_symbol() {
    let mut codec = ConvertU8::with_chars("ab");
    let sentinel = codec.to_single_lossy('x');
    assert_eq!(codec.to_single('y'), sentinel);
}

#[test]
fn unknown_code_decodes_to_a_space() {
    let codec = ConvertU8::with_chars("ab");
    assert_eq!(codec.from_single(0), 'a');
    assert_eq!(codec.from_single(1), 'b');
    assert_eq!(codec.from_single(2), ' ');
    assert_eq!(codec.from_single(255), ' ');
    assert_eq!(ConvertU8::default().from_single(0), ' ');
}

#[test]
fn insert_single_is_idempotent() {
    let mut codec = ConvertU8::default();
    codec.insert_single('a');
    codec.insert_single('a');
    codec.insert_single('b');
    codec.insert_single('a');
    assert_eq!(codec.len(), 2);
    assert_eq!(codec.to_single_lossy('a'), 0);
    assert_eq!(codec.to_single_lossy('b'), 1);
}

#[test]
fn with_chars_keeps_first_occurrences() {
    let codec = ConvertU8::with_chars("hello world");
    assert_eq!(codec.len(), 8);
    assert_eq!(codec.from(&[0, 1, 2, 3, 4, 5, 6, 7]), vec!['h', 'e', 'l', 'o', ' ', 'w', 'r', 'd']);
    assert_eq!(ConvertU8::with_chars("").len(), 0);
}

#[test]
fn bigrams_and_trigrams_are_encoded_symbol_by_symbol() {
    let mut codec = ConvertU8::default();
    assert_eq!(codec.to_bigram(['t', 'h']), [0, 1]);
    assert_eq!(codec.to_trigram(['t', 'h', 'e']), [0, 1, 2]);
    assert_eq!(codec.to_bigram(['e', 'e']), [2, 2]);
    assert_eq!(codec.to_trigram(['x', 'x', 't']), [3, 3, 0]);
    assert_eq!(codec.len(), 4);
    assert_eq!(codec.to_bigram_lossy(['h', 'q']), [1, 4]);
    assert_eq!(codec.to_trigram_lossy(['q', 'e', 'z']), [4, 2, 4]);
    assert_eq!(codec.len(), 4);
}

#[test]
fn sequences_are_encoded_in_order() {
    let mut codec = ConvertU8::default();
    let codes = codec.to(&['b', 'a', 'b', 'c', 'a']);
    assert_eq!(codes, vec![0, 1, 0, 2, 1]);
    assert_eq!(codec.to_lossy(&['c', 'x', 'a', 'b']), vec![2, 3, 1, 0]);
    assert_eq!(codec.to(&[]), Vec::<u8>::new());
    assert_eq!(codec.to_lossy(&[]), Vec::<u8>::new());
    assert_eq!(codec.len(), 3);
}

#[test]
fn codes_are_decoded_in_order() {
    let codec = ConvertU8::with_chars("abc");
    assert_eq!(codec.from(&[2, 0, 1, 9]), vec!['c', 'a', 'b', ' ']);
    assert_eq!(codec.as_str(&[2, 0, 1, 9, 0]), "cab a");
    assert_eq!(codec.as_str(&[]), "");
}

#[test]
fn a_copy_goes_its_own_way() {
    let mut codec = ConvertU8::with_chars("ab");
    let copy = codec.clone();
    codec.insert_single('c');
    assert_eq!(codec.len(), 3);
    assert_eq!(copy.len(), 2);
    assert_eq!(copy.to_single_lossy('b'), 1);
    assert_eq!(copy.to_single_lossy('c'), 2);
}

#[test]
fn an_alphabet_can_hold_255_symbols_and_count_them() {
    let mut codec = ConvertU8::default();
    for n in 0..255u32 {
        let symbol = char::from_u32(0x100 + n).unwrap();
        assert_eq!(codec.to_single(symbol) as u32, n);
    }
    assert_eq!(codec.len(), 255);
    assert_eq!(codec.to_single_lossy('a'), 255);
    assert_eq!(codec.to_single('a'), 255);
    assert_eq!(codec.from_single(255), 'a');
    assert_eq!(codec.to_single_lossy('a'), 255);
}
