//! The symbols that a layout is generated from, by language.

use crate::text::chars_of;
use crate::text::same_text;
use vstd::prelude::*;

verus! {

/// Name of the entry that serves every language without an entry of its
/// own.
pub const DEFAULT_LANGUAGE: &'static str = "default";

/// The symbols that the first entry named `name` gives, if there is one.
pub open spec fn entry_of(cfg: Seq<(Seq<char>, Seq<char>)>, name: Seq<char>) -> Option<Seq<char>>
    decreases cfg.len(),
{
    if cfg.len() == 0 {
        None
    } else if cfg[0].0 == name {
        Some(cfg[0].1)
    } else {
        entry_of(cfg.skip(1), name)
    }
}

/// The symbols for `language`: those of its own entry, or those of the
/// default entry where it has none.
pub open spec fn generation_symbols(cfg: Seq<(Seq<char>, Seq<char>)>, language: Seq<char>) -> Option<
    Seq<char>,
> {
    match entry_of(cfg, language) {
        Some(symbols) => Some(symbols),
        None => entry_of(cfg, DEFAULT_LANGUAGE@),
    }
}

/// The symbols of the first entry of `cfg` that is named `name`.
pub fn find_entry<'a>(cfg: &'a [(String, String)], name: &str) -> (found: Option<&'a String>)
    ensures
        match found {
            Some(symbols) => entry_of(cfg.deep_view(), name@) == Some(symbols@),
            None => entry_of(cfg.deep_view(), name@) is None,
        },
{
    let mut i: usize = 0;
    assert(cfg.deep_view().skip(0) =~= cfg.deep_view());
    while i < cfg.len()
        invariant
            i <= cfg@.len(),
            cfg.deep_view().len() == cfg@.len(),
            entry_of(cfg.deep_view(), name@) == entry_of(cfg.deep_view().skip(i as int), name@),
        decreases cfg@.len() - i,
    {
        let ghost rest = cfg.deep_view().skip(i as int);
        assert(rest[0] == cfg.deep_view()[i as int]);
        assert(cfg.deep_view()[i as int] == (cfg@[i as int].0@, cfg@[i as int].1@));
        if same_text(cfg[i].0.as_str(), name) {
            return Some(&cfg[i].1);
        }
        assert(rest.skip(1) =~= cfg.deep_view().skip(i + 1));
        i += 1;
    }
    None
}

/// The 30 symbols from which layouts for `language` are generated, as
/// `cfg` gives them: those of the entry of `language`, or those of the
/// default entry where `language` has none. `None` where neither entry is
/// there, or where the entry does not hold exactly 30 symbols.
pub fn symbols_for_generation(language: &str, cfg: &[(String, String)]) -> (chars: Option<
    [char; 30],
>)
    ensures
        match chars {
            Some(symbols) => generation_symbols(cfg.deep_view(), language@) == Some(symbols@),
            None => match generation_symbols(cfg.deep_view(), language@) {
                Some(symbols) => symbols.len() != 30,
                None => true,
            },
        },
{
    let entry = match find_entry(cfg, language) {
        Some(symbols) => Some(symbols),
        None => find_entry(cfg, DEFAULT_LANGUAGE),
    };
    match entry {
        Some(symbols) => {
            let found = chars_of(symbols.as_str());
            if found.len() != 30 {
                return None;
            }
            let mut table = [' ';30];
            let mut k: usize = 0;
            while k < 30
                invariant
                    k <= 30,
                    found@.len() == 30,
                    forall|j: int| 0 <= j < k ==> table@[j] == found@[j],
                decreases 30 - k,
            {
                table[k] = found[k];
                k += 1;
            }
            assert(table@ =~= found@);
            Some(table)
        },
        None => None,
    }
}

/// The 30 symbols from which layouts for `language` are generated: those
/// of the entry of `language` in `cfg`, or those of the default entry
/// where `language` has none.
pub fn chars_for_generation(language: &str, cfg: &[(String, String)]) -> (chars: [char; 30])
    requires
        generation_symbols(cfg.deep_view(), language@) is Some,
        generation_symbols(cfg.deep_view(), language@)->0.len() == 30,
    ensures
        generation_symbols(cfg.deep_view(), language@) == Some(chars@),
{
    match symbols_for_generation(language, cfg) {
        Some(symbols) => symbols,
        None => unreached(),
    }
}

} // verus!
