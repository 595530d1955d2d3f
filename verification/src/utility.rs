//! Everything the library offers, under one path.

pub use crate::codec::ConvertU8;
pub use crate::keyboard::base_effort;
pub use crate::keyboard::describe_parse_error;
pub use crate::keyboard::KeyboardType;
pub use crate::language::chars_for_generation;
pub use crate::language::symbols_for_generation;
pub use crate::layout::format_layout_str;
pub use crate::layout::is_kb_extension;
pub use crate::layout::join_keys;
pub use crate::position::column_index;
pub use crate::position::get_possible_swaps;
pub use crate::position::PosPair;
pub use crate::position::I_TO_COL;
pub use crate::shuffle::free_positions;
pub use crate::shuffle::shuffle_pins;
pub use crate::shuffle::shuffle_pins_with;
pub use crate::tables::get_fspeed_terms;
pub use crate::tables::get_scissor_indices;
pub use crate::tables::get_sfb_indices;
pub use crate::tables::get_travels;
pub use crate::tables::Travel;
