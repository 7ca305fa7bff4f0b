//! Dynamically typed values: scalars, lists and text-keyed dictionaries that nest.
mod dictionary;
mod laws;
mod model;
mod text;
mod value;

pub use dictionary::Dictionary;
pub use laws::{law_add_then_get, law_clear_empties, law_dict_round_trip, law_remove_then_absent};
pub use model::{
    Data, addable, cleared, inserted_in_order, lemma_list_view, list_view, pair_views, sum_of,
    tag_of, views, without_key,
};
pub use text::{
    all_digits, digits_value, int_or_zero, is_digit, parse_i32, parsed_i32, unsigned_part,
};
pub use value::{AddError, Value};
