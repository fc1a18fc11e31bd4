//! Incremental, allocation-minimal encoder that writes compact JSON text
//! straight into an append-only sink, without building an intermediate
//! document tree.
//!
//! A caller obtains a root [`JSONObjectWriter`] or [`JSONArrayWriter`]
//! bound to a sink; each append operation writes a separator when one is
//! due, then either a leaf encoding or an opening bracket whose nested
//! writer exclusively borrows the sink until it is finished. The contracts
//! state, for every operation, exactly the text it appends.

mod laws;
mod number;
mod sink;
mod text;
mod value;
mod writer;

pub use laws::count_of;
pub use laws::digit_val;
pub use laws::digits_value;
pub use laws::hex_val;
pub use laws::is_char;
pub use laws::lemma_array_bracket_balance;
pub use laws::lemma_control_characters_escaped;
pub use laws::lemma_escape_round_trip;
pub use laws::lemma_int_text_round_trip;
pub use laws::lemma_object_bracket_balance;
pub use laws::lemma_separator_count;
pub use laws::lemma_string_literal_round_trip;
pub use laws::read_string_body;
pub use laws::read_string_literal;
pub use laws::lemma_uint_text_round_trip;
pub use laws::short_unescape;
pub use laws::total_count;
pub use laws::total_len;
pub use laws::unescaped;
pub use number::float_bits_finite;
pub use number::float_json_text;
pub use number::int_text;
pub use number::normalized_float_text;
pub use number::PreparedFloat;
pub use number::uint_text;
pub use sink::BoundedSink;
pub use sink::Sink;
pub use sink::WriteFailure;
pub use text::escape_of;
pub use text::escaped;
pub use text::quoted;
pub use text::write_part_of_string;
pub use value::array_text;
pub use value::element_texts;
pub use value::join_comma;
pub use value::member_texts;
pub use value::pair_texts;
pub use value::string_texts;
pub use value::JSONWriterValue;
pub use value::Null;
pub use value::object_text;
pub use value::to_json_string;
pub use value::write_members;
pub use value::write_pairs;
pub use value::write_slice;
pub use value::write_string_slice;
pub use value::write_value;
pub use writer::comma_sep;
pub use writer::JSONArrayWriter;
pub use writer::JSONObjectWriter;
pub use writer::member_prefix;
pub use writer::write_array;
pub use writer::write_object;
