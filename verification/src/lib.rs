//! Decoding and encoding of the PHP `serialize()` wire format.
//!
//! The wire format is a self-describing, length-prefixed text encoding for
//! scalars, ordered associative arrays, objects with visibility-mangled
//! property names, opaque custom-serialized payloads, and back-references.
//! The decoder is a recursive-descent parser over an abstract byte source;
//! every decode result is proved equal to a mathematical grammar over the
//! source's byte sequence, and the encoder is proved to be its inverse.

mod error;
mod grammar;
mod str_trait;
mod types;
mod source;
mod utf8;
mod numbers;
mod parse;
mod emit;
mod roundtrip;

pub use error::{Error, IoError, IoResult};
pub use grammar::{
    all_digits, dec_val, enc_int, enc_str, eq_ignore_case, fmt_i64, fmt_nat, is_digit,
    is_float_lit, is_special_float, rep_boundary, s_expect, s_read_byte, s_read_str, s_read_until,
    scan_dist, spec_decode, spec_decode_pairs, spec_decode_props, spec_demangle, spec_encode,
    spec_encode_key, spec_encode_pairs, spec_encode_props, spec_mangle, spec_parse_i64,
    spec_parse_uint, spec_parse_usize, utf8_boundary, wf_key, wf_pairs, wf_prop, wf_props,
    wf_value, DemangleFault, SpecKey, SpecProp, SpecValue, SpecVis,
};
pub use numbers::{is_float_literal, parse_i64, parse_usize, push_decimal_i64, push_decimal_u64};
pub use parse::{
    array_step, demangle, expect_char, object_step, read_array, read_bool, read_float, read_int,
    read_null, read_object, read_ref, read_ser, read_string, Cursor,
};
pub use roundtrip::{lemma_decode_deterministic, lemma_demangle_mangle, lemma_round_trip};
pub use source::{ByteReader, Source, StringReader};
pub use str_trait::{str_boundary, Str};
pub use utf8::{is_cont, is_utf8, is_utf8_from, lemma_utf8_slice, lemma_utf8_suffix, validate_utf8, Utf8Str, Utf8String};
pub use types::{
    inv_pairs, inv_props, spec_of_pairs, spec_of_props, ArrayKey, Object, PropertyName,
    PropertyVis, Ref, Serializable, Value,
};
