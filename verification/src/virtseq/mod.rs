mod virtbuf;

pub use virtbuf::{
    lemma_flush_keeps_stream, lemma_format_num_keeps_stream, lemma_write_byte_keeps_stream, lemma_write_keeps_stream,
    lemma_write_overflow_drops, spec_flushed, spec_format_num, spec_stream, spec_write,
    spec_write_byte, SentLog, VirtSeqBuf, MIN_FLUSH_SIZE,
};

mod terminfo;

mod entry;

pub use entry::{
    enc16, enc32, enc_offsets, enc_values, entry_bytes, entry_fits, entry_header, entry_pad,
    entry_view, law_entry_roundtrip, str_offset, str_table,
};

pub use terminfo::{
    spec_parse, ExtView, FormatnInts, IntsView, ParseError, Step, StrView, TermInfo, TermInfoBool,
    TermInfoExt, TermInfoString, TermInfoView,
};

mod control;

pub use control::{
    i16_bytes, op_code, param_var, parse_i16, po_run, po_start, ExprType, OpCode, Param,
    ParsedStringCap, PoOutcome, PoState, Variable,
};

mod interp;

pub use interp::{
    apply_emit, apply_emits, cap_offset, emit_ok, emit_unflushed, law_slices_in_order, slice_text, emits_ok, emits_unflushed, le_value, param_vars, pr_run, Emit,
    PrState,
};

mod config;

mod laws;

pub use config::{
    config_outcome, cursor_inputs, there, ConfigOutcome, ConfigView, TermControl, TermInfoConfig,
};

pub use laws::{
    around_cap, around_out, law_const_roundtrip, law_decimal_parses_back, law_literal_capability,
    law_param_decimal, law_text_around_param, lemma_segment, segment_state,
    lemma_digits_value, lemma_literal_compiles, literal_outcome, literal_state, no_percent, p1_dec,
};
