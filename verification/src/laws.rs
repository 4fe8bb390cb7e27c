//! The codec's laws: a record that fits the fixed fields decodes back from
//! its own encoding unchanged, and the decoder's unconditional guarantees —
//! only truncation fails a decode, numeric noise reads as zero, and the
//! unused clock-source slot stays empty.

use vstd::prelude::*;
use vstd::utf8::decode_utf8;
use vstd::utf8::encode_utf8;
use vstd::utf8::encode_utf8_decode_utf8;
use vstd::utf8::encode_utf8_valid_utf8;
use vstd::utf8::is_ascii_chars;
use vstd::utf8::is_ascii_chars_encode_utf8;
use vstd::utf8::is_char_boundary;
use vstd::utf8::is_char_boundary_iff_not_is_continuation_byte;
use vstd::utf8::is_continuation_byte;
use vstd::utf8::decode_utf8_split;
use vstd::utf8::valid_utf8;
use vstd::utf8::valid_utf8_concat;

use crate::num::int_field_ok;
use crate::num::is_int_text;
use crate::num::lemma_int_text_plain;
use crate::num::lemma_parse_int_text;
use crate::num::spec_int_text;
use crate::pattern::encodable;
use crate::pattern::field_chars;
use crate::pattern::field_source;
use crate::pattern::fields_bytes;
use crate::pattern::flag_chars;
use crate::pattern::header_text;
use crate::pattern::header_token;
use crate::pattern::header_version;
use crate::pattern::is_true_token;
use crate::pattern::lemma_token_len_at;
use crate::pattern::matrix_bytes;
use crate::pattern::pad_field;
use crate::pattern::spec_cols;
use crate::pattern::spec_decode;
use crate::pattern::spec_encode;
use crate::pattern::token_len;
use crate::pattern::wf_lengths;
use crate::pattern::PatternView;
use crate::text::ascii_bytes;
use crate::text::is_white;
use crate::text::lemma_ascii_encode;
use crate::text::lemma_trim_end_noop;
use crate::text::lemma_trim_end_white_suffix;
use crate::text::lossy_text;
use crate::text::trim_end_text;

verus! {

/// Whether a text value fits one fixed field and survives the trailing-space
/// trim unchanged.
pub open spec fn field_fits(f: Seq<char>) -> bool {
    &&& encode_utf8(f).len() <= 10
    &&& (f.len() == 0 || !is_white(f.last()))
}

/// Reading back a fixed field yields the trimmed original text whenever the
/// text's UTF-8 bytes fit the 10-byte field.
pub proof fn lemma_field_recode(f: Seq<char>)
    requires
        encode_utf8(f).len() <= 10,
    ensures
        trim_end_text(lossy_text(pad_field(encode_utf8(f)))) == trim_end_text(f),
{
    let eb = encode_utf8(f);
    let n = eb.len() as int;
    let sc = Seq::new((10 - n) as nat, |i: int| ' ');
    let sb = Seq::new((10 - n) as nat, |i: int| 32u8);
    assert(is_ascii_chars(sc));
    lemma_ascii_encode(sc);
    assert(ascii_bytes(sc) =~= sb);
    encode_utf8_valid_utf8(f);
    encode_utf8_valid_utf8(sc);
    encode_utf8_decode_utf8(f);
    if n == 10 {
        assert(pad_field(eb) =~= eb);
        assert(sc =~= Seq::<char>::empty());
        assert(lossy_text(pad_field(eb)) == f);
    } else {
        let pad = eb + sb;
        assert(pad_field(eb) =~= pad);
        valid_utf8_concat(eb, sb);
        assert(valid_utf8(pad));
        if n > 0 {
            assert(pad[n] == sb[0]);
            assert(!is_continuation_byte(32u8));
            is_char_boundary_iff_not_is_continuation_byte(pad, n);
        }
        assert(is_char_boundary(pad, n));
        decode_utf8_split(pad, n);
        assert(pad.subrange(0, n) =~= eb);
        assert(pad.subrange(n, pad.len() as int) =~= sb);
        encode_utf8_decode_utf8(sc);
        assert(decode_utf8(pad) =~= f + sc);
        assert(lossy_text(pad_field(eb)) == f + sc);
    }
    assert forall|i: int| 0 <= i < sc.len() implies is_white(#[trigger] sc[i]) by {}
    lemma_trim_end_white_suffix(f, sc);
    if n == 10 {
        assert(f + sc =~= f);
    }
    assert(trim_end_text(lossy_text(pad_field(eb))) == trim_end_text(f + sc));
}

/// Encoding a long ASCII text field is lossy: the field reads back as its
/// first 10 characters with trailing spaces trimmed, not the original.
pub proof fn lemma_field_truncation(f: Seq<char>)
    requires
        is_ascii_chars(f),
        f.len() > 10,
    ensures
        trim_end_text(lossy_text(pad_field(encode_utf8(f)))) == trim_end_text(f.take(10)),
{
    is_ascii_chars_encode_utf8(f);
    let eb = encode_utf8(f);
    assert(eb.len() == f.len());
    let g = f.take(10);
    assert(is_ascii_chars(g));
    is_ascii_chars_encode_utf8(g);
    lemma_ascii_encode(f);
    lemma_ascii_encode(g);
    assert(pad_field(eb) =~= encode_utf8(g));
    assert(pad_field(encode_utf8(g)) =~= encode_utf8(g));
    lemma_field_recode(g);
}

/// The length of the fixed-field region.
pub proof fn lemma_fields_bytes_len(v: PatternView, k: int)
    requires
        k >= 0,
    ensures
        fields_bytes(v, k).len() == 10 * k,
    decreases k,
{
    if k > 0 {
        lemma_fields_bytes_len(v, k - 1);
    }
}

/// Field `j` occupies bytes `10 * j` to `10 * j + 10` of the field region.
pub proof fn lemma_fields_bytes_subrange(v: PatternView, k: int, j: int)
    requires
        0 <= j < k,
    ensures
        fields_bytes(v, k).subrange(10 * j, 10 * j + 10) == pad_field(
            encode_utf8(field_source(v, j)),
        ),
    decreases k,
{
    lemma_fields_bytes_len(v, k);
    lemma_fields_bytes_len(v, k - 1);
    if j == k - 1 {
        assert(fields_bytes(v, k).subrange(10 * j, 10 * j + 10) =~= pad_field(
            encode_utf8(field_source(v, j)),
        ));
    } else {
        lemma_fields_bytes_subrange(v, k - 1, j);
        assert(fields_bytes(v, k).subrange(10 * j, 10 * j + 10) =~= fields_bytes(
            v,
            k - 1,
        ).subrange(10 * j, 10 * j + 10));
    }
}

/// The encoded stream is 1260 header bytes plus the matrix.
pub proof fn lemma_spec_encode_len(v: PatternView)
    requires
        spec_cols(v) >= 0,
    ensures
        spec_encode(v).len() == 1260 + 18 * spec_cols(v),
{
    lemma_fields_bytes_len(v, 126);
}

/// Reading fixed field `j` of an encoded stream gives the trimmed source
/// text of that field.
pub proof fn lemma_decoded_field(v: PatternView, j: int)
    requires
        0 <= j < 126,
        spec_cols(v) >= 0,
        encode_utf8(field_source(v, j)).len() <= 10,
    ensures
        field_chars(spec_encode(v), j) == trim_end_text(field_source(v, j)),
{
    lemma_fields_bytes_len(v, 126);
    lemma_fields_bytes_subrange(v, 126, j);
    assert(spec_encode(v).subrange(10 * j, 10 * j + 10) =~= fields_bytes(v, 126).subrange(
        10 * j,
        10 * j + 10,
    ));
    lemma_field_recode(field_source(v, j));
}

/// An integer within the `i32` range whose decimal text fits a fixed field
/// reads back as itself.
pub proof fn lemma_decoded_int_field(v: PatternView, j: int, x: int)
    requires
        0 <= j < 126,
        spec_cols(v) >= 0,
        field_source(v, j) == spec_int_text(x),
        int_field_ok(x),
    ensures
        crate::num::spec_parse_i32_or_zero(field_chars(spec_encode(v), j)) == x,
{
    lemma_int_text_plain(x);
    is_ascii_chars_encode_utf8(spec_int_text(x));
    lemma_decoded_field(v, j);
    lemma_trim_end_noop(spec_int_text(x));
    lemma_parse_int_text(x);
}

/// The header parsed back from its trimmed text: the flag token reads as the
/// flag, and the version comes back exactly, provided the version does not
/// end in white space.
pub proof fn lemma_header_round_trip(flag: bool, version: Seq<char>)
    requires
        version.len() == 0 || !is_white(version.last()),
    ensures
        is_true_token(header_token(trim_end_text(header_text(flag, version)))) == flag,
        header_version(trim_end_text(header_text(flag, version))) == version,
{
    let fc = flag_chars(flag);
    let fl = fc.len() as int;
    assert(fc[0] != ' ' && fc[1] != ' ' && fc[2] != ' ' && fc[3] != ' ');
    if !flag {
        assert(fc[4] != ' ');
    }
    if version.len() == 0 {
        assert(header_text(flag, version) =~= fc + seq![' ']);
        assert forall|i: int| 0 <= i < seq![' '].len() implies is_white(#[trigger] seq![' '][i])
            by {}
        lemma_trim_end_white_suffix(fc, seq![' ']);
        assert(fc.last() == 'e');
        lemma_trim_end_noop(fc);
        let h = trim_end_text(header_text(flag, version));
        assert(h == fc);
        lemma_token_len_at(fc, fl);
        assert(header_token(h) =~= fc);
        assert(header_version(h) =~= version);
    } else {
        let h = header_text(flag, version);
        assert(h.len() == fl + 1 + version.len());
        assert(h.last() == version.last());
        lemma_trim_end_noop(h);
        assert forall|j: int| 0 <= j < fl implies h[j] != ' ' by {
            assert(h[j] == fc[j]);
        }
        assert(h[fl] == ' ');
        lemma_token_len_at(h, fl);
        assert(header_token(h) =~= fc);
        assert(header_version(h) =~= version);
    }
    if flag {
        assert(is_true_token(fc));
    } else {
        assert(fc.len() == 5);
        assert(!is_true_token(fc));
    }
}

/// The conditions under which a record survives encode-then-decode exactly:
/// it is well formed and encodable, the unused `clk_sources[0]` slot is
/// empty, the header and every text field fit their 10-byte fixed fields
/// without trailing white space, and every integer field prints in at most
/// 10 bytes.
pub open spec fn round_trippable(v: PatternView) -> bool {
    &&& wf_lengths(v)
    &&& encodable(v)
    &&& v.clk_sources[0] == Seq::<char>::empty()
    &&& encode_utf8(header_text(v.compiled_flag, v.version)).len() <= 10
    &&& (v.version.len() == 0 || !is_white(v.version.last()))
    &&& (forall|i: int| 0 <= i < 9 ==> field_fits(#[trigger] v.vtime_reqd[i]))
    &&& (forall|i: int| 0 <= i < 9 ==> field_fits(#[trigger] v.cycle_time[i]))
    &&& (forall|i: int| 0 <= i < 9 ==> field_fits(#[trigger] v.pulse_time[i]))
    &&& (forall|i: int| 1 <= i < 65 ==> field_fits(#[trigger] v.clk_sources[i]))
    &&& int_field_ok(v.source_combo_index)
    &&& (forall|i: int| 0 <= i < 8 ==> int_field_ok(#[trigger] v.pclk_source_indices[i]))
    &&& (forall|i: int| 0 <= i < 8 ==> int_field_ok(#[trigger] v.start_addrs[i]))
    &&& (forall|i: int| 0 <= i < 8 ==> int_field_ok(#[trigger] v.end_addrs[i]))
    &&& (forall|i: int| 0 <= i < 8 ==> int_field_ok(#[trigger] v.loop_counts[i]))
    &&& int_field_ok(v.pattern_file_length)
}

/// Round trip: decoding the encoding of any round-trippable record gives
/// back exactly that record.
pub proof fn lemma_round_trip(v: PatternView)
    requires
        round_trippable(v),
    ensures
        spec_decode(spec_encode(v)) is Some,
        spec_decode(spec_encode(v))->Some_0 == v,
{
    let enc = spec_encode(v);
    let cols = spec_cols(v);
    lemma_spec_encode_len(v);
    assert(enc.len() == 1260 + 18 * cols);

    // pattern length field and the size check
    assert(field_source(v, 125) == spec_int_text(v.pattern_file_length));
    lemma_decoded_int_field(v, 125, v.pattern_file_length);
    assert(spec_decode(enc) is Some);
    let w = spec_decode(enc)->Some_0;
    assert(w.pattern_file_length == v.pattern_file_length);

    // header
    assert(encode_utf8(field_source(v, 0)).len() <= 10);
    lemma_decoded_field(v, 0);
    lemma_header_round_trip(v.compiled_flag, v.version);
    assert(w.compiled_flag == v.compiled_flag);
    assert(w.version == v.version);

    // source combo index
    assert(field_source(v, 1) == spec_int_text(v.source_combo_index));
    lemma_decoded_int_field(v, 1, v.source_combo_index);
    assert(w.source_combo_index == v.source_combo_index);

    // per-channel clock selectors
    assert forall|i: int| 0 <= i < 8 implies w.pclk_source_indices[i]
        == v.pclk_source_indices[i] by {
        assert(field_source(v, 2 + i) == spec_int_text(v.pclk_source_indices[i]));
        lemma_decoded_int_field(v, 2 + i, v.pclk_source_indices[i]);
    }
    assert(w.pclk_source_indices =~= v.pclk_source_indices);

    // the three timing groups, slot 8 stored first
    assert forall|i: int| 0 <= i < 9 implies w.vtime_reqd[i] == v.vtime_reqd[i] by {
        let j = if i == 8 {
            10int
        } else {
            11 + i
        };
        assert(field_source(v, j) == v.vtime_reqd[i]);
        assert(field_fits(v.vtime_reqd[i]));
        lemma_decoded_field(v, j);
        lemma_trim_end_noop(v.vtime_reqd[i]);
    }
    assert(w.vtime_reqd =~= v.vtime_reqd);
    assert forall|i: int| 0 <= i < 9 implies w.cycle_time[i] == v.cycle_time[i] by {
        let j = if i == 8 {
            19int
        } else {
            20 + i
        };
        assert(field_source(v, j) == v.cycle_time[i]);
        assert(field_fits(v.cycle_time[i]));
        lemma_decoded_field(v, j);
        lemma_trim_end_noop(v.cycle_time[i]);
    }
    assert(w.cycle_time =~= v.cycle_time);
    assert forall|i: int| 0 <= i < 9 implies w.pulse_time[i] == v.pulse_time[i] by {
        let j = if i == 8 {
            28int
        } else {
            29 + i
        };
        assert(field_source(v, j) == v.pulse_time[i]);
        assert(field_fits(v.pulse_time[i]));
        lemma_decoded_field(v, j);
        lemma_trim_end_noop(v.pulse_time[i]);
    }
    assert(w.pulse_time =~= v.pulse_time);

    // clock sources 1 to 64; slot 0 is the empty placeholder on both sides
    assert forall|i: int| 0 <= i < 65 implies w.clk_sources[i] == v.clk_sources[i] by {
        if i == 0 {
            assert(w.clk_sources[0] == Seq::<char>::empty());
        } else {
            assert(field_source(v, 36 + i) == v.clk_sources[i]);
            assert(field_fits(v.clk_sources[i]));
            lemma_decoded_field(v, 36 + i);
            lemma_trim_end_noop(v.clk_sources[i]);
        }
    }
    assert(w.clk_sources =~= v.clk_sources);

    // the channel triples
    assert forall|i: int| 0 <= i < 8 implies w.start_addrs[i] == v.start_addrs[i]
        && w.end_addrs[i] == v.end_addrs[i] && w.loop_counts[i] == v.loop_counts[i] by {
        vstd::arithmetic::div_mod::lemma_fundamental_div_mod_converse(3 * i, 3, i, 0);
        vstd::arithmetic::div_mod::lemma_fundamental_div_mod_converse(3 * i + 1, 3, i, 1);
        vstd::arithmetic::div_mod::lemma_fundamental_div_mod_converse(3 * i + 2, 3, i, 2);
        assert(field_source(v, 101 + 3 * i) == spec_int_text(v.start_addrs[i]));
        assert(field_source(v, 102 + 3 * i) == spec_int_text(v.end_addrs[i]));
        assert(field_source(v, 103 + 3 * i) == spec_int_text(v.loop_counts[i]));
        lemma_decoded_int_field(v, 101 + 3 * i, v.start_addrs[i]);
        lemma_decoded_int_field(v, 102 + 3 * i, v.end_addrs[i]);
        lemma_decoded_int_field(v, 103 + 3 * i, v.loop_counts[i]);
    }
    assert(w.start_addrs =~= v.start_addrs);
    assert(w.end_addrs =~= v.end_addrs);
    assert(w.loop_counts =~= v.loop_counts);

    // the matrix comes back cell for cell
    let mb = matrix_bytes(v.pattern_data, cols);
    assert forall|bit: int| 0 <= bit < 18 implies w.pattern_data[bit] =~= v.pattern_data[bit] by {
        assert(v.pattern_data[bit].len() == cols);
        assert forall|col: int| 0 <= col < cols implies w.pattern_data[bit][col]
            == v.pattern_data[bit][col] by {
            let jx = 18 * col + bit;
            vstd::arithmetic::div_mod::lemma_fundamental_div_mod_converse(jx, 18, col, bit);
            assert(enc[1260 + jx] == mb[jx]);
            assert(w.pattern_data[bit][col] == enc[1260 + jx]);
        }
    }
    assert(w.pattern_data =~~= v.pattern_data);

    assert(w =~~= v);
}

/// Slot ordering: a round trip returns every timing value to its own slot;
/// in particular the global slot 8 never swaps with slots 0 to 7.
pub proof fn lemma_slot_ordering(v: PatternView)
    requires
        round_trippable(v),
    ensures
        spec_decode(spec_encode(v)) is Some,
        forall|i: int|
            0 <= i < 9 ==> #[trigger] spec_decode(spec_encode(v))->Some_0.vtime_reqd[i]
                == v.vtime_reqd[i],
{
    lemma_round_trip(v);
}

/// After any successful decode, `clk_sources[0]` is the empty placeholder,
/// whatever the input bytes held there.
pub proof fn lemma_clk_source_zero(bytes: Seq<u8>)
    requires
        spec_decode(bytes) is Some,
    ensures
        spec_decode(bytes)->Some_0.clk_sources[0] == Seq::<char>::empty(),
{
}

/// A malformed numeric field never fails a decode: a source combo field that
/// is not integer text reads as zero.
pub proof fn lemma_malformed_numeric(bytes: Seq<u8>)
    requires
        spec_decode(bytes) is Some,
        !is_int_text(field_chars(bytes, 1)),
    ensures
        spec_decode(bytes)->Some_0.source_combo_index == 0,
{
}

/// A byte source shorter than the fixed header never decodes, with no
/// partial or zeroed record.
pub proof fn lemma_truncated_decode(bytes: Seq<u8>)
    requires
        bytes.len() < 1260,
    ensures
        spec_decode(bytes) is None,
{
}

} // verus!
