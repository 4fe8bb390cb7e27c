//! The pattern-file codec: the record type, the byte-level layout
//! specification, and the decoder and encoder proved against it.
//!
//! A pattern file is 126 fixed fields of 10 bytes each — text, left
//! justified and space padded — followed by a raw byte matrix of 18 rows and
//! `pattern_file_length + 20` columns, stored column major.

use vstd::prelude::*;
use vstd::string::StrSliceExecFns;
use vstd::utf8::encode_utf8;

use crate::num::format_i32;
use crate::num::lemma_int_text_plain;
use crate::num::spec_int_text;
use crate::num::spec_parse_i32_or_zero;
use crate::text::ascii_bytes;
use crate::text::is_white;
use crate::text::lemma_ascii_encode;
use crate::text::lemma_encode_utf8_concat;
use crate::text::lossy_string;
use crate::text::lossy_text;
use crate::text::trim_end_text;
use crate::text::trimmed_end;
use crate::PcfError;

verus! {

/// The decoded form of a pattern file.
///
/// `pclk_source_indices`, `start_addrs`, `end_addrs` and `loop_counts` hold
/// 8 entries, one per channel; the three timing arrays hold 9 (slot 8 is the
/// global slot, stored on disk before slots 0 to 7); `clk_sources` holds 65
/// entries of which only indices 1 to 64 are persisted; `pattern_data` is
/// indexed `[row][column]` with 18 rows.
#[derive(Debug, PartialEq, Eq)]
pub struct PatternFileData {
    pub compiled_flag: bool,
    pub version: String,
    pub source_combo_index: i32,
    pub pclk_source_indices: Vec<i32>,
    pub vtime_reqd: Vec<String>,
    pub cycle_time: Vec<String>,
    pub pulse_time: Vec<String>,
    pub clk_sources: Vec<String>,
    pub start_addrs: Vec<i32>,
    pub end_addrs: Vec<i32>,
    pub loop_counts: Vec<i32>,
    pub pattern_file_length: i32,
    pub pattern_data: Vec<Vec<u8>>,
}

/// The mathematical shape of a record: text as character sequences, integers
/// unbounded, the matrix as a sequence of rows.
#[verifier::ext_equal]
pub ghost struct PatternView {
    pub compiled_flag: bool,
    pub version: Seq<char>,
    pub source_combo_index: int,
    pub pclk_source_indices: Seq<int>,
    pub vtime_reqd: Seq<Seq<char>>,
    pub cycle_time: Seq<Seq<char>>,
    pub pulse_time: Seq<Seq<char>>,
    pub clk_sources: Seq<Seq<char>>,
    pub start_addrs: Seq<int>,
    pub end_addrs: Seq<int>,
    pub loop_counts: Seq<int>,
    pub pattern_file_length: int,
    pub pattern_data: Seq<Seq<u8>>,
}

impl View for PatternFileData {
    type V = PatternView;

    open spec fn view(&self) -> PatternView {
        PatternView {
            compiled_flag: self.compiled_flag,
            version: self.version@,
            source_combo_index: self.source_combo_index as int,
            pclk_source_indices: self.pclk_source_indices@.map_values(|x: i32| x as int),
            vtime_reqd: self.vtime_reqd.deep_view(),
            cycle_time: self.cycle_time.deep_view(),
            pulse_time: self.pulse_time.deep_view(),
            clk_sources: self.clk_sources.deep_view(),
            start_addrs: self.start_addrs@.map_values(|x: i32| x as int),
            end_addrs: self.end_addrs@.map_values(|x: i32| x as int),
            loop_counts: self.loop_counts@.map_values(|x: i32| x as int),
            pattern_file_length: self.pattern_file_length as int,
            pattern_data: self.pattern_data.deep_view(),
        }
    }
}

/// The fixed per-channel and per-slot array lengths of the layout.
pub open spec fn wf_lengths(v: PatternView) -> bool {
    &&& v.pclk_source_indices.len() == 8
    &&& v.vtime_reqd.len() == 9
    &&& v.cycle_time.len() == 9
    &&& v.pulse_time.len() == 9
    &&& v.start_addrs.len() == 8
    &&& v.end_addrs.len() == 8
    &&& v.loop_counts.len() == 8
}

/// The matrix column count a record declares.
pub open spec fn spec_cols(v: PatternView) -> int {
    v.pattern_file_length + 20
}

/// Whether a record can be encoded: exactly 65 clock sources and a matrix of
/// 18 rows, each as wide as the declared column count.
pub open spec fn encodable(v: PatternView) -> bool {
    &&& v.clk_sources.len() == 65
    &&& v.pattern_data.len() == 18
    &&& spec_cols(v) >= 0
    &&& forall|i: int| 0 <= i < 18 ==> #[trigger] v.pattern_data[i].len() == spec_cols(v)
}

/// The header text: the flag token, one space, then the version text.
pub open spec fn flag_chars(b: bool) -> Seq<char> {
    if b {
        seq!['T', 'r', 'u', 'e']
    } else {
        seq!['F', 'a', 'l', 's', 'e']
    }
}

pub open spec fn header_text(flag: bool, version: Seq<char>) -> Seq<char> {
    flag_chars(flag) + seq![' '] + version
}

/// The text written into fixed field `k`, for `k` in `0..126`, in on-disk
/// order: header, source combo, 8 clock selectors, three 9-slot timing
/// groups each stored slot 8 first, clock sources 1 to 64, eight
/// (start, end, loop) channel triples, then the pattern length.
pub open spec fn field_source(v: PatternView, k: int) -> Seq<char> {
    if k == 0 {
        header_text(v.compiled_flag, v.version)
    } else if k == 1 {
        spec_int_text(v.source_combo_index)
    } else if 2 <= k < 10 {
        spec_int_text(v.pclk_source_indices[k - 2])
    } else if k == 10 {
        v.vtime_reqd[8]
    } else if 11 <= k < 19 {
        v.vtime_reqd[k - 11]
    } else if k == 19 {
        v.cycle_time[8]
    } else if 20 <= k < 28 {
        v.cycle_time[k - 20]
    } else if k == 28 {
        v.pulse_time[8]
    } else if 29 <= k < 37 {
        v.pulse_time[k - 29]
    } else if 37 <= k < 101 {
        v.clk_sources[k - 36]
    } else if 101 <= k < 125 {
        if (k - 101) % 3 == 0 {
            spec_int_text(v.start_addrs[(k - 101) / 3])
        } else if (k - 101) % 3 == 1 {
            spec_int_text(v.end_addrs[(k - 101) / 3])
        } else {
            spec_int_text(v.loop_counts[(k - 101) / 3])
        }
    } else {
        spec_int_text(v.pattern_file_length)
    }
}

/// A text's 10-byte fixed field: its bytes truncated to 10, or padded with
/// trailing spaces up to 10.
pub open spec fn pad_field(b: Seq<u8>) -> Seq<u8> {
    if b.len() >= 10 {
        b.take(10)
    } else {
        b + Seq::new((10 - b.len()) as nat, |i: int| 32u8)
    }
}

/// The bytes of the first `k` fixed fields of a record.
pub open spec fn fields_bytes(v: PatternView, k: int) -> Seq<u8>
    decreases k,
{
    if k <= 0 {
        Seq::empty()
    } else {
        fields_bytes(v, k - 1) + pad_field(encode_utf8(field_source(v, k - 1)))
    }
}

/// The matrix bytes in on-disk order: column major, 18 bytes per column.
pub open spec fn matrix_bytes(m: Seq<Seq<u8>>, cols: int) -> Seq<u8> {
    Seq::new((18 * cols) as nat, |j: int| m[j % 18][j / 18])
}

/// The exact byte stream the encoder produces for a record.
pub open spec fn spec_encode(v: PatternView) -> Seq<u8> {
    fields_bytes(v, 126) + matrix_bytes(v.pattern_data, spec_cols(v))
}

/// The trimmed text read from fixed field `k` of a byte stream.
pub open spec fn field_chars(bytes: Seq<u8>, k: int) -> Seq<char> {
    trim_end_text(lossy_text(bytes.subrange(10 * k, 10 * k + 10)))
}

/// The length of the header token: the characters before the first space.
pub open spec fn token_len(s: Seq<char>) -> int
    decreases s.len(),
{
    if s.len() == 0 {
        0
    } else if s[0] == ' ' {
        0
    } else {
        1 + token_len(s.drop_first())
    }
}

/// The token at `k` characters when everything before `k` is not a space and
/// the text ends or has a space at `k`.
pub proof fn lemma_token_len_at(s: Seq<char>, k: int)
    requires
        0 <= k <= s.len(),
        forall|j: int| 0 <= j < k ==> s[j] != ' ',
        k == s.len() || s[k] == ' ',
    ensures
        token_len(s) == k,
    decreases k,
{
    if k == 0 {
    } else {
        assert(s[0] != ' ');
        let t = s.drop_first();
        assert forall|j: int| 0 <= j < k - 1 implies t[j] != ' ' by {
            assert(t[j] == s[j + 1]);
        }
        if k < s.len() {
            assert(t[k - 1] == s[k]);
        }
        lemma_token_len_at(t, k - 1);
    }
}

pub open spec fn header_token(s: Seq<char>) -> Seq<char> {
    s.take(token_len(s))
}

/// The version part of a header: what follows the first space, empty when
/// there is no space.
pub open spec fn header_version(s: Seq<char>) -> Seq<char> {
    if token_len(s) < s.len() {
        s.subrange(token_len(s) + 1, s.len() as int)
    } else {
        Seq::empty()
    }
}

/// Whether the token reads as boolean true, compared case-insensitively.
pub open spec fn is_true_token(t: Seq<char>) -> bool {
    &&& t.len() == 4
    &&& (t[0] == 't' || t[0] == 'T')
    &&& (t[1] == 'r' || t[1] == 'R')
    &&& (t[2] == 'u' || t[2] == 'U')
    &&& (t[3] == 'e' || t[3] == 'E')
}

/// The record a byte stream decodes to, or `None` when the stream is shorter
/// than the 1260 header bytes plus the matrix its length field declares.
pub open spec fn spec_decode(bytes: Seq<u8>) -> Option<PatternView> {
    if bytes.len() < 1260 {
        None
    } else {
        let pfl = spec_parse_i32_or_zero(field_chars(bytes, 125));
        let cols = pfl + 20;
        if cols < 0 || bytes.len() - 1260 < 18 * cols {
            None
        } else {
            Some(
                PatternView {
                    compiled_flag: is_true_token(header_token(field_chars(bytes, 0))),
                    version: header_version(field_chars(bytes, 0)),
                    source_combo_index: spec_parse_i32_or_zero(field_chars(bytes, 1)),
                    pclk_source_indices: Seq::new(
                        8,
                        |i: int| spec_parse_i32_or_zero(field_chars(bytes, 2 + i)),
                    ),
                    vtime_reqd: Seq::new(
                        9,
                        |i: int|
                            if i == 8 {
                                field_chars(bytes, 10)
                            } else {
                                field_chars(bytes, 11 + i)
                            },
                    ),
                    cycle_time: Seq::new(
                        9,
                        |i: int|
                            if i == 8 {
                                field_chars(bytes, 19)
                            } else {
                                field_chars(bytes, 20 + i)
                            },
                    ),
                    pulse_time: Seq::new(
                        9,
                        |i: int|
                            if i == 8 {
                                field_chars(bytes, 28)
                            } else {
                                field_chars(bytes, 29 + i)
                            },
                    ),
                    clk_sources: Seq::new(
                        65,
                        |i: int|
                            if i == 0 {
                                Seq::<char>::empty()
                            } else {
                                field_chars(bytes, 36 + i)
                            },
                    ),
                    start_addrs: Seq::new(
                        8,
                        |i: int| spec_parse_i32_or_zero(field_chars(bytes, 101 + 3 * i)),
                    ),
                    end_addrs: Seq::new(
                        8,
                        |i: int| spec_parse_i32_or_zero(field_chars(bytes, 102 + 3 * i)),
                    ),
                    loop_counts: Seq::new(
                        8,
                        |i: int| spec_parse_i32_or_zero(field_chars(bytes, 103 + 3 * i)),
                    ),
                    pattern_file_length: pfl,
                    pattern_data: Seq::new(
                        18,
                        |bit: int|
                            Seq::new(cols as nat, |col: int| bytes[1260 + 18 * col + bit]),
                    ),
                },
            )
        }
    }
}

/// The trimmed text of fixed field `k` of the byte stream.
fn read_field(bytes: &[u8], k: usize) -> (s: String)
    requires
        k < 126,
        10 * k + 10 <= bytes@.len(),
    ensures
        s@ == field_chars(bytes@, k as int),
{
    let mut buf: Vec<u8> = Vec::new();
    let mut i: usize = 0;
    while i < 10
        invariant
            i <= 10,
            k < 126,
            10 * k + 10 <= bytes@.len(),
            buf@ =~= bytes@.subrange(10 * k as int, 10 * k as int + i as int),
        decreases 10 - i,
    {
        let b: u8 = bytes[10 * k + i];
        buf.push(b);
        i = i + 1;
        proof {
            assert(buf@ =~= bytes@.subrange(10 * k as int, 10 * k as int + i as int));
        }
    }
    let raw: String = lossy_string(buf.as_slice());
    trimmed_end(raw.as_str())
}

/// The flag and version parsed from the trimmed header field: the token
/// before the first space read as a case-insensitive boolean, defaulting to
/// false, and the remainder after that space.
fn parse_header(h: &str) -> (r: (bool, String))
    ensures
        r.0 == is_true_token(header_token(h@)),
        r.1@ == header_version(h@),
{
    let len: usize = h.unicode_len();
    let mut tl: usize = 0;
    loop
        invariant
            tl <= len,
            len == h@.len(),
            forall|j: int| 0 <= j < tl ==> h@[j] != ' ',
        ensures
            tl <= len,
            token_len(h@) == tl,
        decreases len - tl,
    {
        if tl == len {
            proof {
                lemma_token_len_at(h@, tl as int);
            }
            break ;
        }
        let c: char = h.get_char(tl);
        if c == ' ' {
            proof {
                lemma_token_len_at(h@, tl as int);
            }
            break ;
        }
        tl = tl + 1;
    }
    let flag: bool = if tl == 4 {
        let c0: char = h.get_char(0);
        let c1: char = h.get_char(1);
        let c2: char = h.get_char(2);
        let c3: char = h.get_char(3);
        proof {
            assert(header_token(h@) =~= h@.take(4));
        }
        (c0 == 't' || c0 == 'T') && (c1 == 'r' || c1 == 'R') && (c2 == 'u' || c2 == 'U') && (c3
            == 'e' || c3 == 'E')
    } else {
        proof {
            assert(header_token(h@).len() == tl);
        }
        false
    };
    let version: String = if tl < len {
        let v: &str = h.substring_char(tl + 1, len);
        proof {
            assert(v@ =~= header_version(h@));
        }
        v.to_owned()
    } else {
        String::new()
    };
    (flag, version)
}

/// Decode a pattern-file byte stream into a record.
///
/// Decoding fails only on truncation: when fewer than 1260 header bytes are
/// present, or when fewer matrix bytes follow than the 18 rows of
/// `pattern_file_length + 20` columns the header declares.  A numeric field
/// that does not parse decodes as 0 and is never an error, and
/// `clk_sources[0]` is always left empty.
pub fn parse_pcf_bytes(bytes: &[u8]) -> (r: Result<PatternFileData, PcfError>)
    ensures
        r is Ok <==> spec_decode(bytes@) is Some,
        r is Ok ==> r->Ok_0@ == spec_decode(bytes@)->Some_0,
        r is Err ==> r->Err_0 is Truncated,
{
    if bytes.len() < 1260 {
        return Err(PcfError::Truncated);
    }
    let header: String = read_field(bytes, 0);
    let hr: (bool, String) = parse_header(header.as_str());
    let compiled_flag: bool = hr.0;
    let version: String = hr.1;

    let sci_text: String = read_field(bytes, 1);
    let source_combo_index: i32 = crate::num::parse_i32_or_zero(sci_text.as_str());

    let mut pclk_source_indices: Vec<i32> = Vec::new();
    let mut i: usize = 0;
    while i < 8
        invariant
            i <= 8,
            bytes@.len() >= 1260,
            pclk_source_indices@.len() == i,
            forall|j: int|
                0 <= j < i ==> pclk_source_indices@[j] as int == spec_parse_i32_or_zero(
                    field_chars(bytes@, 2 + j),
                ),
        decreases 8 - i,
    {
        let t: String = read_field(bytes, 2 + i);
        pclk_source_indices.push(crate::num::parse_i32_or_zero(t.as_str()));
        i = i + 1;
    }

    let vtime_reqd: Vec<String> = read_slot8_group(bytes, 10);
    let cycle_time: Vec<String> = read_slot8_group(bytes, 19);
    let pulse_time: Vec<String> = read_slot8_group(bytes, 28);

    let mut clk_sources: Vec<String> = Vec::new();
    clk_sources.push(String::new());
    let mut i: usize = 1;
    while i < 65
        invariant
            1 <= i <= 65,
            bytes@.len() >= 1260,
            clk_sources@.len() == i,
            clk_sources@[0]@ == Seq::<char>::empty(),
            forall|j: int| 1 <= j < i ==> clk_sources@[j]@ == field_chars(bytes@, 36 + j),
        decreases 65 - i,
    {
        let t: String = read_field(bytes, 36 + i);
        clk_sources.push(t);
        i = i + 1;
    }

    let mut start_addrs: Vec<i32> = Vec::new();
    let mut end_addrs: Vec<i32> = Vec::new();
    let mut loop_counts: Vec<i32> = Vec::new();
    let mut i: usize = 0;
    while i < 8
        invariant
            i <= 8,
            bytes@.len() >= 1260,
            start_addrs@.len() == i,
            end_addrs@.len() == i,
            loop_counts@.len() == i,
            forall|j: int|
                0 <= j < i ==> start_addrs@[j] as int == spec_parse_i32_or_zero(
                    field_chars(bytes@, 101 + 3 * j),
                ),
            forall|j: int|
                0 <= j < i ==> end_addrs@[j] as int == spec_parse_i32_or_zero(
                    field_chars(bytes@, 102 + 3 * j),
                ),
            forall|j: int|
                0 <= j < i ==> loop_counts@[j] as int == spec_parse_i32_or_zero(
                    field_chars(bytes@, 103 + 3 * j),
                ),
        decreases 8 - i,
    {
        let ts: String = read_field(bytes, 101 + 3 * i);
        start_addrs.push(crate::num::parse_i32_or_zero(ts.as_str()));
        let te: String = read_field(bytes, 102 + 3 * i);
        end_addrs.push(crate::num::parse_i32_or_zero(te.as_str()));
        let tl: String = read_field(bytes, 103 + 3 * i);
        loop_counts.push(crate::num::parse_i32_or_zero(tl.as_str()));
        i = i + 1;
    }

    let pfl_text: String = read_field(bytes, 125);
    let pattern_file_length: i32 = crate::num::parse_i32_or_zero(pfl_text.as_str());

    let cols_wide: i64 = pattern_file_length as i64 + 20;
    if cols_wide < 0 {
        return Err(PcfError::Truncated);
    }
    let cols: usize = cols_wide as usize;
    let avail: usize = bytes.len() - 1260;
    if avail / 18 < cols {
        proof {
            vstd::arithmetic::div_mod::lemma_fundamental_div_mod(avail as int, 18);
        }
        return Err(PcfError::Truncated);
    }
    proof {
        vstd::arithmetic::div_mod::lemma_fundamental_div_mod(avail as int, 18);
        assert(18 * cols <= avail);
    }

    let mut pattern_data: Vec<Vec<u8>> = Vec::new();
    let mut bit: usize = 0;
    while bit < 18
        invariant
            bit <= 18,
            bytes@.len() >= 1260 + 18 * cols,
            bytes@.len() <= usize::MAX,
            pattern_data@.len() == bit,
            forall|b: int|
                0 <= b < bit ==> pattern_data@[b]@ == Seq::new(
                    cols as nat,
                    |col: int| bytes@[1260 + 18 * col + b],
                ),
        decreases 18 - bit,
    {
        let mut row: Vec<u8> = Vec::new();
        let mut col: usize = 0;
        while col < cols
            invariant
                col <= cols,
                bit < 18,
                bytes@.len() >= 1260 + 18 * cols,
                bytes@.len() <= usize::MAX,
                row@.len() == col,
                forall|c: int| 0 <= c < col ==> row@[c] == bytes@[1260 + 18 * c + bit],
            decreases cols - col,
        {
            let idx: usize = 1260 + 18 * col + bit;
            let b: u8 = bytes[idx];
            row.push(b);
            col = col + 1;
        }
        proof {
            assert(row@ =~= Seq::new(cols as nat, |c: int| bytes@[1260 + 18 * c + bit as int]));
        }
        pattern_data.push(row);
        bit = bit + 1;
    }

    let result = PatternFileData {
        compiled_flag,
        version,
        source_combo_index,
        pclk_source_indices,
        vtime_reqd,
        cycle_time,
        pulse_time,
        clk_sources,
        start_addrs,
        end_addrs,
        loop_counts,
        pattern_file_length,
        pattern_data,
    };
    proof {
        let spec_v = spec_decode(bytes@)->Some_0;
        assert(result@.pclk_source_indices =~= spec_v.pclk_source_indices);
        assert(result@.vtime_reqd =~= spec_v.vtime_reqd);
        assert(result@.cycle_time =~= spec_v.cycle_time);
        assert(result@.pulse_time =~= spec_v.pulse_time);
        assert(result@.clk_sources =~= spec_v.clk_sources);
        assert(result@.start_addrs =~= spec_v.start_addrs);
        assert(result@.end_addrs =~= spec_v.end_addrs);
        assert(result@.loop_counts =~= spec_v.loop_counts);
        assert(result@.pattern_data =~~= spec_v.pattern_data);
        assert(result@ =~~= spec_v);
    }
    Ok(result)
}

/// One 9-slot timing group read from disk: the global slot 8 stands first on
/// disk at field `base`, then slots 0 to 7 follow.
fn read_slot8_group(bytes: &[u8], base: usize) -> (v: Vec<String>)
    requires
        base < 117,
        bytes@.len() >= 1260,
    ensures
        v@.len() == 9,
        v@[8]@ == field_chars(bytes@, base as int),
        forall|i: int| 0 <= i < 8 ==> v@[i]@ == field_chars(bytes@, base + 1 + i),
{
    let slot8: String = read_field(bytes, base);
    let mut v: Vec<String> = Vec::new();
    let mut i: usize = 0;
    while i < 8
        invariant
            i <= 8,
            base < 117,
            bytes@.len() >= 1260,
            v@.len() == i,
            forall|j: int| 0 <= j < i ==> v@[j]@ == field_chars(bytes@, base + 1 + j),
        decreases 8 - i,
    {
        let t: String = read_field(bytes, base + 1 + i);
        v.push(t);
        i = i + 1;
    }
    v.push(slot8);
    v
}

/// The definitional step of [`fields_bytes`], spelled out for callers.
pub proof fn lemma_fields_bytes_step(v: PatternView, k: int)
    requires
        k >= 0,
    ensures
        fields_bytes(v, k + 1) == fields_bytes(v, k) + pad_field(
            encode_utf8(field_source(v, k)),
        ),
{
}

/// Append the 10-byte fixed field for the given text bytes: the bytes
/// truncated to 10, or padded with trailing spaces up to 10.
fn write_fixed(out: &mut Vec<u8>, piece: &Vec<u8>)
    ensures
        final (out)@ == old(out)@ + pad_field(piece@),
{
    let n: usize = if piece.len() < 10 {
        piece.len()
    } else {
        10
    };
    let mut i: usize = 0;
    while i < n
        invariant
            i <= n,
            n == if piece@.len() < 10 {
                piece@.len() as int
            } else {
                10int
            },
            out@ == old(out)@ + piece@.take(i as int),
        decreases n - i,
    {
        let b: u8 = piece[i];
        out.push(b);
        i = i + 1;
        proof {
            assert(piece@.take(i as int) =~= piece@.take(i - 1).push(piece@[i - 1]));
            assert(out@ =~= old(out)@ + piece@.take(i as int));
        }
    }
    while i < 10
        invariant
            n <= i <= 10,
            n == if piece@.len() < 10 {
                piece@.len() as int
            } else {
                10int
            },
            out@ == old(out)@ + piece@.take(n as int) + Seq::new(
                (i - n) as nat,
                |q: int| 32u8,
            ),
        decreases 10 - i,
    {
        out.push(32);
        i = i + 1;
        proof {
            assert(Seq::new((i - n) as nat, |q: int| 32u8) =~= Seq::new(
                (i - 1 - n) as nat,
                |q: int| 32u8,
            ).push(32u8));
            assert(out@ =~= old(out)@ + piece@.take(n as int) + Seq::new(
                (i - n) as nat,
                |q: int| 32u8,
            ));
        }
    }
    proof {
        if piece@.len() >= 10 {
            assert(Seq::new(0, |q: int| 32u8) =~= Seq::<u8>::empty());
            assert(out@ =~= old(out)@ + pad_field(piece@));
        } else {
            assert(piece@.take(n as int) =~= piece@);
            assert(out@ =~= old(out)@ + pad_field(piece@));
        }
    }
}

/// Append the fixed field holding an integer's canonical decimal text.
fn write_int_field(out: &mut Vec<u8>, x: i32)
    ensures
        final (out)@ == old(out)@ + pad_field(encode_utf8(spec_int_text(x as int))),
{
    let piece: Vec<u8> = format_i32(x);
    proof {
        lemma_int_text_plain(x as int);
        assert(vstd::utf8::is_ascii_chars(spec_int_text(x as int)));
        lemma_ascii_encode(spec_int_text(x as int));
    }
    write_fixed(out, &piece);
}

/// Append the fixed field holding a text value.
fn write_text_field(out: &mut Vec<u8>, s: &String)
    ensures
        final (out)@ == old(out)@ + pad_field(encode_utf8(s@)),
{
    let piece: Vec<u8> = vstd::slice::slice_to_vec(s.as_str().as_bytes());
    write_fixed(out, &piece);
}

/// Encode a record into the exact on-disk byte stream.
///
/// Fails with [`PcfError::ClkSourcesLen`] when `clk_sources` does not hold
/// exactly 65 entries, and with [`PcfError::MatrixShape`] when the matrix is
/// not 18 rows of exactly `pattern_file_length + 20` bytes each.
pub fn write_pcf_bytes(data: &PatternFileData) -> (r: Result<Vec<u8>, PcfError>)
    requires
        wf_lengths(data@),
    ensures
        r is Ok <==> encodable(data@),
        r is Ok ==> r->Ok_0@ == spec_encode(data@),
        r is Err && data@.clk_sources.len() != 65 ==> r->Err_0 is ClkSourcesLen,
        r is Err && data@.clk_sources.len() == 65 ==> r->Err_0 is MatrixShape,
{
    let ghost v = data@;
    proof {
        assert(v.clk_sources.len() == data.clk_sources@.len());
        assert(v.pattern_data.len() == data.pattern_data@.len());
    }
    if data.clk_sources.len() != 65 {
        return Err(PcfError::ClkSourcesLen);
    }
    if data.pattern_data.len() != 18 {
        return Err(PcfError::MatrixShape);
    }
    let cols_wide: i64 = data.pattern_file_length as i64 + 20;
    if cols_wide < 0 {
        return Err(PcfError::MatrixShape);
    }
    let cols: usize = cols_wide as usize;
    let mut bit: usize = 0;
    while bit < 18
        invariant
            bit <= 18,
            data@ == v,
            v.clk_sources.len() == 65,
            v.pattern_data.len() == 18,
            data.pattern_data@.len() == 18,
            spec_cols(v) >= 0,
            cols == spec_cols(v),
            forall|b: int| 0 <= b < bit ==> #[trigger] v.pattern_data[b].len() == spec_cols(v),
        decreases 18 - bit,
    {
        if data.pattern_data[bit].len() != cols {
            proof {
                assert(v.pattern_data[bit as int] == data.pattern_data@[bit as int].deep_view());
                assert(v.pattern_data[bit as int].len() == data.pattern_data@[bit as int]@.len());
            }
            return Err(PcfError::MatrixShape);
        }
        proof {
            assert(v.pattern_data[bit as int] == data.pattern_data@[bit as int].deep_view());
            assert(v.pattern_data[bit as int].len() == data.pattern_data@[bit as int]@.len());
        }
        bit = bit + 1;
    }
    assert(encodable(v));

    let mut out: Vec<u8> = Vec::new();

    // header field: flag token, one space, then the version text
    let flag_str: &str = if data.compiled_flag {
        "True"
    } else {
        "False"
    };
    let mut hp: Vec<u8> = vstd::slice::slice_to_vec(flag_str.as_bytes());
    proof {
        reveal_strlit("True");
        reveal_strlit("False");
        assert("True"@ =~= flag_chars(true));
        assert("False"@ =~= flag_chars(false));
    }
    hp.push(32);
    proof {
        lemma_ascii_encode(seq![' ']);
        assert(ascii_bytes(seq![' ']) =~= seq![32u8]);
        lemma_encode_utf8_concat(flag_chars(v.compiled_flag), seq![' ']);
        assert(hp@ =~= encode_utf8(flag_chars(v.compiled_flag) + seq![' ']));
    }
    let vb: &[u8] = data.version.as_str().as_bytes();
    let mut j: usize = 0;
    while j < vb.len()
        invariant
            j <= vb@.len(),
            vb@ == encode_utf8(v.version),
            hp@ == encode_utf8(flag_chars(v.compiled_flag) + seq![' ']) + vb@.take(j as int),
        decreases vb@.len() - j,
    {
        let b: u8 = vb[j];
        hp.push(b);
        j = j + 1;
        proof {
            assert(vb@.take(j as int) =~= vb@.take(j - 1).push(vb@[j - 1]));
            assert(hp@ =~= encode_utf8(flag_chars(v.compiled_flag) + seq![' ']) + vb@.take(
                j as int,
            ));
        }
    }
    proof {
        assert(vb@.take(vb@.len() as int) =~= vb@);
        lemma_encode_utf8_concat(flag_chars(v.compiled_flag) + seq![' '], v.version);
        assert(header_text(v.compiled_flag, v.version) == (flag_chars(v.compiled_flag)
            + seq![' ']) + v.version);
        assert(hp@ == encode_utf8(header_text(v.compiled_flag, v.version)));
    }
    write_fixed(&mut out, &hp);
    proof {
        lemma_fields_bytes_step(v, 0);
        assert(fields_bytes(v, 0) =~= Seq::<u8>::empty());
        assert(out@ =~= fields_bytes(v, 1));
    }

    write_int_field(&mut out, data.source_combo_index);
    proof {
        lemma_fields_bytes_step(v, 1);
        assert(field_source(v, 1) == spec_int_text(v.source_combo_index));
        assert(out@ =~= fields_bytes(v, 2));
    }

    let mut i: usize = 0;
    while i < 8
        invariant
            i <= 8,
            data@ == v,
            wf_lengths(v),
            out@ == fields_bytes(v, 2 + i),
        decreases 8 - i,
    {
        write_int_field(&mut out, data.pclk_source_indices[i]);
        proof {
            lemma_fields_bytes_step(v, 2 + i as int);
            assert(field_source(v, 2 + i as int) == spec_int_text(v.pclk_source_indices[i as int]));
            assert(v.pclk_source_indices[i as int] == data.pclk_source_indices@[i as int] as int);
        }
        i = i + 1;
    }

    write_slot8_group(&mut out, &data.vtime_reqd);
    proof {
        assert forall|q: int|
            10 <= q < 19 implies #[trigger] field_source(v, q) == group_source(
            data.vtime_reqd.deep_view(),
            q - 10,
        ) by {}
        lemma_group_extends(v, data.vtime_reqd.deep_view(), 10, 9);
        assert(out@ =~= fields_bytes(v, 19));
    }
    write_slot8_group(&mut out, &data.cycle_time);
    proof {
        assert forall|q: int|
            19 <= q < 28 implies #[trigger] field_source(v, q) == group_source(
            data.cycle_time.deep_view(),
            q - 19,
        ) by {}
        lemma_group_extends(v, data.cycle_time.deep_view(), 19, 9);
        assert(out@ =~= fields_bytes(v, 28));
    }
    write_slot8_group(&mut out, &data.pulse_time);
    proof {
        assert forall|q: int|
            28 <= q < 37 implies #[trigger] field_source(v, q) == group_source(
            data.pulse_time.deep_view(),
            q - 28,
        ) by {}
        lemma_group_extends(v, data.pulse_time.deep_view(), 28, 9);
        assert(out@ =~= fields_bytes(v, 37));
    }

    let mut i: usize = 1;
    while i < 65
        invariant
            1 <= i <= 65,
            data@ == v,
            v.clk_sources.len() == 65,
            data.clk_sources@.len() == 65,
            out@ == fields_bytes(v, 36 + i),
        decreases 65 - i,
    {
        write_text_field(&mut out, &data.clk_sources[i]);
        proof {
            lemma_fields_bytes_step(v, 36 + i as int);
            assert(field_source(v, 36 + i as int) == v.clk_sources[i as int]);
            assert(v.clk_sources[i as int] == data.clk_sources@[i as int]@);
        }
        i = i + 1;
    }

    let mut i: usize = 0;
    while i < 8
        invariant
            i <= 8,
            data@ == v,
            wf_lengths(v),
            out@ == fields_bytes(v, 101 + 3 * i),
        decreases 8 - i,
    {
        write_int_field(&mut out, data.start_addrs[i]);
        write_int_field(&mut out, data.end_addrs[i]);
        write_int_field(&mut out, data.loop_counts[i]);
        proof {
            let k0 = 101 + 3 * (i as int);
            vstd::arithmetic::div_mod::lemma_fundamental_div_mod_converse(
                3 * (i as int),
                3,
                i as int,
                0,
            );
            vstd::arithmetic::div_mod::lemma_fundamental_div_mod_converse(
                3 * (i as int) + 1,
                3,
                i as int,
                1,
            );
            vstd::arithmetic::div_mod::lemma_fundamental_div_mod_converse(
                3 * (i as int) + 2,
                3,
                i as int,
                2,
            );
            lemma_fields_bytes_step(v, k0);
            lemma_fields_bytes_step(v, k0 + 1);
            lemma_fields_bytes_step(v, k0 + 2);
            assert(field_source(v, k0) == spec_int_text(v.start_addrs[i as int]));
            assert(field_source(v, k0 + 1) == spec_int_text(v.end_addrs[i as int]));
            assert(field_source(v, k0 + 2) == spec_int_text(v.loop_counts[i as int]));
            assert(v.start_addrs[i as int] == data.start_addrs@[i as int] as int);
            assert(v.end_addrs[i as int] == data.end_addrs@[i as int] as int);
            assert(v.loop_counts[i as int] == data.loop_counts@[i as int] as int);
        }
        i = i + 1;
    }

    write_int_field(&mut out, data.pattern_file_length);
    proof {
        lemma_fields_bytes_step(v, 125);
        assert(field_source(v, 125) == spec_int_text(v.pattern_file_length));
        assert(out@ =~= fields_bytes(v, 126));
    }

    // matrix, column major
    let ghost mb = matrix_bytes(v.pattern_data, spec_cols(v));
    let mut col: usize = 0;
    while col < cols
        invariant
            col <= cols,
            data@ == v,
            encodable(v),
            cols == spec_cols(v),
            mb == matrix_bytes(v.pattern_data, spec_cols(v)),
            out@ == fields_bytes(v, 126) + mb.take(18 * col),
        decreases cols - col,
    {
        let mut bit: usize = 0;
        while bit < 18
            invariant
                bit <= 18,
                col < cols,
                data@ == v,
                encodable(v),
                cols == spec_cols(v),
                mb == matrix_bytes(v.pattern_data, spec_cols(v)),
                out@ == fields_bytes(v, 126) + mb.take(18 * col + bit),
            decreases 18 - bit,
        {
            proof {
                assert(v.pattern_data[bit as int] == data.pattern_data@[bit as int].deep_view());
                assert(data.pattern_data@[bit as int]@.len() == v.pattern_data[bit as int].len());
            }
            let b: u8 = data.pattern_data[bit][col];
            out.push(b);
            proof {
                let jx = 18 * (col as int) + bit;
                vstd::arithmetic::div_mod::lemma_fundamental_div_mod_converse(
                    jx,
                    18,
                    col as int,
                    bit as int,
                );
                assert(mb[jx] == v.pattern_data[bit as int][col as int]);
                assert(v.pattern_data[bit as int][col as int] == data.pattern_data@[bit as int]@[
                    col as int]);
                assert(mb.take(jx + 1) =~= mb.take(jx).push(mb[jx]));
                assert(out@ =~= fields_bytes(v, 126) + mb.take(jx + 1));
            }
            bit = bit + 1;
        }
        col = col + 1;
    }
    proof {
        assert(mb.take(18 * (cols as int)) =~= mb);
        assert(out@ =~= spec_encode(v));
    }
    Ok(out)
}

/// The text of slot `g` of a 9-slot timing group as it stands on disk: the
/// global slot 8 first, then slots 0 to 7.
pub open spec fn group_source(slots: Seq<Seq<char>>, g: int) -> Seq<char> {
    if g == 0 {
        slots[8]
    } else {
        slots[g - 1]
    }
}

/// Writing nine group fields in disk order extends the field bytes from
/// `base` to `base + 9` when the group matches the record's fields there.
proof fn lemma_group_extends(v: PatternView, slots: Seq<Seq<char>>, base: int, g: int)
    requires
        base >= 0,
        0 <= g <= 9,
        forall|q: int|
            base <= q < base + 9 ==> #[trigger] field_source(v, q) == group_source(
                slots,
                q - base,
            ),
    ensures
        fields_bytes(v, base + g) == fields_bytes(v, base) + group_bytes_upto(slots, g),
    decreases g,
{
    if g <= 0 {
        assert(fields_bytes(v, base) + Seq::<u8>::empty() =~= fields_bytes(v, base));
    } else {
        lemma_group_extends(v, slots, base, g - 1);
        lemma_fields_bytes_step(v, base + g - 1);
        assert(field_source(v, base + g - 1) == group_source(slots, g - 1));
        assert(fields_bytes(v, base) + group_bytes_upto(slots, g - 1) + pad_field(
            encode_utf8(group_source(slots, g - 1)),
        ) =~= fields_bytes(v, base) + group_bytes_upto(slots, g));
    }
}

/// Append one 9-slot timing group in disk order: slot 8 first, then 0 to 7.
fn write_slot8_group(out: &mut Vec<u8>, slots: &Vec<String>)
    requires
        slots@.len() == 9,
    ensures
        final (out)@ == old(out)@ + group_bytes(slots.deep_view()),
{
    write_text_field(out, &slots[8]);
    proof {
        let dv = slots.deep_view();
        assert(dv[8] == slots@[8]@);
        assert(group_source(dv, 0) == dv[8]);
        assert(group_bytes_upto(dv, 0) == Seq::<u8>::empty());
        assert(group_bytes_upto(dv, 1) == group_bytes_upto(dv, 0) + pad_field(
            encode_utf8(group_source(dv, 0)),
        ));
        assert(group_bytes_upto(dv, 1) =~= pad_field(encode_utf8(dv[8])));
        assert(out@ =~= old(out)@ + group_bytes_upto(dv, 1));
    }
    let mut i: usize = 0;
    while i < 8
        invariant
            i <= 8,
            slots@.len() == 9,
            out@ == old(out)@ + group_bytes_upto(slots.deep_view(), 1 + i),
        decreases 8 - i,
    {
        write_text_field(out, &slots[i]);
        proof {
            let dv = slots.deep_view();
            assert(dv[i as int] == slots@[i as int]@);
            assert(group_source(dv, 1 + i as int) == dv[i as int]);
            assert(group_bytes_upto(dv, 2 + i) == group_bytes_upto(dv, 1 + i) + pad_field(
                encode_utf8(group_source(dv, 1 + i as int)),
            ));
            assert(out@ =~= old(out)@ + group_bytes_upto(dv, 2 + i));
        }
        i = i + 1;
    }
}

/// The bytes of the first `g` fields of a 9-slot group.
pub open spec fn group_bytes_upto(slots: Seq<Seq<char>>, g: int) -> Seq<u8>
    decreases g,
{
    if g <= 0 {
        Seq::empty()
    } else {
        group_bytes_upto(slots, g - 1) + pad_field(encode_utf8(group_source(slots, g - 1)))
    }
}

pub open spec fn group_bytes(slots: Seq<Seq<char>>) -> Seq<u8> {
    group_bytes_upto(slots, 9)
}

} // verus!
