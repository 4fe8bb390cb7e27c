//! The interactive viewer's decision logic: the hex rows it renders with
//! per-byte difference flags, the menu, the goto-offset grammar, and the
//! state transitions its event loop applies.  The terminal shell around it
//! only draws this data and feeds events back.

use vstd::prelude::*;
use vstd::string::StrSliceExecFns;

use crate::cli::parse_usize;
use crate::cli::spec_parse_usize;
use crate::num::digit_val;
use crate::num::is_digit_char;
use crate::text::is_white;
use crate::text::is_white_char;
use crate::text::trim_end_text;
use crate::utils::byte_at;

verus! {

/// One rendered hex row: its byte offset, the bytes shown (absent bytes
/// render as zero), and per-byte flags marking differences against the
/// other buffer.
pub struct HexLine {
    pub off: usize,
    pub vals: Vec<u8>,
    pub diffs: Vec<bool>,
}

/// The byte the other buffer shows at position `i` of the row at `off`: its
/// rows are read whole, so a row that runs past its end reads as zeros.
pub open spec fn row_b_byte(b: Seq<u8>, off: int, width: int, i: int) -> u8 {
    if off + width <= b.len() {
        b[off + i]
    } else {
        0
    }
}

/// Chop a buffer into rows of `bytes` bytes, recording for each byte its
/// value and whether it differs from the byte the other buffer shows there.
pub fn build_lines(buf_a: &[u8], buf_b: Option<&[u8]>, bytes: usize) -> (r: Vec<HexLine>)
    requires
        bytes >= 1,
        buf_a@.len() + bytes <= usize::MAX,
    ensures
        r@.len() == (buf_a@.len() + bytes - 1) / (bytes as int),
        forall|q: int| 0 <= q < r@.len() ==> (#[trigger] r@[q].off) as int == q * bytes,
        forall|q: int| 0 <= q < r@.len() ==> (#[trigger] r@[q].vals)@.len() == bytes,
        forall|q: int| 0 <= q < r@.len() ==> (#[trigger] r@[q].diffs)@.len() == bytes,
        forall|q: int, i: int|
            0 <= q < r@.len() && 0 <= i < bytes ==> (#[trigger] r@[q].vals@[i]) == byte_at(
                buf_a@,
                q * bytes + i,
            ),
        forall|q: int, i: int|
            0 <= q < r@.len() && 0 <= i < bytes ==> (#[trigger] r@[q].diffs@[i]) == (buf_b
                is Some && byte_at(buf_a@, q * bytes + i) != row_b_byte(
                buf_b->0@,
                q * bytes,
                bytes as int,
                i,
            )),
{
    let la: usize = buf_a.len();
    let mut r: Vec<HexLine> = Vec::new();
    let mut off: usize = 0;
    let mut q: usize = 0;
    while off < la
        invariant
            bytes >= 1,
            la == buf_a@.len(),
            la + bytes <= usize::MAX,
            off == q * bytes,
            q > 0 ==> (q - 1) * bytes < la,
            q <= off,
            r@.len() == q,
            forall|p: int| 0 <= p < q ==> (#[trigger] r@[p].off) as int == p * bytes,
            forall|p: int| 0 <= p < q ==> (#[trigger] r@[p].vals)@.len() == bytes,
            forall|p: int| 0 <= p < q ==> (#[trigger] r@[p].diffs)@.len() == bytes,
            forall|p: int, i: int|
                0 <= p < q && 0 <= i < bytes ==> (#[trigger] r@[p].vals@[i]) == byte_at(
                    buf_a@,
                    p * bytes + i,
                ),
            forall|p: int, i: int|
                0 <= p < q && 0 <= i < bytes ==> (#[trigger] r@[p].diffs@[i]) == (buf_b
                    is Some && byte_at(buf_a@, p * bytes + i) != row_b_byte(
                    buf_b->0@,
                    p * bytes,
                    bytes as int,
                    i,
                )),
        decreases la + bytes - off,
    {
        let mut vals: Vec<u8> = Vec::new();
        let mut diffs: Vec<bool> = Vec::new();
        let mut i: usize = 0;
        while i < bytes
            invariant
                i <= bytes,
                bytes >= 1,
                la == buf_a@.len(),
                la + bytes <= usize::MAX,
                off < la,
                off + bytes <= usize::MAX,
                vals@.len() == i,
                diffs@.len() == i,
                forall|j: int|
                    0 <= j < i ==> (#[trigger] vals@[j]) == byte_at(buf_a@, off + j),
                forall|j: int|
                    0 <= j < i ==> (#[trigger] diffs@[j]) == (buf_b is Some && byte_at(
                        buf_a@,
                        off + j,
                    ) != row_b_byte(buf_b->0@, off as int, bytes as int, j)),
            decreases bytes - i,
        {
            let va: u8 = if off + i < la {
                buf_a[off + i]
            } else {
                0
            };
            let vb: u8 = match buf_b {
                Some(bb) => {
                    if off + bytes <= bb.len() {
                        bb[off + i]
                    } else {
                        0
                    }
                },
                None => 0,
            };
            let is_diff: bool = match buf_b {
                Some(_) => va != vb,
                None => false,
            };
            vals.push(va);
            diffs.push(is_diff);
            i = i + 1;
        }
        let line = HexLine { off, vals, diffs };
        r.push(line);
        proof {
            assert((q + 1) * bytes == q * bytes + bytes) by (nonlinear_arith);
        }
        off = off + bytes;
        q = q + 1;
    }
    proof {
        if q == 0 {
            assert(la == 0);
            assert((la as int + bytes - 1) / (bytes as int) == 0) by {
                vstd::arithmetic::div_mod::lemma_fundamental_div_mod_converse(
                    bytes as int - 1,
                    bytes as int,
                    0,
                    bytes as int - 1,
                );
            }
        } else {
            assert((q - 1) * bytes < la <= q * bytes);
            let x = la as int + bytes - 1;
            let rem = x - (q as int) * (bytes as int);
            assert(0 <= rem < bytes) by (nonlinear_arith)
                requires
                    (q as int - 1) * (bytes as int) < la as int <= (q as int) * (bytes as int),
                    bytes >= 1,
                    x == la as int + bytes - 1,
                    rem == x - (q as int) * (bytes as int),
            ;
            vstd::arithmetic::div_mod::lemma_fundamental_div_mod_converse(
                x,
                bytes as int,
                q as int,
                rem,
            );
        }
    }
    r
}

/// The first row a pane shows: the scroll position, clamped so that
/// `max_rows` rows still fit inside the line list where possible.
pub open spec fn spec_visible_start(scroll: int, line_count: int, max_rows: int) -> int {
    let cap = if line_count >= max_rows {
        line_count - max_rows
    } else {
        0
    };
    if scroll < cap {
        scroll
    } else {
        cap
    }
}

/// One past the last row a pane shows.
pub open spec fn spec_visible_end(start: int, line_count: int, max_rows: int) -> int {
    if start + max_rows < line_count {
        start + max_rows
    } else {
        line_count
    }
}

/// The window of rows a pane shows: up to `max_rows` rows starting at the
/// scroll position, clamped to the line list.
pub fn visible_range(scroll: usize, line_count: usize, max_rows: usize) -> (r: (usize, usize))
    ensures
        r.0 as int == spec_visible_start(scroll as int, line_count as int, max_rows as int),
        r.1 as int == spec_visible_end(r.0 as int, line_count as int, max_rows as int),
        r.0 <= r.1 <= line_count,
{
    let cap: usize = if line_count >= max_rows {
        line_count - max_rows
    } else {
        0
    };
    let start: usize = if scroll < cap {
        scroll
    } else {
        cap
    };
    let end: usize = if line_count - start > max_rows {
        start + max_rows
    } else {
        line_count
    };
    (start, end)
}

/// The views the viewer offers.
#[derive(Copy, Clone, Debug, PartialEq, Eq, Structural)]
pub enum MenuItem {
    HexView,
    DiffView,
}

pub open spec fn spec_title(m: MenuItem) -> Seq<char> {
    match m {
        MenuItem::HexView => "Hex View"@,
        MenuItem::DiffView => "Diff View"@,
    }
}

impl MenuItem {
    /// Every menu entry, in display order.
    pub fn all() -> (v: Vec<MenuItem>)
        ensures
            v@ == seq![MenuItem::HexView, MenuItem::DiffView],
    {
        let mut v: Vec<MenuItem> = Vec::new();
        v.push(MenuItem::HexView);
        v.push(MenuItem::DiffView);
        proof {
            assert(v@ =~= seq![MenuItem::HexView, MenuItem::DiffView]);
        }
        v
    }

    /// The display title of a menu entry.
    pub fn title(&self) -> (r: &'static str)
        ensures
            r@ == spec_title(*self),
    {
        match self {
            MenuItem::HexView => "Hex View",
            MenuItem::DiffView => "Diff View",
        }
    }
}

/// Text with leading white space removed.
pub open spec fn trim_start_text(s: Seq<char>) -> Seq<char>
    decreases s.len(),
{
    if s.len() > 0 && is_white(s[0]) {
        trim_start_text(s.drop_first())
    } else {
        s
    }
}

/// Text with surrounding white space removed, as `str::trim` yields it.
pub open spec fn trim_text(s: Seq<char>) -> Seq<char> {
    trim_start_text(trim_end_text(s))
}

/// An owned copy of the text with surrounding white space removed.
pub fn trimmed(s: &str) -> (r: String)
    ensures
        r@ == trim_text(s@),
{
    let t: String = crate::text::trimmed_end(s);
    let len: usize = t.as_str().unicode_len();
    let mut start: usize = 0;
    proof {
        assert(t@.skip(0) =~= t@);
    }
    loop
        invariant
            start <= len,
            len == t@.len(),
            t@ == trim_end_text(s@),
            trim_start_text(t@) == trim_start_text(t@.skip(start as int)),
        ensures
            start <= len,
            trim_start_text(t@) == t@.skip(start as int),
        decreases len - start,
    {
        if start == len {
            proof {
                assert(t@.skip(start as int) =~= Seq::<char>::empty());
            }
            break ;
        }
        let c: char = t.as_str().get_char(start);
        proof {
            assert(t@.skip(start as int)[0] == t@[start as int]);
        }
        if !is_white_char(c) {
            break ;
        }
        proof {
            assert(t@.skip(start as int).drop_first() =~= t@.skip(start as int + 1));
        }
        start = start + 1;
    }
    let r: &str = t.as_str().substring_char(start, len);
    proof {
        assert(r@ =~= t@.skip(start as int));
    }
    r.to_owned()
}

pub open spec fn is_hex_digit(c: char) -> bool {
    is_digit_char(c) || ('a' <= c && c <= 'f') || ('A' <= c && c <= 'F')
}

pub open spec fn hex_val(c: char) -> int {
    if is_digit_char(c) {
        digit_val(c)
    } else if 'a' <= c && c <= 'f' {
        c as u32 - 87
    } else {
        c as u32 - 55
    }
}

pub open spec fn all_hex(s: Seq<char>) -> bool {
    forall|i: int| 0 <= i < s.len() ==> is_hex_digit(#[trigger] s[i])
}

/// The value of a hex digit string.
pub open spec fn hex_digits_val(s: Seq<char>) -> int
    decreases s.len(),
{
    if s.len() == 0 {
        0
    } else {
        hex_digits_val(s.drop_last()) * 16 + hex_val(s.last())
    }
}

proof fn lemma_hex_digits_val_nonneg(s: Seq<char>)
    requires
        all_hex(s),
    ensures
        hex_digits_val(s) >= 0,
    decreases s.len(),
{
    if s.len() > 0 {
        assert(all_hex(s.drop_last()));
        lemma_hex_digits_val_nonneg(s.drop_last());
    }
}

/// The value of hex text under Rust's radix-16 grammar for an unsigned
/// number: an optional leading plus, then hex digits, within `usize::MAX`.
pub open spec fn spec_parse_hex_usize(s: Seq<char>) -> Option<int> {
    let d = if s.len() > 0 && s[0] == '+' {
        s.subrange(1, s.len() as int)
    } else {
        s
    };
    if s.len() > 0 && s[0] == '-' {
        None
    } else if d.len() > 0 && all_hex(d) && hex_digits_val(d) <= usize::MAX {
        Some(hex_digits_val(d))
    } else {
        None
    }
}

/// Parse hex text, rejecting anything outside the grammar or above
/// `usize::MAX`.
pub fn parse_hex_usize(s: &str) -> (r: Option<usize>)
    ensures
        r is Some <==> spec_parse_hex_usize(s@) is Some,
        r is Some ==> r->0 as int == spec_parse_hex_usize(s@)->0,
{
    let len: usize = s.unicode_len();
    let mut start: usize = 0;
    if len > 0 {
        let c0: char = s.get_char(0);
        if c0 == '+' {
            start = 1;
        } else if c0 == '-' {
            return None;
        }
    }
    let ghost digits = if s@.len() > 0 && s@[0] == '+' {
        s@.subrange(1, s@.len() as int)
    } else {
        s@
    };
    proof {
        assert(digits =~= s@.subrange(start as int, len as int));
    }
    if start >= len {
        return None;
    }
    let mut acc: u128 = 0;
    let mut over: bool = false;
    let mut i: usize = start;
    while i < len
        invariant
            start <= i <= len,
            len == s@.len(),
            start == if s@.len() > 0 && s@[0] == '+' {
                1int
            } else {
                0int
            },
            s@.len() > 0 ==> s@[0] != '-',
            digits =~= s@.subrange(start as int, len as int),
            forall|j: int| start <= j < i ==> is_hex_digit(#[trigger] s@[j]),
            !over ==> acc as int == hex_digits_val(s@.subrange(start as int, i as int)) && acc
                <= usize::MAX,
            over ==> hex_digits_val(s@.subrange(start as int, i as int)) > usize::MAX,
        decreases len - i,
    {
        let c: char = s.get_char(i);
        let d: u128 = if c >= '0' && c <= '9' {
            (c as u32 - 48) as u128
        } else if c >= 'a' && c <= 'f' {
            (c as u32 - 87) as u128
        } else if c >= 'A' && c <= 'F' {
            (c as u32 - 55) as u128
        } else {
            proof {
                assert(digits[i - start] == s@[i as int]);
                assert(!all_hex(digits));
            }
            return None;
        };
        let ghost pre = s@.subrange(start as int, i as int);
        let ghost ext = s@.subrange(start as int, i as int + 1);
        proof {
            assert(ext.drop_last() =~= pre);
            assert(ext.last() == s@[i as int]);
            assert(hex_digits_val(ext) == hex_digits_val(pre) * 16 + hex_val(s@[i as int]));
            assert(hex_val(s@[i as int]) == d);
        }
        if !over {
            let next: u128 = acc * 16 + d;
            if next > usize::MAX as u128 {
                over = true;
            } else {
                acc = next;
            }
        } else {
            proof {
                lemma_hex_digits_val_nonneg(pre);
            }
        }
        i = i + 1;
    }
    proof {
        assert(s@.subrange(start as int, len as int) =~= digits);
        assert(all_hex(digits));
    }
    if over {
        return None;
    }
    Some(acc as usize)
}

/// The goto-offset grammar: surrounding white space ignored, then either
/// `0x`-prefixed hex, `h`- or `H`-suffixed hex, or decimal.
pub open spec fn spec_parse_goto(s: Seq<char>) -> Option<int> {
    let t = trim_text(s);
    if t.len() >= 2 && t[0] == '0' && t[1] == 'x' {
        spec_parse_hex_usize(t.subrange(2, t.len() as int))
    } else if t.len() >= 1 && (t.last() == 'h' || t.last() == 'H') {
        spec_parse_hex_usize(t.take(t.len() - 1))
    } else {
        spec_parse_usize(t)
    }
}

/// The viewer's two input modes.
#[derive(Copy, Clone, Debug, PartialEq, Eq, Structural)]
pub enum ViewerMode {
    View,
    Goto,
}

/// One input event the viewer reacts to.
#[derive(Copy, Clone, Debug, PartialEq, Eq, Structural)]
pub enum UiEvent {
    KeyChar(char),
    KeyUp,
    KeyDown,
    KeyLeft,
    KeyRight,
    KeyEsc,
    KeyEnter,
    KeyBackspace,
    MouseScrollUp,
    MouseScrollDown,
}

/// The viewer's state between events.
pub struct ViewerState {
    pub scroll: usize,
    pub bytes_per_line: usize,
    pub mode: ViewerMode,
    pub goto_input: String,
    pub menu_selected: usize,
}

/// The mathematical shape of the viewer state.
pub ghost struct ViewerStateV {
    pub scroll: int,
    pub bytes_per_line: int,
    pub mode: ViewerMode,
    pub goto_input: Seq<char>,
    pub menu_selected: int,
}

impl View for ViewerState {
    type V = ViewerStateV;

    open spec fn view(&self) -> ViewerStateV {
        ViewerStateV {
            scroll: self.scroll as int,
            bytes_per_line: self.bytes_per_line as int,
            mode: self.mode,
            goto_input: self.goto_input@,
            menu_selected: self.menu_selected as int,
        }
    }
}

/// What one event does to the viewer state, and whether it quits.  In view
/// mode `q` quits, up and down keys and the mouse wheel scroll, `g` opens
/// the goto prompt with a cleared input, and the left and right keys move
/// the menu selection.  In goto mode characters build up the input,
/// backspace removes one, escape cancels, and enter jumps to the parsed
/// offset — divided by the line width — when the input parses; an empty
/// input just closes the prompt.
pub open spec fn spec_step(s: ViewerStateV, e: UiEvent) -> (ViewerStateV, bool) {
    match s.mode {
        ViewerMode::View => match e {
            UiEvent::KeyChar(c) => {
                if c == 'q' {
                    (s, true)
                } else if c == 'k' {
                    (scrolled_up(s), false)
                } else if c == 'j' {
                    (scrolled_down(s), false)
                } else if c == 'g' || c == 'G' {
                    (
                        ViewerStateV {
                            mode: ViewerMode::Goto,
                            goto_input: Seq::empty(),
                            ..s
                        },
                        false,
                    )
                } else {
                    (s, false)
                }
            },
            UiEvent::KeyUp => (scrolled_up(s), false),
            UiEvent::MouseScrollUp => (scrolled_up(s), false),
            UiEvent::KeyDown => (scrolled_down(s), false),
            UiEvent::MouseScrollDown => (scrolled_down(s), false),
            UiEvent::KeyLeft => (
                ViewerStateV {
                    menu_selected: if s.menu_selected > 0 {
                        s.menu_selected - 1
                    } else {
                        0
                    },
                    ..s
                },
                false,
            ),
            UiEvent::KeyRight => (
                ViewerStateV {
                    menu_selected: if s.menu_selected + 1 <= 1 {
                        s.menu_selected + 1
                    } else {
                        1
                    },
                    ..s
                },
                false,
            ),
            _ => (s, false),
        },
        ViewerMode::Goto => match e {
            UiEvent::KeyEsc => (ViewerStateV { mode: ViewerMode::View, ..s }, false),
            UiEvent::KeyEnter => {
                if trim_text(s.goto_input).len() == 0 {
                    (ViewerStateV { mode: ViewerMode::View, ..s }, false)
                } else {
                    match spec_parse_goto(s.goto_input) {
                        Some(off) => (
                            ViewerStateV {
                                mode: ViewerMode::View,
                                scroll: off / s.bytes_per_line,
                                ..s
                            },
                            false,
                        ),
                        None => (s, false),
                    }
                }
            },
            UiEvent::KeyBackspace => (
                ViewerStateV {
                    goto_input: if s.goto_input.len() > 0 {
                        s.goto_input.drop_last()
                    } else {
                        s.goto_input
                    },
                    ..s
                },
                false,
            ),
            UiEvent::KeyChar(c) => (
                ViewerStateV { goto_input: s.goto_input.push(c), ..s },
                false,
            ),
            _ => (s, false),
        },
    }
}

pub open spec fn scrolled_up(s: ViewerStateV) -> ViewerStateV {
    ViewerStateV {
        scroll: if s.scroll > 0 {
            s.scroll - 1
        } else {
            0
        },
        ..s
    }
}

pub open spec fn scrolled_down(s: ViewerStateV) -> ViewerStateV {
    ViewerStateV {
        scroll: if s.scroll < usize::MAX {
            s.scroll + 1
        } else {
            s.scroll
        },
        ..s
    }
}

/// Relies on String::push: it appends exactly the one character.
#[verifier::external_body]
fn push_char(s: &mut String, c: char)
    ensures
        final (s)@ == old(s)@.push(c),
{
    s.push(c);
}

impl ViewerState {
    /// Jump to the offset named in the goto input, scrolled in rows of
    /// `bytes_per_line`; an empty input is accepted and changes nothing.
    /// The result says whether the input was accepted.
    pub fn try_jump(&mut self) -> (r: bool)
        requires
            old(self).bytes_per_line >= 1,
        ensures
            final (self).bytes_per_line == old(self).bytes_per_line,
            final (self).goto_input == old(self).goto_input,
            final (self).mode == old(self).mode,
            final (self).menu_selected == old(self).menu_selected,
            trim_text(old(self).goto_input@).len() == 0 ==> r && final (self).scroll == old(
                self,
            ).scroll,
            trim_text(old(self).goto_input@).len() > 0 ==> match spec_parse_goto(
                old(self).goto_input@,
            ) {
                Some(off) => r && final (self).scroll as int == off / old(
                    self,
                ).bytes_per_line as int,
                None => !r && final (self).scroll == old(self).scroll,
            },
    {
        let t: String = trimmed(self.goto_input.as_str());
        let tlen: usize = t.as_str().unicode_len();
        if tlen == 0 {
            return true;
        }
        let off_opt: Option<usize> = if tlen >= 2 && t.as_str().get_char(0) == '0'
            && t.as_str().get_char(1) == 'x' {
            let hex: &str = t.as_str().substring_char(2, tlen);
            proof {
                assert(hex@ =~= t@.subrange(2, t@.len() as int));
            }
            parse_hex_usize(hex)
        } else {
            let last: char = t.as_str().get_char(tlen - 1);
            if last == 'h' || last == 'H' {
                let hex: &str = t.as_str().substring_char(0, tlen - 1);
                proof {
                    assert(hex@ =~= t@.take(t@.len() - 1));
                }
                parse_hex_usize(hex)
            } else {
                parse_usize(t.as_str())
            }
        };
        match off_opt {
            Some(off) => {
                self.scroll = off / self.bytes_per_line;
                true
            },
            None => false,
        }
    }

    /// Apply one event, as [`spec_step`] describes, and say whether the
    /// viewer should quit.
    pub fn handle_event(&mut self, e: UiEvent) -> (quit: bool)
        requires
            old(self).bytes_per_line >= 1,
        ensures
            final (self)@ == spec_step(old(self)@, e).0,
            quit == spec_step(old(self)@, e).1,
    {
        let in_view: bool = match self.mode {
            ViewerMode::View => true,
            ViewerMode::Goto => false,
        };
        if in_view {
            match e {
                UiEvent::KeyChar(c) => {
                    if c == 'q' {
                        return true;
                    } else if c == 'k' {
                        self.scroll_up();
                    } else if c == 'g' || c == 'G' {
                        self.mode = ViewerMode::Goto;
                        self.goto_input = String::new();
                        proof {
                            assert(self.goto_input@ =~= Seq::<char>::empty());
                        }
                    } else if c == 'j' {
                        self.scroll_down();
                    }
                },
                UiEvent::KeyUp => self.scroll_up(),
                UiEvent::MouseScrollUp => self.scroll_up(),
                UiEvent::KeyDown => self.scroll_down(),
                UiEvent::MouseScrollDown => self.scroll_down(),
                UiEvent::KeyLeft => {
                    if self.menu_selected > 0 {
                        self.menu_selected = self.menu_selected - 1;
                    }
                },
                UiEvent::KeyRight => {
                    if self.menu_selected < 1 {
                        self.menu_selected = self.menu_selected + 1;
                    } else {
                        self.menu_selected = 1;
                    }
                },
                _ => {},
            }
            false
        } else {
            match e {
                UiEvent::KeyEsc => {
                    self.mode = ViewerMode::View;
                },
                UiEvent::KeyEnter => {
                    if self.try_jump() {
                        self.mode = ViewerMode::View;
                    }
                },
                UiEvent::KeyBackspace => {
                    let l: usize = self.goto_input.as_str().unicode_len();
                    if l > 0 {
                        let shorter: &str = self.goto_input.as_str().substring_char(0, l - 1);
                        proof {
                            assert(shorter@ =~= self.goto_input@.drop_last());
                        }
                        self.goto_input = shorter.to_owned();
                    }
                },
                UiEvent::KeyChar(c) => {
                    push_char(&mut self.goto_input, c);
                },
                _ => {},
            }
            false
        }
    }

    fn scroll_up(&mut self)
        ensures
            final (self)@ == scrolled_up(old(self)@),
    {
        if self.scroll > 0 {
            self.scroll = self.scroll - 1;
        }
    }

    fn scroll_down(&mut self)
        ensures
            final (self)@ == scrolled_down(old(self)@),
    {
        if self.scroll < usize::MAX {
            self.scroll = self.scroll + 1;
        }
    }
}

} // verus!
