//! The command-line grammar of the pattern-file toolkit: five subcommands,
//! their positional arguments, and their options with defaults.

use vstd::prelude::*;
use vstd::string::StrSliceExecFns;
use vstd::string::StringExecFns;

use crate::num::all_digits;
use crate::num::dec_digits;
use crate::num::digits_val;
use crate::num::int_text_digits;
use crate::num::int_text_negative;
use crate::num::is_digit_char;
use crate::num::is_int_text;
use crate::num::int_text_val;
use crate::num::lemma_digits_val_nonneg;
use crate::num::format_u64;
use crate::text::lossy_string;

verus! {

/// A parsed invocation of the toolkit.
#[derive(Debug, PartialEq, Eq)]
pub enum Command {
    /// Decode a pattern file and report its contents.
    Parse { file: String, json: bool },
    /// Hex-dump a file.
    Dump { file: String, bytes: usize },
    /// Byte-by-byte diff of two files.
    Diff { file_a: String, file_b: String, context: usize },
    /// Block diff of two files.
    DiffBlocks { file_a: String, file_b: String, block: usize, max: usize },
    /// Rebuild a pattern file from a structured description.
    Write { json_in: String, pcf_out: String },
}

/// The mathematical shape of a parsed invocation.
pub ghost enum CommandV {
    Parse { file: Seq<char>, json: bool },
    Dump { file: Seq<char>, bytes: int },
    Diff { file_a: Seq<char>, file_b: Seq<char>, context: int },
    DiffBlocks { file_a: Seq<char>, file_b: Seq<char>, block: int, max: int },
    Write { json_in: Seq<char>, pcf_out: Seq<char> },
}

impl View for Command {
    type V = CommandV;

    open spec fn view(&self) -> CommandV {
        match self {
            Command::Parse { file, json } => CommandV::Parse { file: file@, json: *json },
            Command::Dump { file, bytes } => CommandV::Dump {
                file: file@,
                bytes: *bytes as int,
            },
            Command::Diff { file_a, file_b, context } => CommandV::Diff {
                file_a: file_a@,
                file_b: file_b@,
                context: *context as int,
            },
            Command::DiffBlocks { file_a, file_b, block, max } => CommandV::DiffBlocks {
                file_a: file_a@,
                file_b: file_b@,
                block: *block as int,
                max: *max as int,
            },
            Command::Write { json_in, pcf_out } => CommandV::Write {
                json_in: json_in@,
                pcf_out: pcf_out@,
            },
        }
    }
}

/// The value of unsigned decimal text under Rust's grammar: an optional
/// leading plus and digits, rejecting a minus sign, within `usize::MAX`.
pub open spec fn spec_parse_usize(s: Seq<char>) -> Option<int> {
    if is_int_text(s) && !int_text_negative(s) && int_text_val(s) <= usize::MAX {
        Some(int_text_val(s))
    } else {
        None
    }
}

/// Parse unsigned decimal text, rejecting anything outside the grammar or
/// above `usize::MAX`.
pub fn parse_usize(s: &str) -> (r: Option<usize>)
    ensures
        r is Some <==> spec_parse_usize(s@) is Some,
        r is Some ==> r->0 as int == spec_parse_usize(s@)->0,
{
    let len: usize = s.unicode_len();
    let mut start: usize = 0;
    if len > 0 {
        let c0: char = s.get_char(0);
        if c0 == '+' {
            start = 1;
        } else if c0 == '-' {
            proof {
                assert(int_text_negative(s@));
            }
            return None;
        }
    }
    let ghost digits = int_text_digits(s@);
    proof {
        assert(digits =~= s@.subrange(start as int, len as int));
    }
    if start >= len {
        return None;
    }
    let mut acc: u128 = 0;
    let mut over: bool = false;
    let mut i: usize = start;
    while i < len
        invariant
            start <= i <= len,
            len == s@.len(),
            start == if s@.len() > 0 && s@[0] == '+' {
                1int
            } else {
                0int
            },
            s@.len() > 0 ==> s@[0] != '-',
            digits =~= s@.subrange(start as int, len as int),
            forall|j: int| start <= j < i ==> is_digit_char(#[trigger] s@[j]),
            !over ==> acc as int == digits_val(s@.subrange(start as int, i as int)) && acc
                <= usize::MAX,
            over ==> digits_val(s@.subrange(start as int, i as int)) > usize::MAX,
        decreases len - i,
    {
        let c: char = s.get_char(i);
        if c < '0' || c > '9' {
            proof {
                assert(digits[i - start] == s@[i as int]);
                assert(!all_digits(digits));
            }
            return None;
        }
        let d: u128 = (c as u32 - 48) as u128;
        let ghost pre = s@.subrange(start as int, i as int);
        let ghost ext = s@.subrange(start as int, i as int + 1);
        proof {
            assert(ext.drop_last() =~= pre);
            assert(ext.last() == s@[i as int]);
            assert(digits_val(ext) == digits_val(pre) * 10 + crate::num::digit_val(s@[i as int]));
        }
        if !over {
            let next: u128 = acc * 10 + d;
            if next > usize::MAX as u128 {
                over = true;
            } else {
                acc = next;
            }
        } else {
            proof {
                lemma_digits_val_nonneg(pre);
            }
        }
        i = i + 1;
    }
    proof {
        assert(s@.subrange(start as int, len as int) =~= digits);
        assert(all_digits(digits));
        assert(is_int_text(s@));
        assert(!int_text_negative(s@));
    }
    if over {
        return None;
    }
    Some(acc as usize)
}

/// The two error messages `parse_byte_range` can produce.
pub open spec fn not_a_number_message(s: Seq<char>) -> Seq<char> {
    "`"@ + s + "` isn’t a number"@
}

pub open spec fn out_of_range_message(v: int) -> Seq<char> {
    "must be in range 1..=64 (got "@ + dec_digits(v as nat) + ")"@
}

/// Accepts decimal text for a bytes-per-line count and enforces 1 to 64.
pub fn parse_byte_range(s: &str) -> (r: Result<usize, String>)
    ensures
        r is Ok <==> (spec_parse_usize(s@) is Some && 1 <= spec_parse_usize(s@)->0 <= 64),
        r is Ok ==> r->Ok_0 as int == spec_parse_usize(s@)->0,
        r is Err && spec_parse_usize(s@) is None ==> r->Err_0@ == not_a_number_message(s@),
        r is Err && spec_parse_usize(s@) is Some ==> r->Err_0@ == out_of_range_message(
            spec_parse_usize(s@)->0,
        ),
{
    match parse_usize(s) {
        None => {
            let msg: String = String::from_str("`").concat(s).concat("` isn’t a number");
            Err(msg)
        },
        Some(v) => {
            if 1 <= v && v <= 64 {
                Ok(v)
            } else {
                let digits: Vec<u8> = format_u64(v as u64);
                let num_text: String = lossy_string(digits.as_slice());
                proof {
                    crate::num::lemma_dec_digits_are_digits(v as nat);
                    assert forall|q: int|
                        0 <= q < dec_digits(v as nat).len() implies '\0' <= #[trigger] dec_digits(
                        v as nat,
                    )[q] <= '\u{7f}' by {
                        assert(is_digit_char(dec_digits(v as nat)[q]));
                    }
                    crate::text::lemma_ascii_encode(dec_digits(v as nat));
                    vstd::utf8::encode_utf8_valid_utf8(dec_digits(v as nat));
                    vstd::utf8::encode_utf8_decode_utf8(dec_digits(v as nat));
                    assert(num_text@ == dec_digits(v as nat));
                }
                let msg: String = String::from_str("must be in range 1..=64 (got ").concat(
                    num_text.as_str(),
                ).concat(")");
                Err(msg)
            }
        },
    }
}

/// Whether an argument is an option name: it starts with a double dash.
pub open spec fn is_option_arg(a: Seq<char>) -> bool {
    a.len() >= 2 && a[0] == '-' && a[1] == '-'
}

fn arg_is_option(a: &str) -> (r: bool)
    ensures
        r == is_option_arg(a@),
{
    let len: usize = a.unicode_len();
    len >= 2 && a.get_char(0) == '-' && a.get_char(1) == '-'
}

/// What remains to parse after the subcommand: the grammar of each
/// subcommand's options and positionals, folded over the remaining
/// arguments.  `None` is a usage error: an unknown or valueless option, a
/// value outside its range, a surplus positional, or a missing one.
pub open spec fn spec_parse_tail(cmd: CommandV, seen: int, rest: Seq<Seq<char>>) -> Option<
    CommandV,
>
    decreases rest.len(),
{
    if rest.len() == 0 {
        if seen == expected_positionals(cmd) {
            Some(cmd)
        } else {
            None
        }
    } else {
        let a = rest[0];
        if is_option_arg(a) {
            if takes_value(cmd, a) {
                if rest.len() < 2 {
                    None
                } else {
                    match set_option(cmd, a, rest[1]) {
                        Some(c2) => spec_parse_tail(c2, seen, rest.subrange(
                            2,
                            rest.len() as int,
                        )),
                        None => None,
                    }
                }
            } else {
                match set_flag(cmd, a) {
                    Some(c2) => spec_parse_tail(c2, seen, rest.drop_first()),
                    None => None,
                }
            }
        } else {
            match set_positional(cmd, seen, a) {
                Some(c2) => spec_parse_tail(c2, seen + 1, rest.drop_first()),
                None => None,
            }
        }
    }
}

/// How many positional arguments each subcommand requires.
pub open spec fn expected_positionals(cmd: CommandV) -> int {
    match cmd {
        CommandV::Parse { .. } => 1,
        CommandV::Dump { .. } => 1,
        CommandV::Diff { .. } => 2,
        CommandV::DiffBlocks { .. } => 2,
        CommandV::Write { .. } => 2,
    }
}

/// Whether `name` is an option of this subcommand that takes a value.
pub open spec fn takes_value(cmd: CommandV, name: Seq<char>) -> bool {
    match cmd {
        CommandV::Dump { .. } => name == "--bytes"@,
        CommandV::Diff { .. } => name == "--context"@,
        CommandV::DiffBlocks { .. } => name == "--block"@ || name == "--max"@,
        _ => false,
    }
}

/// Apply a value-less option; `None` when the subcommand does not know it.
pub open spec fn set_flag(cmd: CommandV, name: Seq<char>) -> Option<CommandV> {
    match cmd {
        CommandV::Parse { file, json } => if name == "--json"@ {
            Some(CommandV::Parse { file, json: true })
        } else {
            None
        },
        _ => None,
    }
}

/// Apply an option with its value; `None` when the name is unknown to the
/// subcommand or the value does not parse (for `--bytes`, or lies outside 1
/// to 64).
pub open spec fn set_option(cmd: CommandV, name: Seq<char>, value: Seq<char>) -> Option<
    CommandV,
> {
    match cmd {
        CommandV::Dump { file, bytes } => if name == "--bytes"@ {
            match spec_parse_usize(value) {
                Some(v) => if 1 <= v <= 64 {
                    Some(CommandV::Dump { file, bytes: v })
                } else {
                    None
                },
                None => None,
            }
        } else {
            None
        },
        CommandV::Diff { file_a, file_b, context } => if name == "--context"@ {
            match spec_parse_usize(value) {
                Some(v) => Some(CommandV::Diff { file_a, file_b, context: v }),
                None => None,
            }
        } else {
            None
        },
        CommandV::DiffBlocks { file_a, file_b, block, max } => if name == "--block"@ {
            match spec_parse_usize(value) {
                Some(v) => Some(CommandV::DiffBlocks { file_a, file_b, block: v, max }),
                None => None,
            }
        } else if name == "--max"@ {
            match spec_parse_usize(value) {
                Some(v) => Some(CommandV::DiffBlocks { file_a, file_b, block, max: v }),
                None => None,
            }
        } else {
            None
        },
        _ => None,
    }
}

/// Fill positional `seen` of the subcommand; `None` when all are taken.
pub open spec fn set_positional(cmd: CommandV, seen: int, a: Seq<char>) -> Option<CommandV> {
    match cmd {
        CommandV::Parse { file, json } => if seen == 0 {
            Some(CommandV::Parse { file: a, json })
        } else {
            None
        },
        CommandV::Dump { file, bytes } => if seen == 0 {
            Some(CommandV::Dump { file: a, bytes })
        } else {
            None
        },
        CommandV::Diff { file_a, file_b, context } => if seen == 0 {
            Some(CommandV::Diff { file_a: a, file_b, context })
        } else if seen == 1 {
            Some(CommandV::Diff { file_a, file_b: a, context })
        } else {
            None
        },
        CommandV::DiffBlocks { file_a, file_b, block, max } => if seen == 0 {
            Some(CommandV::DiffBlocks { file_a: a, file_b, block, max })
        } else if seen == 1 {
            Some(CommandV::DiffBlocks { file_a, file_b: a, block, max })
        } else {
            None
        },
        CommandV::Write { json_in, pcf_out } => if seen == 0 {
            Some(CommandV::Write { json_in: a, pcf_out })
        } else if seen == 1 {
            Some(CommandV::Write { json_in, pcf_out: a })
        } else {
            None
        },
    }
}

/// The starting state of each subcommand, defaults filled in: 16 bytes per
/// dump line, 8 context bytes, 18-byte blocks, at most 10 blocks shown.
pub open spec fn initial_command(name: Seq<char>) -> Option<CommandV> {
    if name == "parse"@ {
        Some(CommandV::Parse { file: Seq::empty(), json: false })
    } else if name == "dump"@ {
        Some(CommandV::Dump { file: Seq::empty(), bytes: 16 })
    } else if name == "diff"@ {
        Some(CommandV::Diff { file_a: Seq::empty(), file_b: Seq::empty(), context: 8 })
    } else if name == "diff-blocks"@ {
        Some(
            CommandV::DiffBlocks {
                file_a: Seq::empty(),
                file_b: Seq::empty(),
                block: 18,
                max: 10,
            },
        )
    } else if name == "write"@ {
        Some(CommandV::Write { json_in: Seq::empty(), pcf_out: Seq::empty() })
    } else {
        None
    }
}

/// The whole invocation: the first argument is the program name and is
/// ignored, the second names the subcommand, and the rest follow that
/// subcommand's grammar.
pub open spec fn spec_parse_args(args: Seq<Seq<char>>) -> Option<CommandV> {
    if args.len() < 2 {
        None
    } else {
        match initial_command(args[1]) {
            Some(cmd) => spec_parse_tail(cmd, 0, args.subrange(2, args.len() as int)),
            None => None,
        }
    }
}

/// Character-by-character string equality.
pub fn str_eq(a: &str, b: &str) -> (r: bool)
    ensures
        r == (a@ == b@),
{
    let la: usize = a.unicode_len();
    let lb: usize = b.unicode_len();
    if la != lb {
        return false;
    }
    let mut i: usize = 0;
    while i < la
        invariant
            i <= la,
            la == a@.len(),
            la == b@.len(),
            forall|j: int| 0 <= j < i ==> a@[j] == b@[j],
        decreases la - i,
    {
        if a.get_char(i) != b.get_char(i) {
            return false;
        }
        i = i + 1;
    }
    proof {
        assert(a@ =~= b@);
    }
    true
}

fn expected_positionals_exec(cmd: &Command) -> (r: usize)
    ensures
        r as int == expected_positionals(cmd@),
{
    match cmd {
        Command::Parse { .. } => 1,
        Command::Dump { .. } => 1,
        Command::Diff { .. } => 2,
        Command::DiffBlocks { .. } => 2,
        Command::Write { .. } => 2,
    }
}

fn takes_value_exec(cmd: &Command, name: &str) -> (r: bool)
    ensures
        r == takes_value(cmd@, name@),
{
    match cmd {
        Command::Dump { .. } => str_eq(name, "--bytes"),
        Command::Diff { .. } => str_eq(name, "--context"),
        Command::DiffBlocks { .. } => str_eq(name, "--block") || str_eq(name, "--max"),
        _ => false,
    }
}

fn set_flag_exec(cmd: Command, name: &str) -> (r: Option<Command>)
    ensures
        r is Some <==> set_flag(cmd@, name@) is Some,
        r is Some ==> r->0@ == set_flag(cmd@, name@)->0,
{
    match cmd {
        Command::Parse { file, json } => {
            if str_eq(name, "--json") {
                Some(Command::Parse { file, json: true })
            } else {
                None
            }
        },
        _ => None,
    }
}

fn set_option_exec(cmd: Command, name: &str, value: &str) -> (r: Option<Command>)
    ensures
        r is Some <==> set_option(cmd@, name@, value@) is Some,
        r is Some ==> r->0@ == set_option(cmd@, name@, value@)->0,
{
    match cmd {
        Command::Dump { file, bytes } => {
            if str_eq(name, "--bytes") {
                match parse_usize(value) {
                    Some(v) => {
                        if 1 <= v && v <= 64 {
                            Some(Command::Dump { file, bytes: v })
                        } else {
                            None
                        }
                    },
                    None => None,
                }
            } else {
                None
            }
        },
        Command::Diff { file_a, file_b, context } => {
            if str_eq(name, "--context") {
                match parse_usize(value) {
                    Some(v) => Some(Command::Diff { file_a, file_b, context: v }),
                    None => None,
                }
            } else {
                None
            }
        },
        Command::DiffBlocks { file_a, file_b, block, max } => {
            if str_eq(name, "--block") {
                match parse_usize(value) {
                    Some(v) => Some(Command::DiffBlocks { file_a, file_b, block: v, max }),
                    None => None,
                }
            } else if str_eq(name, "--max") {
                match parse_usize(value) {
                    Some(v) => Some(Command::DiffBlocks { file_a, file_b, block, max: v }),
                    None => None,
                }
            } else {
                None
            }
        },
        _ => None,
    }
}

fn set_positional_exec(cmd: Command, seen: usize, a: &String) -> (r: Option<Command>)
    ensures
        r is Some <==> set_positional(cmd@, seen as int, a@) is Some,
        r is Some ==> r->0@ == set_positional(cmd@, seen as int, a@)->0,
{
    match cmd {
        Command::Parse { file, json } => {
            if seen == 0 {
                Some(Command::Parse { file: a.clone(), json })
            } else {
                None
            }
        },
        Command::Dump { file, bytes } => {
            if seen == 0 {
                Some(Command::Dump { file: a.clone(), bytes })
            } else {
                None
            }
        },
        Command::Diff { file_a, file_b, context } => {
            if seen == 0 {
                Some(Command::Diff { file_a: a.clone(), file_b, context })
            } else if seen == 1 {
                Some(Command::Diff { file_a, file_b: a.clone(), context })
            } else {
                None
            }
        },
        Command::DiffBlocks { file_a, file_b, block, max } => {
            if seen == 0 {
                Some(Command::DiffBlocks { file_a: a.clone(), file_b, block, max })
            } else if seen == 1 {
                Some(Command::DiffBlocks { file_a, file_b: a.clone(), block, max })
            } else {
                None
            }
        },
        Command::Write { json_in, pcf_out } => {
            if seen == 0 {
                Some(Command::Write { json_in: a.clone(), pcf_out })
            } else if seen == 1 {
                Some(Command::Write { json_in, pcf_out: a.clone() })
            } else {
                None
            }
        },
    }
}

/// Parse a full argument list, program name first, into a command.
///
/// The result is `Ok` exactly when the arguments fit the grammar of
/// [`spec_parse_args`]; anything else — a missing or unknown subcommand, an
/// unknown option, a missing or malformed option value, a missing or
/// surplus positional — is an error.
pub fn parse_args(args: &Vec<String>) -> (r: Result<Command, String>)
    ensures
        r is Ok <==> spec_parse_args(args.deep_view()) is Some,
        r is Ok ==> r->Ok_0@ == spec_parse_args(args.deep_view())->0,
{
    let ghost av = args.deep_view();
    proof {
        assert forall|j: int| 0 <= j < args@.len() implies #[trigger] av[j] == args@[j]@ by {}
    }
    if args.len() < 2 {
        return Err(String::from_str("expected a subcommand"));
    }
    let name: &String = &args[1];
    let mut cmd: Command = if str_eq(name.as_str(), "parse") {
        Command::Parse { file: String::new(), json: false }
    } else if str_eq(name.as_str(), "dump") {
        Command::Dump { file: String::new(), bytes: 16 }
    } else if str_eq(name.as_str(), "diff") {
        Command::Diff { file_a: String::new(), file_b: String::new(), context: 8 }
    } else if str_eq(name.as_str(), "diff-blocks") {
        Command::DiffBlocks { file_a: String::new(), file_b: String::new(), block: 18, max: 10 }
    } else if str_eq(name.as_str(), "write") {
        Command::Write { json_in: String::new(), pcf_out: String::new() }
    } else {
        return Err(String::from_str("unknown subcommand"));
    };
    proof {
        assert(initial_command(av[1]) == Some(cmd@));
    }
    let mut seen: usize = 0;
    let mut i: usize = 2;
    while i < args.len()
        invariant
            2 <= i <= args@.len(),
            av == args.deep_view(),
            av.len() == args@.len(),
            forall|j: int| 0 <= j < args@.len() ==> #[trigger] av[j] == args@[j]@,
            seen <= i,
            spec_parse_args(av) == spec_parse_tail(
                cmd@,
                seen as int,
                av.subrange(i as int, av.len() as int),
            ),
        decreases args@.len() - i,
    {
        let ghost rest = av.subrange(i as int, av.len() as int);
        proof {
            assert(rest[0] == av[i as int]);
        }
        let a: &String = &args[i];
        if arg_is_option(a.as_str()) {
            if takes_value_exec(&cmd, a.as_str()) {
                if i + 1 >= args.len() {
                    return Err(String::from_str("option is missing its value"));
                }
                let value: &String = &args[i + 1];
                proof {
                    assert(rest[1] == av[i + 1]);
                }
                match set_option_exec(cmd, a.as_str(), value.as_str()) {
                    Some(c2) => {
                        cmd = c2;
                        proof {
                            assert(rest.subrange(2, rest.len() as int) =~= av.subrange(
                                i + 2,
                                av.len() as int,
                            ));
                        }
                        i = i + 2;
                    },
                    None => {
                        return Err(String::from_str("invalid option value"));
                    },
                }
            } else {
                match set_flag_exec(cmd, a.as_str()) {
                    Some(c2) => {
                        cmd = c2;
                        proof {
                            assert(rest.drop_first() =~= av.subrange(i + 1, av.len() as int));
                        }
                        i = i + 1;
                    },
                    None => {
                        return Err(String::from_str("unknown option"));
                    },
                }
            }
        } else {
            match set_positional_exec(cmd, seen, a) {
                Some(c2) => {
                    cmd = c2;
                    proof {
                        assert(rest.drop_first() =~= av.subrange(i + 1, av.len() as int));
                    }
                    seen = seen + 1;
                    i = i + 1;
                },
                None => {
                    return Err(String::from_str("unexpected argument"));
                },
            }
        }
    }
    proof {
        assert(av.subrange(i as int, av.len() as int) =~= Seq::<Seq<char>>::empty());
    }
    let expected: usize = expected_positionals_exec(&cmd);
    if seen == expected {
        Ok(cmd)
    } else {
        Err(String::from_str("missing a required argument"))
    }
}

} // verus!
