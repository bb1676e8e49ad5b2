//! What command lines mean: numeric options and the switches of the desktop program.

use vstd::prelude::*;

use crate::manifest::{chunk_size_refusal, validate_chunk_size};
use crate::text::{
    all_digits, decimal, decimal_text, digits_value, join_text, read_digits, same_text, to_chars,
};

verus! {

/// The shortest speed test, in seconds.
pub const MIN_DURATION_SECS: u64 = 1;

/// The longest speed test, in seconds.
pub const MAX_DURATION_SECS: u64 = 600;

/// The smallest block of a speed test, in bytes.
pub const MIN_BLOCK_SIZE: u32 = 16384;

/// The largest block of a speed test, in bytes.
pub const MAX_BLOCK_SIZE: u32 = 16777216;

/// The digits of an unsigned number; a plus sign may stand in front.
pub open spec fn unsigned_digits(text: Seq<char>) -> Seq<char> {
    if text.len() > 0 && text[0] == '+' {
        text.skip(1)
    } else {
        text
    }
}

/// Whether a text is an unsigned number that is no larger than the limit.
pub open spec fn is_unsigned(text: Seq<char>, limit: nat) -> bool {
    let digits = unsigned_digits(text);
    digits.len() > 0 && all_digits(digits) && digits_value(digits) <= limit
}

/// The unsigned number that a text stands for.
pub open spec fn unsigned_value(text: Seq<char>) -> nat {
    digits_value(unsigned_digits(text))
}

fn read_unsigned(text: &str, limit: u64) -> (value: Option<u64>)
    ensures
        value is Some <==> is_unsigned(text@, limit as nat),
        value matches Some(number) ==> number == unsigned_value(text@),
{
    let mut chars = to_chars(text);
    if chars.len() > 0 && chars[0] == '+' {
        let _ = chars.remove(0);
        assert(chars@ =~= text@.skip(1));
    }
    read_digits(&chars, limit)
}

/// Whether a text was read as the given number, or refused with exactly the given
/// message.
pub open spec fn read_as(
    result: Result<u64, String>,
    refusal: Option<Seq<char>>,
    value: nat,
) -> bool {
    match refusal {
        None => result matches Ok(number) && number == value,
        Some(message) => result matches Err(text) && text@ == message,
    }
}

/// A message that ends with what was given.
fn with_given(message: &str, given: &str) -> (text: String)
    ensures
        text@ == message@ + given@,
{
    join_text(message, given)
}

/// Why a chunk size is refused.
pub open spec fn chunk_size_text_refusal(raw: Seq<char>) -> Option<Seq<char>> {
    if !is_unsigned(raw, u32::MAX as nat) {
        Some("分片大小必须是 0..=4294967295 的整数，收到 "@ + raw)
    } else {
        chunk_size_refusal(unsigned_value(raw) as u32)
    }
}

/// Reads a chunk size. A refused size is refused before anything of that size exists.
pub fn parse_chunk_size(raw: &str) -> (result: Result<u32, String>)
    ensures
        match chunk_size_text_refusal(raw@) {
            None => result matches Ok(size) && size == unsigned_value(raw@),
            Some(message) => result matches Err(text) && text@ == message,
        },
{
    match read_unsigned(raw, 4294967295) {
        None => Err(with_given("分片大小必须是 0..=4294967295 的整数，收到 ", raw)),
        Some(value) => match validate_chunk_size(value as u32) {
            Ok(_) => Ok(value as u32),
            Err(error) => Err(error.text().to_owned()),
        },
    }
}

/// Why a duration is refused.
pub open spec fn duration_refusal(raw: Seq<char>) -> Option<Seq<char>> {
    if !is_unsigned(raw, u64::MAX as nat) {
        Some("测速 duration 必须是整数，收到 "@ + raw)
    } else if MIN_DURATION_SECS <= unsigned_value(raw) <= MAX_DURATION_SECS {
        None
    } else {
        Some("测速 duration 必须在 1..=600 秒范围内，收到 "@ + decimal(unsigned_value(raw)))
    }
}

/// Reads the duration of a speed test, in seconds.
pub fn parse_speedtest_duration(raw: &str) -> (result: Result<u64, String>)
    ensures
        read_as(result, duration_refusal(raw@), unsigned_value(raw@)),
{
    match read_unsigned(raw, u64::MAX) {
        None => Err(with_given("测速 duration 必须是整数，收到 ", raw)),
        Some(value) => if value >= MIN_DURATION_SECS && value <= MAX_DURATION_SECS {
            Ok(value)
        } else {
            Err(
                with_given(
                    "测速 duration 必须在 1..=600 秒范围内，收到 ",
                    &decimal_text(value),
                ),
            )
        },
    }
}

/// Why a block size is refused.
pub open spec fn block_size_refusal(raw: Seq<char>) -> Option<Seq<char>> {
    if !is_unsigned(raw, u32::MAX as nat) {
        Some("测速 block-size 必须是整数，收到 "@ + raw)
    } else if MIN_BLOCK_SIZE <= unsigned_value(raw) <= MAX_BLOCK_SIZE {
        None
    } else {
        Some(
            "测速 block-size 必须在 16384..=16777216 字节范围内，收到 "@ + decimal(
                unsigned_value(raw),
            ),
        )
    }
}

/// Reads the block size of a speed test, in bytes.
pub fn parse_speedtest_block_size(raw: &str) -> (result: Result<u32, String>)
    ensures
        match block_size_refusal(raw@) {
            None => result matches Ok(size) && size == unsigned_value(raw@),
            Some(message) => result matches Err(text) && text@ == message,
        },
{
    match read_unsigned(raw, 4294967295) {
        None => Err(with_given("测速 block-size 必须是整数，收到 ", raw)),
        Some(value) => if value >= MIN_BLOCK_SIZE as u64 && value <= MAX_BLOCK_SIZE as u64 {
            Ok(value as u32)
        } else {
            Err(
                with_given(
                    "测速 block-size 必须在 16384..=16777216 字节范围内，收到 ",
                    &decimal_text(value),
                ),
            )
        },
    }
}

/// What the desktop program is asked to do.
#[derive(Clone, Copy, Debug, PartialEq, Eq, Structural)]
pub enum Invocation {
    OpenWindow,
    ShowVersion,
    ShowBuildInfo,
    ShowHelp,
    TooManyArguments,
    UnknownArgument,
}

/// What the arguments behind the program's name ask for.
pub open spec fn asked_for(arguments: Seq<Seq<char>>) -> Invocation {
    if arguments.len() == 0 {
        Invocation::OpenWindow
    } else if arguments.len() != 1 {
        Invocation::TooManyArguments
    } else if arguments[0] == "--version"@ || arguments[0] == "-V"@ {
        Invocation::ShowVersion
    } else if arguments[0] == "--build-info"@ {
        Invocation::ShowBuildInfo
    } else if arguments[0] == "--help"@ || arguments[0] == "-h"@ {
        Invocation::ShowHelp
    } else {
        Invocation::UnknownArgument
    }
}

/// Reads the arguments of the desktop program.
pub fn read_invocation(arguments: &Vec<String>) -> (invocation: Invocation)
    ensures
        invocation == asked_for(crate::text::views(arguments@)),
{
    if arguments.len() == 0 {
        return Invocation::OpenWindow;
    }
    if arguments.len() != 1 {
        return Invocation::TooManyArguments;
    }
    let argument = arguments[0].as_str();
    if same_text(argument, "--version") || same_text(argument, "-V") {
        Invocation::ShowVersion
    } else if same_text(argument, "--build-info") {
        Invocation::ShowBuildInfo
    } else if same_text(argument, "--help") || same_text(argument, "-h") {
        Invocation::ShowHelp
    } else {
        Invocation::UnknownArgument
    }
}

/// A number is read as it is written, with or without a sign in front.
pub proof fn numbers_are_read_as_written(value: nat, limit: nat)
    ensures
        is_unsigned(decimal(value), limit) <==> value <= limit,
        unsigned_value(decimal(value)) == value,
        is_unsigned(seq!['+'] + decimal(value), limit) <==> value <= limit,
        unsigned_value(seq!['+'] + decimal(value)) == value,
{
    crate::text::lemma_decimal_reads_back(value);
    let digits = decimal(value);
    assert(crate::text::is_digit(digits[0]));
    assert((seq!['+'] + digits).skip(1) =~= digits);
}

/// A speed test lasts one second to ten minutes and sends blocks of 16 KiB to 16 MiB; a
/// file has chunks of the same sizes. Any other number is refused.
pub proof fn options_have_their_ranges(value: u32)
    ensures
        duration_refusal(decimal(value as nat)) is None <==> 1 <= value <= 600,
        block_size_refusal(decimal(value as nat)) is None <==> 16384 <= value <= 16777216,
        chunk_size_text_refusal(decimal(value as nat)) is None <==> 16384 <= value <= 16777216,
{
    numbers_are_read_as_written(value as nat, u32::MAX as nat);
    numbers_are_read_as_written(value as nat, u64::MAX as nat);
}

/// What is no number is no option.
pub proof fn other_texts_are_no_options(text: Seq<char>, at: int)
    requires
        0 < at < text.len(),
        !crate::text::is_digit(text[at]),
    ensures
        duration_refusal(text) is Some,
        block_size_refusal(text) is Some,
        chunk_size_text_refusal(text) is Some,
{
    if text[0] == '+' {
        assert(text.skip(1)[at - 1] == text[at]);
    }
}

/// The program opens its window without arguments and takes one argument at most.
pub proof fn arguments_are_understood(arguments: Seq<Seq<char>>)
    ensures
        asked_for(arguments) == Invocation::OpenWindow <==> arguments.len() == 0,
        asked_for(arguments) == Invocation::TooManyArguments <==> arguments.len() > 1,
        asked_for(arguments) == Invocation::ShowVersion <==> arguments == seq!["--version"@]
            || arguments == seq!["-V"@],
        asked_for(arguments) == Invocation::ShowBuildInfo <==> arguments == seq!["--build-info"@],
        asked_for(arguments) == Invocation::ShowHelp <==> arguments == seq!["--help"@] || arguments
            == seq!["-h"@],
{
    reveal_strlit("--version");
    reveal_strlit("-V");
    reveal_strlit("--build-info");
    reveal_strlit("--help");
    reveal_strlit("-h");
    if arguments.len() == 1 {
        assert(arguments =~= seq![arguments[0]]);
        assert("--version"@[2] == 'v');
        assert("--build-info"@[2] == 'b');
        assert("--help"@[2] == 'h');
        assert("-V"@[1] == 'V');
        assert("-h"@[1] == 'h');
    }
}

} // verus!
