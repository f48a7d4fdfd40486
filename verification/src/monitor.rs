//! The text that goes over the control channel: the monitor commands that the
//! profiler sends, and the register and memory dumps that it reads.

use crate::digits::{
    all_hex, hex_number, hex_value, is_hex_digit, lemma_digits_fit, lemma_run_end_unique, numeral,
    parse_hex, push_hex, run_end, scan_run,
};
use vstd::prelude::*;
use vstd::string::*;

verus! {

/// A value that a dump is read for.
#[derive(Clone, Copy, Debug, PartialEq, Eq, Structural)]
pub enum Field {
    BasePointer,
    InstructionPointer,
    SavedBasePointer,
    ReturnAddress,
}

/// Why a dump could not be read.
#[derive(Clone, Copy, Debug, PartialEq, Eq, Structural)]
pub enum ParseError {
    /// The marker of the field does not occur in the text.
    Missing(Field),
    /// What stands in the field's place is no hexadecimal number of 64 bits.
    Malformed(Field),
    /// The memory dump ends before its second field does.
    Truncated,
}

/// The registers that one sample starts from.
#[derive(Clone, Copy, Debug, PartialEq, Eq, Structural)]
pub struct RegisterSnapshot {
    pub instruction_pointer: u64,
    pub base_pointer: u64,
}

/// What the guest keeps at a base pointer: the caller's base pointer and the
/// address to return to.
#[derive(Clone, Copy, Debug, PartialEq, Eq, Structural)]
pub struct Frame {
    pub return_address: u64,
    pub saved_base_pointer: u64,
}

/// A monitor command.
#[derive(Clone, Copy, Debug, PartialEq, Eq, Structural)]
pub enum Command {
    /// Pause the guest.
    Stop,
    /// Let the guest run again.
    Cont,
    /// Dump the CPU registers.
    Registers,
    /// Dump the two quadwords at a guest address.
    Examine(u64),
}

/// The bytes `RBP=`.
pub open spec fn base_pointer_marker() -> Seq<u8> {
    seq![0x52u8, 0x42u8, 0x50u8, 0x3du8]
}

/// The bytes `RIP=`.
pub open spec fn instruction_pointer_marker() -> Seq<u8> {
    seq![0x52u8, 0x49u8, 0x50u8, 0x3du8]
}

/// Where the first field of a memory dump starts.
pub const SAVED_BASE_POINTER_AT: usize = 0x14;

/// Where the second field of a memory dump starts.
pub const RETURN_ADDRESS_AT: usize = 0x27;

/// How many digits a field of a memory dump has.
pub const FIELD_WIDTH: usize = 16;

/// Whether `marker` stands in `text` at index `at`.
pub open spec fn matches_at(text: Seq<u8>, marker: Seq<u8>, at: int) -> bool {
    0 <= at && at + marker.len() <= text.len() && text.subrange(at, at + marker.len()) == marker
}

/// The least index from `from` on at which `marker` stands in `text`.
pub open spec fn first_match(text: Seq<u8>, marker: Seq<u8>, from: int) -> Option<int>
    decreases text.len() - from + 1,
{
    if from < 0 || from + marker.len() > text.len() {
        None
    } else if matches_at(text, marker, from) {
        Some(from)
    } else {
        first_match(text, marker, from + 1)
    }
}

/// The number that follows the first occurrence of `marker`: the longest run of
/// hexadecimal digits that starts right behind it.
pub open spec fn marked_number(text: Seq<u8>, marker: Seq<u8>, field: Field) -> Result<
    u64,
    ParseError,
> {
    match first_match(text, marker, 0) {
        None => Err(ParseError::Missing(field)),
        Some(at) => {
            let start = at + marker.len();
            match hex_number(text.subrange(start, run_end(text, start))) {
                None => Err(ParseError::Malformed(field)),
                Some(number) => Ok(number),
            }
        },
    }
}

/// What a register dump says: the base pointer is looked for first.
pub open spec fn registers_of(text: Seq<u8>) -> Result<RegisterSnapshot, ParseError> {
    match marked_number(text, base_pointer_marker(), Field::BasePointer) {
        Err(e) => Err(e),
        Ok(base_pointer) => match marked_number(
            text,
            instruction_pointer_marker(),
            Field::InstructionPointer,
        ) {
            Err(e) => Err(e),
            Ok(instruction_pointer) => Ok(RegisterSnapshot { instruction_pointer, base_pointer }),
        },
    }
}

/// What a memory dump says: the first field is the saved base pointer, the
/// second the return address.
pub open spec fn frame_of(text: Seq<u8>) -> Result<Frame, ParseError> {
    if text.len() < RETURN_ADDRESS_AT + FIELD_WIDTH {
        Err(ParseError::Truncated)
    } else {
        match hex_number(
            text.subrange(
                SAVED_BASE_POINTER_AT as int,
                SAVED_BASE_POINTER_AT as int + FIELD_WIDTH as int,
            ),
        ) {
            None => Err(ParseError::Malformed(Field::SavedBasePointer)),
            Some(saved_base_pointer) => match hex_number(
                text.subrange(
                    RETURN_ADDRESS_AT as int,
                    RETURN_ADDRESS_AT as int + FIELD_WIDTH as int,
                ),
            ) {
                None => Err(ParseError::Malformed(Field::ReturnAddress)),
                Some(return_address) => Ok(Frame { return_address, saved_base_pointer }),
            },
        }
    }
}

/// The text of a command, as the monitor expects it.
pub open spec fn command_text(command: Command) -> Seq<char> {
    match command {
        Command::Stop => "stop"@,
        Command::Cont => "cont"@,
        Command::Registers => "info registers"@,
        Command::Examine(address) => "x /2g 0x"@ + numeral(address as nat, 16),
    }
}

/// Whether the number written with `digits` stands in `text` behind `marker`
/// at index `at`: the marker occurs there and nowhere before, the digits
/// follow it, and what follows them is no digit.
pub open spec fn holds_number(text: Seq<u8>, marker: Seq<u8>, at: int, digits: Seq<u8>) -> bool {
    let start = at + marker.len();
    let end = start + digits.len();
    &&& matches_at(text, marker, at)
    &&& forall|j: int| 0 <= j < at ==> !matches_at(text, marker, j)
    &&& end <= text.len()
    &&& text.subrange(start, end) == digits
    &&& digits.len() > 0
    &&& all_hex(digits)
    &&& hex_value(digits) <= u64::MAX
    &&& end < text.len() ==> !is_hex_digit(text[end])
}

/// The first place from `from` on at which the marker stands is found.
pub proof fn lemma_first_match(text: Seq<u8>, marker: Seq<u8>, from: int, at: int)
    requires
        0 <= from <= at,
        matches_at(text, marker, at),
        forall|j: int| from <= j < at ==> !matches_at(text, marker, j),
    ensures
        first_match(text, marker, from) == Some(at),
    decreases at - from,
{
    if from < at {
        lemma_first_match(text, marker, from + 1, at);
    }
}

/// A number that stands behind its marker is read as it is written, whatever
/// else the text holds.
pub proof fn lemma_marked_number_read(
    text: Seq<u8>,
    marker: Seq<u8>,
    field: Field,
    at: int,
    digits: Seq<u8>,
)
    requires
        holds_number(text, marker, at, digits),
    ensures
        marked_number(text, marker, field) == Ok::<u64, ParseError>(hex_value(digits) as u64),
{
    let start = at + marker.len();
    let end = start + digits.len();
    lemma_first_match(text, marker, 0, at);
    lemma_run_end_unique(text, start, end);
}

/// A register dump that holds `RBP=` and `RIP=`, each with a hexadecimal
/// number of 64 bits behind it, anywhere amid other text, is read as exactly
/// those two numbers.
pub proof fn lemma_registers_read(
    text: Seq<u8>,
    base_at: int,
    base_digits: Seq<u8>,
    instruction_at: int,
    instruction_digits: Seq<u8>,
)
    requires
        holds_number(text, base_pointer_marker(), base_at, base_digits),
        holds_number(text, instruction_pointer_marker(), instruction_at, instruction_digits),
    ensures
        registers_of(text) == Ok::<RegisterSnapshot, ParseError>(
            RegisterSnapshot {
                instruction_pointer: hex_value(instruction_digits) as u64,
                base_pointer: hex_value(base_digits) as u64,
            },
        ),
{
    lemma_marked_number_read(text, base_pointer_marker(), Field::BasePointer, base_at, base_digits);
    lemma_marked_number_read(
        text,
        instruction_pointer_marker(),
        Field::InstructionPointer,
        instruction_at,
        instruction_digits,
    );
}

/// A memory dump that is long enough is read if and only if both of its
/// fields hold hexadecimal digits only: sixteen digits always fit.
pub proof fn lemma_frame_read(text: Seq<u8>)
    requires
        text.len() >= RETURN_ADDRESS_AT + FIELD_WIDTH,
    ensures
        frame_of(text) is Ok <==> all_hex(
            text.subrange(
                SAVED_BASE_POINTER_AT as int,
                SAVED_BASE_POINTER_AT as int + FIELD_WIDTH as int,
            ),
        ) && all_hex(
            text.subrange(RETURN_ADDRESS_AT as int, RETURN_ADDRESS_AT as int + FIELD_WIDTH as int),
        ),
        frame_of(text) matches Ok(frame) ==> frame.saved_base_pointer == hex_value(
            text.subrange(
                SAVED_BASE_POINTER_AT as int,
                SAVED_BASE_POINTER_AT as int + FIELD_WIDTH as int,
            ),
        ) && frame.return_address == hex_value(
            text.subrange(RETURN_ADDRESS_AT as int, RETURN_ADDRESS_AT as int + FIELD_WIDTH as int),
        ),
{
    let first = text.subrange(
        SAVED_BASE_POINTER_AT as int,
        SAVED_BASE_POINTER_AT as int + FIELD_WIDTH as int,
    );
    let second = text.subrange(
        RETURN_ADDRESS_AT as int,
        RETURN_ADDRESS_AT as int + FIELD_WIDTH as int,
    );
    if all_hex(first) {
        lemma_digits_fit(first);
    }
    if all_hex(second) {
        lemma_digits_fit(second);
    }
}

/// Where `marker` first stands in `text`, if it does.
pub fn find_marker(text: &[u8], marker: &[u8]) -> (found: Option<usize>)
    ensures
        found matches Some(at) ==> first_match(text@, marker@, 0) == Some(at as int) && at
            + marker@.len() <= text@.len() <= usize::MAX,
        found is None ==> first_match(text@, marker@, 0) is None,
{
    if marker.len() > text.len() {
        return None;
    }
    let last: usize = text.len() - marker.len();
    let mut at: usize = 0;
    while at <= last
        invariant
            last == text@.len() - marker@.len(),
            text@.len() <= usize::MAX,
            at <= last + 1,
            first_match(text@, marker@, 0) == first_match(text@, marker@, at as int),
        decreases last + 1 - at,
    {
        let mut k: usize = 0;
        while k < marker.len() && text[at + k] == marker[k]
            invariant
                last == text@.len() - marker@.len(),
                text@.len() <= usize::MAX,
                at <= last,
                k <= marker@.len(),
                forall|j: int| 0 <= j < k ==> text@[at + j] == marker@[j],
            decreases marker@.len() - k,
        {
            k += 1;
        }
        if k == marker.len() {
            assert(text@.subrange(at as int, at + marker@.len()) =~= marker@);
            return Some(at);
        }
        assert(!matches_at(text@, marker@, at as int)) by {
            if matches_at(text@, marker@, at as int) {
                assert(text@.subrange(at as int, at + marker@.len())[k as int] == marker@[k as int]);
            }
        }
        at += 1;
    }
    None
}

/// Reads the number that follows the first occurrence of `marker`.
pub fn read_marked(text: &[u8], marker: &[u8], field: Field) -> (number: Result<u64, ParseError>)
    ensures
        number == marked_number(text@, marker@, field),
{
    match find_marker(text, marker) {
        None => Err(ParseError::Missing(field)),
        Some(at) => {
            let start: usize = at + marker.len();
            let end: usize = scan_run(text, start);
            match parse_hex(text, start, end) {
                None => Err(ParseError::Malformed(field)),
                Some(number) => Ok(number),
            }
        },
    }
}

/// Reads the base pointer and the instruction pointer out of a register dump.
///
/// Each stands behind its marker, `RBP=` or `RIP=`, anywhere in the text. The
/// first occurrence of a marker counts, and the digits behind it are read as far
/// as they go.
pub fn parse_registers(text: &[u8]) -> (registers: Result<RegisterSnapshot, ParseError>)
    ensures
        registers == registers_of(text@),
{
    let rbp: [u8; 4] = [0x52u8, 0x42u8, 0x50u8, 0x3du8];
    let rip: [u8; 4] = [0x52u8, 0x49u8, 0x50u8, 0x3du8];
    assert(rbp@ =~= base_pointer_marker());
    assert(rip@ =~= instruction_pointer_marker());
    let base_pointer = match read_marked(text, rbp.as_slice(), Field::BasePointer) {
        Err(e) => {
            return Err(e);
        },
        Ok(number) => number,
    };
    match read_marked(text, rip.as_slice(), Field::InstructionPointer) {
        Err(e) => Err(e),
        Ok(instruction_pointer) => Ok(RegisterSnapshot { instruction_pointer, base_pointer }),
    }
}

/// Reads the frame out of the dump of the two quadwords at a base pointer.
pub fn parse_frame(text: &[u8]) -> (frame: Result<Frame, ParseError>)
    ensures
        frame == frame_of(text@),
{
    if text.len() < RETURN_ADDRESS_AT + FIELD_WIDTH {
        return Err(ParseError::Truncated);
    }
    let saved_base_pointer = match parse_hex(
        text,
        SAVED_BASE_POINTER_AT,
        SAVED_BASE_POINTER_AT + FIELD_WIDTH,
    ) {
        None => {
            return Err(ParseError::Malformed(Field::SavedBasePointer));
        },
        Some(number) => number,
    };
    match parse_hex(text, RETURN_ADDRESS_AT, RETURN_ADDRESS_AT + FIELD_WIDTH) {
        None => Err(ParseError::Malformed(Field::ReturnAddress)),
        Some(return_address) => Ok(Frame { return_address, saved_base_pointer }),
    }
}

impl Command {
    /// The line to send for this command.
    pub fn text(&self) -> (line: String)
        ensures
            line@ == command_text(*self),
    {
        match self {
            Command::Stop => String::from_str("stop"),
            Command::Cont => String::from_str("cont"),
            Command::Registers => String::from_str("info registers"),
            Command::Examine(address) => {
                let mut line = String::from_str("x /2g 0x");
                push_hex(&mut line, *address);
                line
            },
        }
    }
}

} // verus!
