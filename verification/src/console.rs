//! The lines of the interactive console: two commands, and instruction
//! words written as sixteen binary digits.

use vstd::arithmetic::power2::{lemma2_to64, lemma_pow2_strictly_increases, lemma_pow2_unfold, pow2};
use vstd::prelude::*;
use vstd::string::*;

verus! {

/// What a line asks for.
#[derive(Debug, Clone, Copy, PartialEq, Eq)]
pub enum Command {
    /// Show the content of every register.
    Registers,
    /// Leave the console.
    Quit,
    /// Execute this instruction word.
    Execute(u16),
    /// The line is no command and holds something else than binary digits,
    /// or nothing at all.
    NotBinary,
    /// The line holds binary digits, but not sixteen of them.
    WrongLength,
}

/// Whether every character is `0` or `1`.
pub open spec fn all_binary(text: Seq<char>) -> bool {
    forall|i: int| 0 <= i < text.len() ==> text[i] == '0' || text[i] == '1'
}

/// The number that a sequence of binary digits denotes, most significant
/// digit first.
pub open spec fn binary_value(text: Seq<char>) -> nat
    decreases text.len(),
{
    if text.len() == 0 {
        0
    } else {
        2 * binary_value(text.drop_last()) + if text.last() == '1' {
            1nat
        } else {
            0nat
        }
    }
}

/// The meaning of a line from which surrounding white space has been
/// removed.
pub open spec fn command_of(text: Seq<char>) -> Command {
    if text == "registers"@ {
        Command::Registers
    } else if text == "quit"@ {
        Command::Quit
    } else if text.len() == 0 || !all_binary(text) {
        Command::NotBinary
    } else if text.len() != 16 {
        Command::WrongLength
    } else {
        Command::Execute(binary_value(text) as u16)
    }
}

/// The text that `str::trim` returns for `text`: `text` without its leading
/// and trailing white space, as Unicode defines white space.
pub uninterp spec fn trimmed(text: Seq<char>) -> Seq<char>;

/// `str::trim`: the part of `line` between its leading and its trailing
/// white space. The contract only gives that part a name.
#[verifier::external_body]
fn trim_text(line: &str) -> (out: &str)
    ensures
        out@ == trimmed(line@),
{
    line.trim()
}

fn same_text(a: &str, b: &str) -> (same: bool)
    ensures
        same == (a@ == b@),
{
    let len: usize = a.unicode_len();
    if len != b.unicode_len() {
        return false;
    }
    let mut i: usize = 0;
    while i < len
        invariant
            len == a@.len(),
            len == b@.len(),
            i <= len,
            forall|j: int| 0 <= j < i ==> a@[j] == b@[j],
        decreases len - i,
    {
        if a.get_char(i) != b.get_char(i) {
            return false;
        }
        i = i + 1;
    }
    assert(a@ =~= b@);
    true
}

fn is_all_binary(text: &str) -> (all: bool)
    ensures
        all == all_binary(text@),
{
    let len: usize = text.unicode_len();
    let mut i: usize = 0;
    while i < len
        invariant
            len == text@.len(),
            i <= len,
            forall|j: int| 0 <= j < i ==> text@[j] == '0' || text@[j] == '1',
        decreases len - i,
    {
        let c: char = text.get_char(i);
        if c != '0' && c != '1' {
            return false;
        }
        i = i + 1;
    }
    true
}

fn binary_word(text: &str) -> (value: u16)
    requires
        text@.len() == 16,
        all_binary(text@),
    ensures
        value == binary_value(text@),
{
    let mut acc: u32 = 0;
    let mut i: usize = 0;
    proof {
        lemma2_to64();
    }
    while i < 16
        invariant
            text@.len() == 16,
            all_binary(text@),
            i <= 16,
            acc == binary_value(text@.take(i as int)),
            acc < pow2(i as nat),
            pow2(16) == 65536,
        decreases 16 - i,
    {
        let c: char = text.get_char(i);
        proof {
            let next = text@.take(i + 1);
            assert(next.drop_last() =~= text@.take(i as int));
            assert(next.last() == text@[i as int]);
            lemma_pow2_unfold((i + 1) as nat);
            if i < 15 {
                lemma_pow2_strictly_increases((i + 1) as nat, 16);
            }
        }
        acc = 2 * acc + if c == '1' {
            1
        } else {
            0
        };
        i = i + 1;
    }
    assert(text@.take(16) =~= text@);
    acc as u16
}

/// Classifies a line that holds no surrounding white space.
pub fn parse_command(line: &str) -> (command: Command)
    ensures
        command == command_of(line@),
{
    if same_text(line, "registers") {
        return Command::Registers;
    }
    if same_text(line, "quit") {
        return Command::Quit;
    }
    let len: usize = line.unicode_len();
    if len == 0 || !is_all_binary(line) {
        return Command::NotBinary;
    }
    if len != 16 {
        return Command::WrongLength;
    }
    Command::Execute(binary_word(line))
}

/// Classifies a line as it was typed: white space around it does not count.
pub fn interpret_line(line: &str) -> (command: Command)
    ensures
        command == command_of(trimmed(line@)),
{
    parse_command(trim_text(line))
}

} // verus!
