use vstd::prelude::*;
use vstd::string::StrSliceExecFns;
use vstd::string::StringExecFns;

use crate::text::{
    find_char, find_from, is_digit, lemma_find_char_skip, parse_i32_radix,
    parse_usize, spec_lines, spec_parse_i32_radix, spec_parse_usize, spec_trim, spec_words,
    split_lines, split_words, str_eq, trim,
};
use crate::vm::instruction::{InstrV, Instruction};
use crate::vm::opcodes::{Opcode, OpcodeV};
use crate::vm::operand::Operand;

use super::parsing_err::{ParsingError, ParsingErrorKind, ParsingErrorV};

verus! {

// ---------------------------------------------------------------------------
// The grammar
// ---------------------------------------------------------------------------
/// Whether a word passes the decimal guard: every character is a digit, or
/// is a minus sign in a word that opens with one.
pub open spec fn decimal_shaped(s: Seq<char>) -> bool {
    forall|i: int|
        0 <= i < s.len() ==> (is_digit(#[trigger] s[i]) || (s[i] == '-' && s[0] == '-'))
}

/// What parsing one operand word yields. The word is tried as the
/// accumulator, the program counter, a general register, a port register, a
/// decimal literal, a binary literal, a hex literal, and a quoted character,
/// in that order; `register_only` refuses every literal form.
pub open spec fn spec_parse_operand(s: Seq<char>, register_only: bool) -> Result<
    Operand,
    ParsingErrorKind,
> {
    if s.len() == 0 {
        Err(ParsingErrorKind::EmptyOperand)
    } else if s == "acc"@ {
        Ok(Operand::ACC)
    } else if s == "pc"@ {
        Ok(Operand::PC)
    } else if s[0] == 'r' {
        match spec_parse_usize(s.drop_first()) {
            Some(i) => if i > 3 {
                Err(ParsingErrorKind::InvalidPortNumber)
            } else {
                Ok(Operand::GeneralRegister(i as usize))
            },
            None => Err(ParsingErrorKind::InvalidPortNumber),
        }
    } else if s[0] == 'p' {
        match spec_parse_usize(s.drop_first()) {
            Some(i) => if i > 5 {
                Err(ParsingErrorKind::InvalidPortNumber)
            } else {
                Ok(Operand::PortRegister(i as usize))
            },
            None => Err(ParsingErrorKind::InvalidPortNumber),
        }
    } else if decimal_shaped(s) {
        if register_only {
            Err(ParsingErrorKind::InvalidOperandType)
        } else {
            match spec_parse_i32_radix(s, 10) {
                Some(v) => Ok(Operand::IntegerValue(v)),
                None => Err(ParsingErrorKind::InvalidNumericLiteral),
            }
        }
    } else if s.len() >= 2 && s[0] == '0' && s[1] == 'b' {
        if register_only {
            Err(ParsingErrorKind::InvalidBinaryLiteral)
        } else {
            match spec_parse_i32_radix(s.skip(2), 2) {
                Some(v) => Ok(Operand::IntegerValue(v)),
                None => Err(ParsingErrorKind::InvalidBinaryLiteral),
            }
        }
    } else if s.len() >= 2 && s[0] == '0' && s[1] == 'x' {
        if register_only {
            Err(ParsingErrorKind::InvalidHexLiteral)
        } else {
            match spec_parse_i32_radix(s.skip(2), 16) {
                Some(v) => Ok(Operand::IntegerValue(v)),
                None => Err(ParsingErrorKind::InvalidHexLiteral),
            }
        }
    } else if s.len() == 3 && s[0] == '\'' && s[2] == '\'' {
        if register_only {
            Err(ParsingErrorKind::InvalidCharLiteral)
        } else {
            Ok(Operand::IntegerValue(s[1] as i32))
        }
    } else {
        Err(ParsingErrorKind::InvalidOperandType)
    }
}

/// What a single-operand instruction's words yield: exactly one word after
/// the mnemonic, parsed as any operand.
pub open spec fn spec_unary(words: Seq<Seq<char>>) -> Result<Operand, ParsingErrorKind> {
    if words.len() - 1 > 1 {
        Err(ParsingErrorKind::TooManyOperands)
    } else if words.len() - 1 == 0 {
        Err(ParsingErrorKind::NotEnoughOperands)
    } else {
        spec_parse_operand(words[1], false)
    }
}

/// What a two-operand instruction's words yield: exactly two words after
/// the mnemonic, each parsed under its own literal policy.
pub open spec fn spec_binary(words: Seq<Seq<char>>, ro1: bool, ro2: bool) -> Result<
    (Operand, Operand),
    ParsingErrorKind,
> {
    if words.len() - 1 != 2 {
        Err(ParsingErrorKind::NotEnoughOperands)
    } else {
        match spec_parse_operand(words[1], ro1) {
            Err(k) => Err(k),
            Ok(a) => match spec_parse_operand(words[2], ro2) {
                Err(k) => Err(k),
                Ok(b) => Ok((a, b)),
            },
        }
    }
}

/// What a jump's words yield: exactly one word, taken verbatim as a label
/// name.
pub open spec fn spec_jump(words: Seq<Seq<char>>) -> Result<Seq<char>, ParsingErrorKind> {
    if words.len() - 1 == 0 {
        Err(ParsingErrorKind::NotEnoughOperands)
    } else if words.len() - 1 > 1 {
        Err(ParsingErrorKind::TooManyOperands)
    } else {
        Ok(words[1])
    }
}

/// What one source line at position `n` assembles to: the text before any
/// comment mark is split into words; the first word picks the mnemonic, a
/// trailing colon makes a label, and anything else is no instruction. The
/// stack mnemonics assemble only on an assembler configured for a stack.
pub open spec fn spec_parse_instruction(line: Seq<char>, n: nat, stack: bool) -> Result<
    InstrV,
    (ParsingErrorKind, Seq<char>),
> {
    let words = spec_words(spec_trim(line.take(find_char(line, '#'))));
    if words.len() == 0 {
        Err((ParsingErrorKind::Empty, "FIXME"@))
    } else {
        let w = words[0];
        if w == "MOV"@ || w == "mov"@ {
            match spec_binary(words, false, true) {
                Ok(ops) => Ok(InstrV::Opcode(OpcodeV::MOV(ops.0, ops.1))),
                Err(k) => Err((k, Seq::empty())),
            }
        } else if w == "ADD"@ || w == "add"@ {
            match spec_unary(words) {
                Ok(o) => Ok(InstrV::Opcode(OpcodeV::ADD(o))),
                Err(k) => Err((k, Seq::empty())),
            }
        } else if w == "SUB"@ || w == "sub"@ {
            match spec_unary(words) {
                Ok(o) => Ok(InstrV::Opcode(OpcodeV::SUB(o))),
                Err(k) => Err((k, Seq::empty())),
            }
        } else if w == "MUL"@ || w == "mul"@ {
            match spec_unary(words) {
                Ok(o) => Ok(InstrV::Opcode(OpcodeV::MUL(o))),
                Err(k) => Err((k, Seq::empty())),
            }
        } else if w == "DIV"@ || w == "div"@ {
            match spec_unary(words) {
                Ok(o) => Ok(InstrV::Opcode(OpcodeV::DIV(o))),
                Err(k) => Err((k, Seq::empty())),
            }
        } else if w == "MOD"@ || w == "mod"@ {
            match spec_unary(words) {
                Ok(o) => Ok(InstrV::Opcode(OpcodeV::MOD(o))),
                Err(k) => Err((k, Seq::empty())),
            }
        } else if w == "INC"@ || w == "inc"@ {
            Ok(InstrV::Opcode(OpcodeV::INC))
        } else if w == "DEC"@ || w == "dec"@ {
            Ok(InstrV::Opcode(OpcodeV::DEC))
        } else if w == "AND"@ || w == "and"@ {
            match spec_unary(words) {
                Ok(o) => Ok(InstrV::Opcode(OpcodeV::AND(o))),
                Err(k) => Err((k, Seq::empty())),
            }
        } else if w == "OR"@ || w == "or"@ {
            match spec_unary(words) {
                Ok(o) => Ok(InstrV::Opcode(OpcodeV::OR(o))),
                Err(k) => Err((k, Seq::empty())),
            }
        } else if w == "XOR"@ || w == "xor"@ {
            match spec_unary(words) {
                Ok(o) => Ok(InstrV::Opcode(OpcodeV::XOR(o))),
                Err(k) => Err((k, Seq::empty())),
            }
        } else if w == "NOT"@ || w == "not"@ {
            Ok(InstrV::Opcode(OpcodeV::NOT))
        } else if w == "SHL"@ || w == "shl"@ {
            match spec_unary(words) {
                Ok(o) => Ok(InstrV::Opcode(OpcodeV::SHL(o))),
                Err(k) => Err((k, Seq::empty())),
            }
        } else if w == "SHR"@ || w == "shr"@ {
            match spec_unary(words) {
                Ok(o) => Ok(InstrV::Opcode(OpcodeV::SHR(o))),
                Err(k) => Err((k, Seq::empty())),
            }
        } else if w == "CMP"@ || w == "cmp"@ {
            match spec_binary(words, false, false) {
                Ok(ops) => Ok(InstrV::Opcode(OpcodeV::CMP(ops.0, ops.1))),
                Err(k) => Err((k, Seq::empty())),
            }
        } else if w == "JE"@ || w == "je"@ {
            match spec_jump(words) {
                Ok(l) => Ok(InstrV::Opcode(OpcodeV::JE(l))),
                Err(k) => Err((k, Seq::empty())),
            }
        } else if w == "JNE"@ || w == "jne"@ {
            match spec_jump(words) {
                Ok(l) => Ok(InstrV::Opcode(OpcodeV::JNE(l))),
                Err(k) => Err((k, Seq::empty())),
            }
        } else if w == "JL"@ || w == "jl"@ {
            match spec_jump(words) {
                Ok(l) => Ok(InstrV::Opcode(OpcodeV::JL(l))),
                Err(k) => Err((k, Seq::empty())),
            }
        } else if w == "JG"@ || w == "jg"@ {
            match spec_jump(words) {
                Ok(l) => Ok(InstrV::Opcode(OpcodeV::JG(l))),
                Err(k) => Err((k, Seq::empty())),
            }
        } else if w == "JMP"@ || w == "jmp"@ {
            match spec_jump(words) {
                Ok(l) => Ok(InstrV::Opcode(OpcodeV::JMP(l))),
                Err(k) => Err((k, Seq::empty())),
            }
        } else if w == "HLT"@ || w == "hlt"@ {
            Ok(InstrV::Opcode(OpcodeV::HLT))
        } else if w == "NOP"@ || w == "nop"@ {
            Ok(InstrV::Opcode(OpcodeV::NOP))
        } else if w == "PHS"@ || w == "psh"@ {
            if stack {
                match spec_unary(words) {
                    Ok(o) => Ok(InstrV::Opcode(OpcodeV::PSH(o))),
                    Err(k) => Err((k, Seq::empty())),
                }
            } else {
                Err((ParsingErrorKind::StackNotPresent, "stack not present"@))
            }
        } else if w == "POP"@ || w == "pop"@ {
            if stack {
                match spec_unary(words) {
                    Ok(o) => Ok(InstrV::Opcode(OpcodeV::POP(o))),
                    Err(k) => Err((k, Seq::empty())),
                }
            } else {
                Err((ParsingErrorKind::StackNotPresent, "stack not present"@))
            }
        } else if w.last() == ':' {
            Ok(InstrV::Label(w.drop_last(), n))
        } else {
            Err((ParsingErrorKind::NoSuchInstruction, Seq::empty()))
        }
    }
}

/// Whether a line is skipped by the assembler: blank, or opening with a
/// comment mark once trimmed.
pub open spec fn skipped_line(line: Seq<char>) -> bool {
    spec_trim(line).len() == 0 || spec_trim(line)[0] == '#'
}

/// What the lines from position `k` on assemble to: skipped lines vanish,
/// every other line yields one instruction, and the first failing line
/// yields the whole text's error, stamped with its position.
pub open spec fn spec_parse_lines(lines: Seq<Seq<char>>, k: int, stack: bool) -> Result<
    Seq<InstrV>,
    ParsingErrorV,
>
    decreases lines.len() - k,
{
    if k < 0 || k >= lines.len() {
        Ok(Seq::empty())
    } else if skipped_line(lines[k]) {
        spec_parse_lines(lines, k + 1, stack)
    } else {
        match spec_parse_instruction(lines[k], k as nat, stack) {
            Ok(iv) => match spec_parse_lines(lines, k + 1, stack) {
                Ok(rest) => Ok(seq![iv] + rest),
                Err(e) => Err(e),
            },
            Err(ke) => Err(ParsingErrorV { kind: ke.0, line: k as nat, message: ke.1 }),
        }
    }
}

/// What a whole program text assembles to: its trimmed text, split into
/// lines, assembled line by line; empty text is refused outright.
pub open spec fn spec_parse_program(text: Seq<char>, stack: bool) -> Result<
    Seq<InstrV>,
    ParsingErrorV,
> {
    let t = spec_trim(text);
    if t.len() == 0 {
        Err(ParsingErrorV { kind: ParsingErrorKind::Empty, line: 0, message: Seq::empty() })
    } else {
        spec_parse_lines(spec_lines(t), 0, stack)
    }
}

// ---------------------------------------------------------------------------
// The assembler
// ---------------------------------------------------------------------------
/// Translates program text into the machine's instruction sequence.
#[derive(Debug)]
pub struct Assembler {
    stack_present: bool,
}

impl Assembler {
    /// Whether this assembler admits the stack mnemonics.
    pub closed spec fn stack_configured(&self) -> bool {
        self.stack_present
    }

    pub fn new() -> (r: Assembler)
        ensures
            !r.stack_configured(),
    {
        Assembler { stack_present: false }
    }

    /// Admits the stack mnemonics.
    pub fn with_stack(self) -> (r: Assembler)
        ensures
            r.stack_configured(),
    {
        let mut r = self;
        r.stack_present = true;
        r
    }

    /// Parses one operand word.
    pub fn parse_operand(&mut self, operand_text: &str, line: usize, register_only: bool) -> (r:
        Result<Operand, ParsingError>)
        ensures
            final(self).stack_configured() == old(self).stack_configured(),
            match r {
                Ok(op) => spec_parse_operand(operand_text@, register_only) == Ok::<
                    Operand,
                    ParsingErrorKind,
                >(op),
                Err(e) => spec_parse_operand(operand_text@, register_only) == Err::<
                    Operand,
                    ParsingErrorKind,
                >(e@.kind) && e@.line == line as nat && e@.message == Seq::<char>::empty(),
            },
    {
        let n = operand_text.unicode_len();
        if n == 0 {
            return Err(ParsingError::new(ParsingErrorKind::EmptyOperand, line, String::new()));
        }
        if str_eq(operand_text, "acc") {
            return Ok(Operand::ACC);
        }
        if str_eq(operand_text, "pc") {
            return Ok(Operand::PC);
        }
        let first = operand_text.get_char(0);
        if first == 'r' {
            let rest = operand_text.substring_char(1, n);
            proof {
                assert(rest@ =~= operand_text@.drop_first());
            }
            match parse_usize(rest) {
                Some(index) => {
                    if index > 3 {
                        return Err(
                            ParsingError::new(
                                ParsingErrorKind::InvalidPortNumber,
                                line,
                                String::new(),
                            ),
                        );
                    }
                    return Ok(Operand::GeneralRegister(index));
                },
                None => {
                    return Err(
                        ParsingError::new(ParsingErrorKind::InvalidPortNumber, line, String::new()),
                    );
                },
            }
        }
        if first == 'p' {
            let rest = operand_text.substring_char(1, n);
            proof {
                assert(rest@ =~= operand_text@.drop_first());
            }
            match parse_usize(rest) {
                Some(index) => {
                    if index > 5 {
                        return Err(
                            ParsingError::new(
                                ParsingErrorKind::InvalidPortNumber,
                                line,
                                String::new(),
                            ),
                        );
                    }
                    return Ok(Operand::PortRegister(index));
                },
                None => {
                    return Err(
                        ParsingError::new(ParsingErrorKind::InvalidPortNumber, line, String::new()),
                    );
                },
            }
        }
        let mut shaped = true;
        let mut i: usize = 0;
        while i < n
            invariant
                0 <= i <= n,
                n == operand_text@.len(),
                n > 0,
                first == operand_text@[0],
                forall|j: int|
                    0 <= j < i ==> (is_digit(#[trigger] operand_text@[j]) || (operand_text@[j]
                        == '-' && operand_text@[0] == '-')),
            ensures
                0 <= i <= n,
                i == n ==> decimal_shaped(operand_text@),
                i < n ==> !decimal_shaped(operand_text@),
            decreases n - i,
        {
            let c = operand_text.get_char(i);
            let digit = '0' <= c && c <= '9';
            let minus_run = c == '-' && first == '-';
            proof {
                assert(digit == is_digit(c)) by {
                    assert(is_digit(c) == (crate::text::digit_val(c) < 10));
                }
            }
            if !(digit || minus_run) {
                proof {
                    assert(!(is_digit(operand_text@[i as int]) || (operand_text@[i as int] == '-'
                        && operand_text@[0] == '-')));
                }
                break ;
            }
            i = i + 1;
        }
        if i == n {
            // every character fit the decimal shape
            if register_only {
                return Err(
                    ParsingError::new(ParsingErrorKind::InvalidOperandType, line, String::new()),
                );
            }
            match parse_i32_radix(operand_text, 10) {
                Some(v) => {
                    return Ok(Operand::IntegerValue(v));
                },
                None => {
                    return Err(
                        ParsingError::new(
                            ParsingErrorKind::InvalidNumericLiteral,
                            line,
                            String::new(),
                        ),
                    );
                },
            }
        }
        if n >= 2 && first == '0' && operand_text.get_char(1) == 'b' {
            if register_only {
                return Err(
                    ParsingError::new(ParsingErrorKind::InvalidBinaryLiteral, line, String::new()),
                );
            }
            let rest = operand_text.substring_char(2, n);
            proof {
                assert(rest@ =~= operand_text@.skip(2));
            }
            match parse_i32_radix(rest, 2) {
                Some(v) => {
                    return Ok(Operand::IntegerValue(v));
                },
                None => {
                    return Err(
                        ParsingError::new(
                            ParsingErrorKind::InvalidBinaryLiteral,
                            line,
                            String::new(),
                        ),
                    );
                },
            }
        }
        if n >= 2 && first == '0' && operand_text.get_char(1) == 'x' {
            if register_only {
                return Err(
                    ParsingError::new(ParsingErrorKind::InvalidHexLiteral, line, String::new()),
                );
            }
            let rest = operand_text.substring_char(2, n);
            proof {
                assert(rest@ =~= operand_text@.skip(2));
            }
            match parse_i32_radix(rest, 16) {
                Some(v) => {
                    return Ok(Operand::IntegerValue(v));
                },
                None => {
                    return Err(
                        ParsingError::new(ParsingErrorKind::InvalidHexLiteral, line, String::new()),
                    );
                },
            }
        }
        if n == 3 && first == '\'' && operand_text.get_char(2) == '\'' {
            if register_only {
                return Err(
                    ParsingError::new(ParsingErrorKind::InvalidCharLiteral, line, String::new()),
                );
            }
            let value = operand_text.get_char(1);
            return Ok(Operand::IntegerValue(value as i32));
        }
        Err(ParsingError::new(ParsingErrorKind::InvalidOperandType, line, String::new()))
    }

    /// Parses the single operand of a one-operand mnemonic.
    fn parse_unary_instruction(&mut self, words: &Vec<&str>, line: usize) -> (r: Result<
        Operand,
        ParsingError,
    >)
        requires
            words@.len() >= 1,
        ensures
            final(self).stack_configured() == old(self).stack_configured(),
            match r {
                Ok(o) => spec_unary(words@.map_values(|w: &str| w@)) == Ok::<
                    Operand,
                    ParsingErrorKind,
                >(o),
                Err(e) => spec_unary(words@.map_values(|w: &str| w@)) == Err::<
                    Operand,
                    ParsingErrorKind,
                >(e@.kind) && e@.line == line as nat && e@.message == Seq::<char>::empty(),
            },
    {
        if words.len() - 1 > 1 {
            return Err(
                ParsingError::new(ParsingErrorKind::TooManyOperands, line, String::new()),
            );
        }
        if words.len() - 1 == 0 {
            return Err(
                ParsingError::new(ParsingErrorKind::NotEnoughOperands, line, String::new()),
            );
        }
        self.parse_operand(words[1], line, false)
    }

    /// Parses the two operands of a two-operand mnemonic.
    fn parse_binary_instruction(
        &mut self,
        words: &Vec<&str>,
        line: usize,
        register_only1: bool,
        register_only2: bool,
    ) -> (r: Result<(Operand, Operand), ParsingError>)
        requires
            words@.len() >= 1,
        ensures
            final(self).stack_configured() == old(self).stack_configured(),
            match r {
                Ok(ops) => spec_binary(
                    words@.map_values(|w: &str| w@),
                    register_only1,
                    register_only2,
                ) == Ok::<(Operand, Operand), ParsingErrorKind>(ops),
                Err(e) => spec_binary(
                    words@.map_values(|w: &str| w@),
                    register_only1,
                    register_only2,
                ) == Err::<(Operand, Operand), ParsingErrorKind>(e@.kind) && e@.line == line as nat
                    && e@.message == Seq::<char>::empty(),
            },
    {
        if words.len() - 1 != 2 {
            return Err(
                ParsingError::new(ParsingErrorKind::NotEnoughOperands, line, String::new()),
            );
        }
        let operand1 = match self.parse_operand(words[1], line, register_only1) {
            Ok(o) => o,
            Err(e) => {
                return Err(e);
            },
        };
        let operand2 = match self.parse_operand(words[2], line, register_only2) {
            Ok(o) => o,
            Err(e) => {
                return Err(e);
            },
        };
        Ok((operand1, operand2))
    }

    /// Parses the label name of a jump mnemonic.
    fn parse_jump<'a>(&mut self, words: &Vec<&'a str>, line: usize) -> (r: Result<
        &'a str,
        ParsingError,
    >)
        requires
            words@.len() >= 1,
        ensures
            final(self).stack_configured() == old(self).stack_configured(),
            match r {
                Ok(l) => spec_jump(words@.map_values(|w: &str| w@)) == Ok::<
                    Seq<char>,
                    ParsingErrorKind,
                >(l@),
                Err(e) => spec_jump(words@.map_values(|w: &str| w@)) == Err::<
                    Seq<char>,
                    ParsingErrorKind,
                >(e@.kind) && e@.line == line as nat && e@.message == Seq::<char>::empty(),
            },
    {
        if words.len() - 1 == 0 {
            return Err(
                ParsingError::new(ParsingErrorKind::NotEnoughOperands, line, String::new()),
            );
        }
        if words.len() - 1 > 1 {
            return Err(
                ParsingError::new(ParsingErrorKind::TooManyOperands, line, String::new()),
            );
        }
        Ok(words[1])
    }

    /// Assembles one source line.
    #[verifier::rlimit(100)]
    fn parse_instruction(&mut self, line: &str, current_line_number: usize) -> (r: Result<
        Instruction,
        ParsingError,
    >)
        ensures
            final(self).stack_configured() == old(self).stack_configured(),
            match r {
                Ok(instr) => spec_parse_instruction(
                    line@,
                    current_line_number as nat,
                    old(self).stack_configured(),
                ) == Ok::<InstrV, (ParsingErrorKind, Seq<char>)>(instr@),
                Err(e) => spec_parse_instruction(
                    line@,
                    current_line_number as nat,
                    old(self).stack_configured(),
                ) == Err::<InstrV, (ParsingErrorKind, Seq<char>)>((e@.kind, e@.message)) && e@.line
                    == current_line_number as nat,
            },
    {
        let n = current_line_number;
        let hash = find_from(line, 0, '#');
        proof {
            lemma_find_char_skip(line@, '#', 0, hash as int);
            assert(line@.skip(0) =~= line@);
        }
        let without_comments = line.substring_char(0, hash);
        proof {
            assert(without_comments@ =~= line@.take(find_char(line@, '#')));
        }
        let cleaned = trim(without_comments);
        let words = split_words(cleaned);
        let ghost wv = words@.map_values(|w: &str| w@);
        proof {
            crate::text::lemma_words_nonempty(cleaned@);
        }
        if words.len() == 0 {
            return Err(
                ParsingError::new(ParsingErrorKind::Empty, n, String::from_str("FIXME")),
            );
        }
        let word = words[0];
        proof {
            assert(wv[0] == word@);
        }
        if kw(word, "MOV", "mov") {
            match self.parse_binary_instruction(&words, n, false, true) {
                Ok(ops) => Ok(Instruction::Opcode(Opcode::MOV(ops.0, ops.1))),
                Err(e) => Err(e),
            }
        } else if kw(word, "ADD", "add") {
            match self.parse_unary_instruction(&words, n) {
                Ok(o) => Ok(Instruction::Opcode(Opcode::ADD(o))),
                Err(e) => Err(e),
            }
        } else if kw(word, "SUB", "sub") {
            match self.parse_unary_instruction(&words, n) {
                Ok(o) => Ok(Instruction::Opcode(Opcode::SUB(o))),
                Err(e) => Err(e),
            }
        } else if kw(word, "MUL", "mul") {
            match self.parse_unary_instruction(&words, n) {
                Ok(o) => Ok(Instruction::Opcode(Opcode::MUL(o))),
                Err(e) => Err(e),
            }
        } else if kw(word, "DIV", "div") {
            match self.parse_unary_instruction(&words, n) {
                Ok(o) => Ok(Instruction::Opcode(Opcode::DIV(o))),
                Err(e) => Err(e),
            }
        } else if kw(word, "MOD", "mod") {
            match self.parse_unary_instruction(&words, n) {
                Ok(o) => Ok(Instruction::Opcode(Opcode::MOD(o))),
                Err(e) => Err(e),
            }
        } else if kw(word, "INC", "inc") {
            Ok(Instruction::Opcode(Opcode::INC))
        } else if kw(word, "DEC", "dec") {
            Ok(Instruction::Opcode(Opcode::DEC))
        } else if kw(word, "AND", "and") {
            match self.parse_unary_instruction(&words, n) {
                Ok(o) => Ok(Instruction::Opcode(Opcode::AND(o))),
                Err(e) => Err(e),
            }
        } else if kw(word, "OR", "or") {
            match self.parse_unary_instruction(&words, n) {
                Ok(o) => Ok(Instruction::Opcode(Opcode::OR(o))),
                Err(e) => Err(e),
            }
        } else if kw(word, "XOR", "xor") {
            match self.parse_unary_instruction(&words, n) {
                Ok(o) => Ok(Instruction::Opcode(Opcode::XOR(o))),
                Err(e) => Err(e),
            }
        } else if kw(word, "NOT", "not") {
            Ok(Instruction::Opcode(Opcode::NOT))
        } else if kw(word, "SHL", "shl") {
            match self.parse_unary_instruction(&words, n) {
                Ok(o) => Ok(Instruction::Opcode(Opcode::SHL(o))),
                Err(e) => Err(e),
            }
        } else if kw(word, "SHR", "shr") {
            match self.parse_unary_instruction(&words, n) {
                Ok(o) => Ok(Instruction::Opcode(Opcode::SHR(o))),
                Err(e) => Err(e),
            }
        } else if kw(word, "CMP", "cmp") {
            match self.parse_binary_instruction(&words, n, false, false) {
                Ok(ops) => Ok(Instruction::Opcode(Opcode::CMP(ops.0, ops.1))),
                Err(e) => Err(e),
            }
        } else if kw(word, "JE", "je") {
            match self.parse_jump(&words, n) {
                Ok(l) => Ok(Instruction::Opcode(Opcode::JE(l.to_owned()))),
                Err(e) => Err(e),
            }
        } else if kw(word, "JNE", "jne") {
            match self.parse_jump(&words, n) {
                Ok(l) => Ok(Instruction::Opcode(Opcode::JNE(l.to_owned()))),
                Err(e) => Err(e),
            }
        } else if kw(word, "JL", "jl") {
            match self.parse_jump(&words, n) {
                Ok(l) => Ok(Instruction::Opcode(Opcode::JL(l.to_owned()))),
                Err(e) => Err(e),
            }
        } else if kw(word, "JG", "jg") {
            match self.parse_jump(&words, n) {
                Ok(l) => Ok(Instruction::Opcode(Opcode::JG(l.to_owned()))),
                Err(e) => Err(e),
            }
        } else if kw(word, "JMP", "jmp") {
            match self.parse_jump(&words, n) {
                Ok(l) => Ok(Instruction::Opcode(Opcode::JMP(l.to_owned()))),
                Err(e) => Err(e),
            }
        } else if kw(word, "HLT", "hlt") {
            Ok(Instruction::Opcode(Opcode::HLT))
        } else if kw(word, "NOP", "nop") {
            Ok(Instruction::Opcode(Opcode::NOP))
        } else if kw(word, "PHS", "psh") {
            if self.stack_present {
                match self.parse_unary_instruction(&words, n) {
                    Ok(o) => Ok(Instruction::Opcode(Opcode::PSH(o))),
                    Err(e) => Err(e),
                }
            } else {
                Err(
                    ParsingError::new(
                        ParsingErrorKind::StackNotPresent,
                        n,
                        String::from_str("stack not present"),
                    ),
                )
            }
        } else if kw(word, "POP", "pop") {
            if self.stack_present {
                match self.parse_unary_instruction(&words, n) {
                    Ok(o) => Ok(Instruction::Opcode(Opcode::POP(o))),
                    Err(e) => Err(e),
                }
            } else {
                Err(
                    ParsingError::new(
                        ParsingErrorKind::StackNotPresent,
                        n,
                        String::from_str("stack not present"),
                    ),
                )
            }
        } else {
            let wl = word.unicode_len();
            proof {
                assert(wv[0].len() > 0);
            }
            if word.get_char(wl - 1) == ':' {
                let name = word.substring_char(0, wl - 1);
                proof {
                    assert(name@ =~= word@.drop_last());
                }
                Ok(Instruction::Label(name.to_owned(), n))
            } else {
                Err(ParsingError::new(ParsingErrorKind::NoSuchInstruction, n, String::new()))
            }
        }
    }

    /// Assembles a whole program text into the machine's instruction
    /// sequence, or reports the first failing line.
    pub fn parse(&mut self, program_text: &str) -> (r: Result<Vec<Instruction>, ParsingError>)
        ensures
            final(self).stack_configured() == old(self).stack_configured(),
            match r {
                Ok(prog) => spec_parse_program(program_text@, old(self).stack_configured()) == Ok::<
                    Seq<InstrV>,
                    ParsingErrorV,
                >(prog@.map_values(|i: Instruction| i@)),
                Err(e) => spec_parse_program(program_text@, old(self).stack_configured()) == Err::<
                    Seq<InstrV>,
                    ParsingErrorV,
                >(e@),
            },
    {
        let trimmed = trim(program_text);
        if trimmed.unicode_len() == 0 {
            let e = ParsingError::new(ParsingErrorKind::Empty, 0, String::new());
            proof {
                assert(e@ =~= (ParsingErrorV {
                    kind: ParsingErrorKind::Empty,
                    line: 0,
                    message: Seq::empty(),
                }));
            }
            return Err(e);
        }
        let lines = split_lines(trimmed);
        let ghost linesv = lines@.map_values(|w: &str| w@);
        let ghost stack = old(self).stack_configured();
        let mut out: Vec<Instruction> = Vec::new();
        let m = lines.len();
        proof {
            assert(out@.map_values(|i: Instruction| i@) + spec_parse_lines(linesv, 0, stack)->Ok_0
                =~= spec_parse_lines(linesv, 0, stack)->Ok_0);
        }
        for k in 0..m
            invariant
                m == lines@.len(),
                linesv == lines@.map_values(|w: &str| w@),
                self.stack_configured() == stack,
                stack == old(self).stack_configured(),
                linesv == spec_lines(spec_trim(program_text@)),
                spec_trim(program_text@).len() != 0,
                match spec_parse_lines(linesv, k as int, stack) {
                    Ok(rest) => spec_parse_lines(linesv, 0, stack) == Ok::<
                        Seq<InstrV>,
                        ParsingErrorV,
                    >(out@.map_values(|i: Instruction| i@) + rest),
                    Err(e) => spec_parse_lines(linesv, 0, stack) == Err::<
                        Seq<InstrV>,
                        ParsingErrorV,
                    >(e),
                },
        {
            let line_trimmed = trim(lines[k]);
            let ln = line_trimmed.unicode_len();
            let skip = ln == 0 || line_trimmed.get_char(0) == '#';
            proof {
                assert(linesv[k as int] == lines@[k as int]@);
                assert(skip == skipped_line(linesv[k as int]));
            }
            if !skip {
                match self.parse_instruction(lines[k], k) {
                    Ok(instr) => {
                        let ghost out_before = out@.map_values(|i: Instruction| i@);
                        out.push(instr);
                        proof {
                            assert(out@.map_values(|i: Instruction| i@) =~= out_before.push(
                                instr@,
                            ));
                            if spec_parse_lines(linesv, k + 1, stack) is Ok {
                                assert(out_before.push(instr@) + spec_parse_lines(
                                    linesv,
                                    k + 1,
                                    stack,
                                )->Ok_0 =~= out_before + (seq![instr@] + spec_parse_lines(
                                    linesv,
                                    k + 1,
                                    stack,
                                )->Ok_0));
                            }
                        }
                    },
                    Err(e) => {
                        proof {
                            assert(spec_parse_lines(linesv, k as int, stack) == Err::<
                                Seq<InstrV>,
                                ParsingErrorV,
                            >(e@));
                        }
                        return Err(e);
                    },
                }
            }
        }
        proof {
            assert(spec_parse_lines(linesv, m as int, stack) == Ok::<
                Seq<InstrV>,
                ParsingErrorV,
            >(Seq::empty()));
            assert(out@.map_values(|i: Instruction| i@) + Seq::<InstrV>::empty() =~= out@.map_values(
                |i: Instruction| i@,
            ));
        }
        Ok(out)
    }
}

impl Default for Assembler {
    fn default() -> (r: Self)
        ensures
            !r.stack_configured(),
    {
        Self::new()
    }
}

/// Whether a word is one of a mnemonic's two spellings.
fn kw(w: &str, upper: &str, lower: &str) -> (r: bool)
    ensures
        r == (w@ == upper@ || w@ == lower@),
{
    str_eq(w, upper) || str_eq(w, lower)
}

} // verus!
