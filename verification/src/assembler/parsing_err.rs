use vstd::prelude::*;

verus! {

/// Data contained in a parsing error: where it happened, and an optional
/// free-form message.
#[derive(Debug, PartialEq)]
pub struct ParsingErrorData {
    line: usize,
    message: String,
}

/// Mathematical shape of `ParsingErrorData`.
#[verifier::ext_equal]
pub struct ParsingErrorDataV {
    pub line: nat,
    pub message: Seq<char>,
}

impl View for ParsingErrorData {
    type V = ParsingErrorDataV;

    closed spec fn view(&self) -> ParsingErrorDataV {
        ParsingErrorDataV { line: self.line as nat, message: self.message@ }
    }
}

impl ParsingErrorData {
    pub fn new(line: usize, message: String) -> (r: ParsingErrorData)
        ensures
            r@ == (ParsingErrorDataV { line: line as nat, message: message@ }),
    {
        let r = ParsingErrorData { line, message };
        proof {
            assert(r@ =~= (ParsingErrorDataV { line: line as nat, message: message@ }));
        }
        r
    }
}

impl ParsingErrorData {
    /// The source line the error points at.
    pub fn get_line(&self) -> (r: usize)
        ensures
            r as nat == self@.line,
    {
        self.line
    }
}

impl Clone for ParsingErrorData {
    fn clone(&self) -> (res: Self)
        ensures
            res@ == self@,
    {
        ParsingErrorData { line: self.line, message: self.message.clone() }
    }
}

/// The kinds of error that can occur while assembling code.
#[derive(Debug, PartialEq, Eq, Structural, Clone, Copy)]
pub enum ParsingErrorKind {
    EmptyOperand,
    InvalidPortNumber,
    InvalidRegisterNumber,
    InvalidOperandType,
    InvalidNumericLiteral,
    InvalidBinaryLiteral,
    InvalidHexLiteral,
    InvalidCharLiteral,
    NoSuchInstruction,
    Empty,
    Unknown,
    NotImplanted,
    NotEnoughOperands,
    TooManyOperands,
    StackNotPresent,
}

/// An error met while attempting to assemble code into instructions.
#[derive(Debug, PartialEq)]
pub enum ParsingError {
    EmptyOperand(ParsingErrorData),
    InvalidPortNumber(ParsingErrorData),
    InvalidRegisterNumber(ParsingErrorData),
    InvalidOperandType(ParsingErrorData),
    InvalidNumericLiteral(ParsingErrorData),
    InvalidBinaryLiteral(ParsingErrorData),
    InvalidHexLiteral(ParsingErrorData),
    InvalidCharLiteral(ParsingErrorData),
    NoSuchInstruction(ParsingErrorData),
    Empty(ParsingErrorData),
    Unknown(ParsingErrorData),
    NotImplanted(ParsingErrorData),
    NotEnoughOperands(ParsingErrorData),
    TooManyOperands(ParsingErrorData),
    StackNotPresent(ParsingErrorData),
}

/// Mathematical shape of a `ParsingError`.
#[verifier::ext_equal]
pub struct ParsingErrorV {
    pub kind: ParsingErrorKind,
    pub line: nat,
    pub message: Seq<char>,
}

impl View for ParsingError {
    type V = ParsingErrorV;

    open spec fn view(&self) -> ParsingErrorV {
        match self {
            ParsingError::EmptyOperand(d) => ParsingErrorV {
                kind: ParsingErrorKind::EmptyOperand,
                line: d@.line,
                message: d@.message,
            },
            ParsingError::InvalidPortNumber(d) => ParsingErrorV {
                kind: ParsingErrorKind::InvalidPortNumber,
                line: d@.line,
                message: d@.message,
            },
            ParsingError::InvalidRegisterNumber(d) => ParsingErrorV {
                kind: ParsingErrorKind::InvalidRegisterNumber,
                line: d@.line,
                message: d@.message,
            },
            ParsingError::InvalidOperandType(d) => ParsingErrorV {
                kind: ParsingErrorKind::InvalidOperandType,
                line: d@.line,
                message: d@.message,
            },
            ParsingError::InvalidNumericLiteral(d) => ParsingErrorV {
                kind: ParsingErrorKind::InvalidNumericLiteral,
                line: d@.line,
                message: d@.message,
            },
            ParsingError::InvalidBinaryLiteral(d) => ParsingErrorV {
                kind: ParsingErrorKind::InvalidBinaryLiteral,
                line: d@.line,
                message: d@.message,
            },
            ParsingError::InvalidHexLiteral(d) => ParsingErrorV {
                kind: ParsingErrorKind::InvalidHexLiteral,
                line: d@.line,
                message: d@.message,
            },
            ParsingError::InvalidCharLiteral(d) => ParsingErrorV {
                kind: ParsingErrorKind::InvalidCharLiteral,
                line: d@.line,
                message: d@.message,
            },
            ParsingError::NoSuchInstruction(d) => ParsingErrorV {
                kind: ParsingErrorKind::NoSuchInstruction,
                line: d@.line,
                message: d@.message,
            },
            ParsingError::Empty(d) => ParsingErrorV {
                kind: ParsingErrorKind::Empty,
                line: d@.line,
                message: d@.message,
            },
            ParsingError::Unknown(d) => ParsingErrorV {
                kind: ParsingErrorKind::Unknown,
                line: d@.line,
                message: d@.message,
            },
            ParsingError::NotImplanted(d) => ParsingErrorV {
                kind: ParsingErrorKind::NotImplanted,
                line: d@.line,
                message: d@.message,
            },
            ParsingError::NotEnoughOperands(d) => ParsingErrorV {
                kind: ParsingErrorKind::NotEnoughOperands,
                line: d@.line,
                message: d@.message,
            },
            ParsingError::TooManyOperands(d) => ParsingErrorV {
                kind: ParsingErrorKind::TooManyOperands,
                line: d@.line,
                message: d@.message,
            },
            ParsingError::StackNotPresent(d) => ParsingErrorV {
                kind: ParsingErrorKind::StackNotPresent,
                line: d@.line,
                message: d@.message,
            },
        }
    }
}

impl ParsingError {
    /// Builds the error of the given kind, at the given source line, with
    /// the given message.
    pub fn new(kind: ParsingErrorKind, line: usize, message: String) -> (r: ParsingError)
        ensures
            r@ == (ParsingErrorV { kind, line: line as nat, message: message@ }),
    {
        let data = ParsingErrorData::new(line, message);
        let r = match kind {
            ParsingErrorKind::EmptyOperand => ParsingError::EmptyOperand(data),
            ParsingErrorKind::InvalidPortNumber => ParsingError::InvalidPortNumber(data),
            ParsingErrorKind::InvalidRegisterNumber => ParsingError::InvalidRegisterNumber(data),
            ParsingErrorKind::InvalidOperandType => ParsingError::InvalidOperandType(data),
            ParsingErrorKind::InvalidNumericLiteral => ParsingError::InvalidNumericLiteral(data),
            ParsingErrorKind::InvalidBinaryLiteral => ParsingError::InvalidBinaryLiteral(data),
            ParsingErrorKind::InvalidHexLiteral => ParsingError::InvalidHexLiteral(data),
            ParsingErrorKind::InvalidCharLiteral => ParsingError::InvalidCharLiteral(data),
            ParsingErrorKind::NoSuchInstruction => ParsingError::NoSuchInstruction(data),
            ParsingErrorKind::Empty => ParsingError::Empty(data),
            ParsingErrorKind::Unknown => ParsingError::Unknown(data),
            ParsingErrorKind::NotImplanted => ParsingError::NotImplanted(data),
            ParsingErrorKind::NotEnoughOperands => ParsingError::NotEnoughOperands(data),
            ParsingErrorKind::TooManyOperands => ParsingError::TooManyOperands(data),
            ParsingErrorKind::StackNotPresent => ParsingError::StackNotPresent(data),
        };
        proof {
            assert(r@ =~= (ParsingErrorV { kind, line: line as nat, message: message@ }));
        }
        r
    }

    pub fn get_data(&self) -> (r: ParsingErrorData)
        ensures
            r@.line == self@.line,
            r@.message == self@.message,
    {
        match self {
            ParsingError::EmptyOperand(data) => data.clone(),
            ParsingError::InvalidPortNumber(data) => data.clone(),
            ParsingError::InvalidRegisterNumber(data) => data.clone(),
            ParsingError::InvalidOperandType(data) => data.clone(),
            ParsingError::InvalidNumericLiteral(data) => data.clone(),
            ParsingError::InvalidBinaryLiteral(data) => data.clone(),
            ParsingError::InvalidHexLiteral(data) => data.clone(),
            ParsingError::InvalidCharLiteral(data) => data.clone(),
            ParsingError::NoSuchInstruction(data) => data.clone(),
            ParsingError::Empty(data) => data.clone(),
            ParsingError::Unknown(data) => data.clone(),
            ParsingError::NotImplanted(data) => data.clone(),
            ParsingError::NotEnoughOperands(data) => data.clone(),
            ParsingError::TooManyOperands(data) => data.clone(),
            ParsingError::StackNotPresent(data) => data.clone(),
        }
    }

    pub fn get_message(&self) -> (r: String)
        ensures
            r@ == self@.message,
    {
        let data = self.get_data();
        let ParsingErrorData { line: _, message } = data;
        message
    }
}

} // verus!
