//! The values that callers hand to the writer: file metadata, hierarchy
//! kinds, signal types and handles, and the errors that come back.
use vstd::prelude::*;

verus! {

/// The kind of source a trace came from.
#[derive(Debug, Clone, Copy, PartialEq, Eq, Structural)]
pub enum FstFileType {
    Verilog,
    Vhdl,
    VerilogVhdl,
}

impl FstFileType {
    pub open spec fn code_spec(self) -> u8 {
        match self {
            FstFileType::Verilog => 0,
            FstFileType::Vhdl => 1,
            FstFileType::VerilogVhdl => 2,
        }
    }

    /// The byte that stands for this file type in the header.
    #[verifier::when_used_as_spec(code_spec)]
    pub fn code(self) -> (r: u8)
        ensures
            r == self.code_spec(),
    {
        match self {
            FstFileType::Verilog => 0,
            FstFileType::Vhdl => 1,
            FstFileType::VerilogVhdl => 2,
        }
    }
}

/// What the header of a new file says.
#[derive(Debug, Clone)]
pub struct FstInfo {
    pub start_time: u64,
    pub timescale_exponent: i8,
    pub version: String,
    pub date: String,
    pub file_type: FstFileType,
}

/// The kind of a scope in the hierarchy.
#[derive(Debug, Clone, Copy, PartialEq, Eq, Structural)]
pub enum FstScopeType {
    Module,
    Task,
    Function,
    Begin,
    Fork,
    Generate,
    Struct,
    Union,
    Class,
    Interface,
    Package,
    Program,
    VhdlArchitecture,
    VhdlProcedure,
    VhdlFunction,
    VhdlRecord,
    VhdlProcess,
    VhdlBlock,
    VhdlForGenerate,
    VhdlIfGenerate,
    VhdlGenerate,
    VhdlPackage,
    SvArray,
}

impl FstScopeType {
    pub open spec fn code_spec(self) -> u8 {
        match self {
            FstScopeType::Module => 0,
            FstScopeType::Task => 1,
            FstScopeType::Function => 2,
            FstScopeType::Begin => 3,
            FstScopeType::Fork => 4,
            FstScopeType::Generate => 5,
            FstScopeType::Struct => 6,
            FstScopeType::Union => 7,
            FstScopeType::Class => 8,
            FstScopeType::Interface => 9,
            FstScopeType::Package => 10,
            FstScopeType::Program => 11,
            FstScopeType::VhdlArchitecture => 12,
            FstScopeType::VhdlProcedure => 13,
            FstScopeType::VhdlFunction => 14,
            FstScopeType::VhdlRecord => 15,
            FstScopeType::VhdlProcess => 16,
            FstScopeType::VhdlBlock => 17,
            FstScopeType::VhdlForGenerate => 18,
            FstScopeType::VhdlIfGenerate => 19,
            FstScopeType::VhdlGenerate => 20,
            FstScopeType::VhdlPackage => 21,
            FstScopeType::SvArray => 22,
        }
    }

    /// The byte that stands for this scope kind in the file.
    #[verifier::when_used_as_spec(code_spec)]
    pub fn code(self) -> (r: u8)
        ensures
            r == self.code_spec(),
    {
        match self {
            FstScopeType::Module => 0,
            FstScopeType::Task => 1,
            FstScopeType::Function => 2,
            FstScopeType::Begin => 3,
            FstScopeType::Fork => 4,
            FstScopeType::Generate => 5,
            FstScopeType::Struct => 6,
            FstScopeType::Union => 7,
            FstScopeType::Class => 8,
            FstScopeType::Interface => 9,
            FstScopeType::Package => 10,
            FstScopeType::Program => 11,
            FstScopeType::VhdlArchitecture => 12,
            FstScopeType::VhdlProcedure => 13,
            FstScopeType::VhdlFunction => 14,
            FstScopeType::VhdlRecord => 15,
            FstScopeType::VhdlProcess => 16,
            FstScopeType::VhdlBlock => 17,
            FstScopeType::VhdlForGenerate => 18,
            FstScopeType::VhdlIfGenerate => 19,
            FstScopeType::VhdlGenerate => 20,
            FstScopeType::VhdlPackage => 21,
            FstScopeType::SvArray => 22,
        }
    }
}

/// The kind of a variable in the hierarchy.
#[derive(Debug, Clone, Copy, PartialEq, Eq, Structural)]
pub enum FstVarType {
    Event,
    Integer,
    Parameter,
    Real,
    RealParameter,
    Reg,
    Supply0,
    Supply1,
    Time,
    Tri,
    TriAnd,
    TriOr,
    TriReg,
    Tri0,
    Tri1,
    Wand,
    Wire,
    Wor,
    Port,
    SparseArray,
    RealTime,
    GenericString,
    Bit,
    Logic,
    Int,
    ShortInt,
    LongInt,
    Byte,
    Enum,
    ShortReal,
}

impl FstVarType {
    pub open spec fn code_spec(self) -> u8 {
        match self {
            FstVarType::Event => 0,
            FstVarType::Integer => 1,
            FstVarType::Parameter => 2,
            FstVarType::Real => 3,
            FstVarType::RealParameter => 4,
            FstVarType::Reg => 5,
            FstVarType::Supply0 => 6,
            FstVarType::Supply1 => 7,
            FstVarType::Time => 8,
            FstVarType::Tri => 9,
            FstVarType::TriAnd => 10,
            FstVarType::TriOr => 11,
            FstVarType::TriReg => 12,
            FstVarType::Tri0 => 13,
            FstVarType::Tri1 => 14,
            FstVarType::Wand => 15,
            FstVarType::Wire => 16,
            FstVarType::Wor => 17,
            FstVarType::Port => 18,
            FstVarType::SparseArray => 19,
            FstVarType::RealTime => 20,
            FstVarType::GenericString => 21,
            FstVarType::Bit => 22,
            FstVarType::Logic => 23,
            FstVarType::Int => 24,
            FstVarType::ShortInt => 25,
            FstVarType::LongInt => 26,
            FstVarType::Byte => 27,
            FstVarType::Enum => 28,
            FstVarType::ShortReal => 29,
        }
    }

    /// The byte that stands for this variable kind in the file.
    #[verifier::when_used_as_spec(code_spec)]
    pub fn code(self) -> (r: u8)
        ensures
            r == self.code_spec(),
    {
        match self {
            FstVarType::Event => 0,
            FstVarType::Integer => 1,
            FstVarType::Parameter => 2,
            FstVarType::Real => 3,
            FstVarType::RealParameter => 4,
            FstVarType::Reg => 5,
            FstVarType::Supply0 => 6,
            FstVarType::Supply1 => 7,
            FstVarType::Time => 8,
            FstVarType::Tri => 9,
            FstVarType::TriAnd => 10,
            FstVarType::TriOr => 11,
            FstVarType::TriReg => 12,
            FstVarType::Tri0 => 13,
            FstVarType::Tri1 => 14,
            FstVarType::Wand => 15,
            FstVarType::Wire => 16,
            FstVarType::Wor => 17,
            FstVarType::Port => 18,
            FstVarType::SparseArray => 19,
            FstVarType::RealTime => 20,
            FstVarType::GenericString => 21,
            FstVarType::Bit => 22,
            FstVarType::Logic => 23,
            FstVarType::Int => 24,
            FstVarType::ShortInt => 25,
            FstVarType::LongInt => 26,
            FstVarType::Byte => 27,
            FstVarType::Enum => 28,
            FstVarType::ShortReal => 29,
        }
    }
}

/// The direction of a variable.
#[derive(Debug, Clone, Copy, PartialEq, Eq, Structural)]
pub enum FstVarDirection {
    Implicit,
    Input,
    Output,
    InOut,
    Buffer,
    Linkage,
}

impl FstVarDirection {
    pub open spec fn code_spec(self) -> u8 {
        match self {
            FstVarDirection::Implicit => 0,
            FstVarDirection::Input => 1,
            FstVarDirection::Output => 2,
            FstVarDirection::InOut => 3,
            FstVarDirection::Buffer => 4,
            FstVarDirection::Linkage => 5,
        }
    }

    /// The byte that stands for this direction in the file.
    #[verifier::when_used_as_spec(code_spec)]
    pub fn code(self) -> (r: u8)
        ensures
            r == self.code_spec(),
    {
        match self {
            FstVarDirection::Implicit => 0,
            FstVarDirection::Input => 1,
            FstVarDirection::Output => 2,
            FstVarDirection::InOut => 3,
            FstVarDirection::Buffer => 4,
            FstVarDirection::Linkage => 5,
        }
    }
}

/// The type of a signal: a bit vector of a fixed width of at least one, or
/// a real number.
#[derive(Debug, Clone, Copy, PartialEq, Eq, Structural)]
pub struct FstSignalType {
    pub width: u32,
    pub real_valued: bool,
}

impl FstSignalType {
    /// The signal type is well formed: a bit vector has a width of at least one.
    pub open spec fn wf(self) -> bool {
        self.real_valued || self.width >= 1
    }

    pub open spec fn is_real(self) -> bool {
        self.real_valued
    }

    /// The number of bits of a bit vector.
    pub open spec fn width(self) -> u32 {
        self.width
    }

    pub fn bit_vec(width: u32) -> (r: FstSignalType)
        requires
            width >= 1,
        ensures
            r.wf(),
            !r.is_real(),
            r.width() == width,
    {
        FstSignalType { width, real_valued: false }
    }

    pub fn real_number() -> (r: FstSignalType)
        ensures
            r.wf(),
            r.is_real(),
    {
        FstSignalType { width: 0, real_valued: true }
    }

    pub open spec fn len_spec(self) -> u32 {
        if self.real_valued {
            8
        } else {
            self.width
        }
    }

    /// The number of bytes that one value of this signal takes.
    #[verifier::when_used_as_spec(len_spec)]
    pub fn len(self) -> (r: u32)
        ensures
            r == self.len_spec(),
    {
        if self.real_valued {
            8
        } else {
            self.width
        }
    }

    pub open spec fn to_file_format_spec(self) -> u32 {
        if self.real_valued {
            0
        } else {
            self.width
        }
    }

    /// The width that the geometry block records: zero for a real.
    #[verifier::when_used_as_spec(to_file_format_spec)]
    pub fn to_file_format(self) -> (r: u32)
        ensures
            r == self.to_file_format_spec(),
    {
        if self.real_valued {
            0
        } else {
            self.width
        }
    }
}

/// A handle of a registered signal, counted from one.
#[derive(Debug, Clone, Copy, PartialEq, Eq, Structural)]
pub struct FstSignalId {
    pub index: u32,
}

impl FstSignalId {
    pub open spec fn index(self) -> u32 {
        self.index
    }

    pub fn from_index(index: u32) -> (r: FstSignalId)
        ensures
            r.index() == index,
    {
        FstSignalId { index }
    }

    #[verifier::when_used_as_spec(index)]
    pub fn to_index(self) -> (r: u32)
        ensures
            r == self.index(),
    {
        self.index
    }
}

/// What can go wrong while writing a trace.
#[derive(Debug, Clone, PartialEq, Eq)]
pub enum FstWriteError {
    /// A string does not fit its fixed-length field: the field's size and the string.
    StringTooLong(usize, String),
    /// Time went backwards: the current time and the one that was asked for.
    TimeDecrease(u64, u64),
    /// No signal has this handle.
    InvalidSignalId(FstSignalId),
    /// A value holds a character that is not a logic level.
    InvalidCharacter(char),
    /// A value cannot be brought to the signal's length: the length and the value's.
    InvalidValueLength(usize, usize),
}

} // verus!
