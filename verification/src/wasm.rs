//! The module description: value and function types, index newtypes,
//! instruction trees, sections, and the `Module` aggregate that the
//! binary decoder produces and the interpreter consumes.
use vstd::prelude::*;

verus! {

/// The eight bytes that open every module binary: the magic `\0asm`
/// followed by the format version `[1, 0, 0, 0]`.
#[derive(Debug, Clone, Copy, PartialEq, Eq)]
pub struct Preamble {
    pub magic: [u8; 4],
    pub version: [u8; 4],
}

#[derive(Debug, Clone, Copy, PartialEq, Eq, Structural)]
pub enum ValueType {
    I32,
    I64,
    F32,
    F64,
}

/// Signature of a function: parameter types and result types, in order.
#[derive(Debug, PartialEq, Eq)]
pub struct FuncType {
    pub parameter_types: Vec<ValueType>,
    pub result_types: Vec<ValueType>,
}

#[derive(Debug, Clone, Copy, PartialEq, Eq, Structural)]
pub struct TypeIdx(pub usize);

#[derive(Debug, Clone, Copy, PartialEq, Eq, Structural)]
pub struct FuncIdx(pub usize);

#[derive(Debug, Clone, Copy, PartialEq, Eq, Structural)]
pub struct TableIdx(pub usize);

#[derive(Debug, Clone, Copy, PartialEq, Eq, Structural)]
pub struct MemIdx(pub usize);

#[derive(Debug, Clone, Copy, PartialEq, Eq, Structural)]
pub struct GlobalIdx(pub usize);

#[derive(Debug, Clone, Copy, PartialEq, Eq, Structural)]
pub struct LocalIdx(pub usize);

#[derive(Debug, Clone, Copy, PartialEq, Eq, Structural)]
pub struct LabelIdx(pub usize);

#[derive(Debug, Clone, Copy, PartialEq, Eq, Structural)]
pub enum RefType {
    FuncRef,
    ExternRef,
}

#[derive(Debug, Clone, Copy, PartialEq, Eq)]
pub struct Limits {
    pub min: u32,
    pub max: Option<u32>,
}

#[derive(Debug, Clone, Copy, PartialEq, Eq)]
pub struct TableType {
    pub elem_type: RefType,
    pub limits: Limits,
}

#[derive(Debug, Clone, Copy, PartialEq, Eq)]
pub struct MemType {
    pub limits: Limits,
}

#[derive(Debug, Clone, Copy, PartialEq, Eq, Structural)]
pub enum Mutability {
    Constant,
    Variable,
}

#[derive(Debug, Clone, Copy, PartialEq, Eq, Structural)]
pub struct GlobalType {
    pub value_type: ValueType,
    pub mutability: Mutability,
}

#[derive(Debug, Clone, Copy, PartialEq, Eq)]
pub enum ImportDescriptor {
    Func(TypeIdx),
    Table(TableType),
    Memory(MemType),
    Global(GlobalType),
}

/// A UTF-8 name from the binary.
#[derive(Debug, Clone, PartialEq, Eq)]
pub struct Name(pub String);

#[derive(Debug, Clone, PartialEq, Eq)]
pub struct Import {
    pub module: Name,
    pub name: Name,
    pub descriptor: ImportDescriptor,
}

/// Only the empty block type is recognised.
#[derive(Debug, Clone, Copy, PartialEq, Eq, Structural)]
pub enum BlockType {
    Empty,
}

/// Memory immediate. The interpreter uses `offset` as a cell index and
/// ignores `align`.
#[derive(Debug, Clone, Copy, PartialEq, Eq, Structural)]
pub struct MemArg {
    pub align: usize,
    pub offset: usize,
}

/// One decoded instruction. Structured control flow carries its nested
/// bodies as fully materialised trees; no byte offsets are retained.
///
/// A 64-bit float constant is held as its IEEE 754 bit pattern, exactly
/// the eight little-endian bytes of the binary; the interpreter never
/// operates on it.
#[derive(Debug, PartialEq, Eq)]
pub enum Instruction {
    // Control instructions
    Unreachable,
    Block(BlockType, Vec<Instruction>),
    Loop(BlockType, Vec<Instruction>),
    If(BlockType, Vec<Instruction>, Vec<Instruction>),
    Branch(LabelIdx),
    BranchIf(LabelIdx),
    Return,
    Call(FuncIdx),
    // Variable instructions
    LocalGet(LocalIdx),
    LocalSet(LocalIdx),
    GlobalGet(GlobalIdx),
    GlobalSet(GlobalIdx),
    // Memory instructions
    I32Load(MemArg),
    I32Store(MemArg),
    // Numeric instructions
    I32Const(i32),
    F64Const(u64),
    I32Eq,
    I32GtSigned,
    F64Lt,
    F64Gt,
    F64Ge,
    I32Add,
    I32Sub,
    I32Mul,
    F64Add,
    F64Sub,
    F64Mul,
    F64Div,
}

#[derive(Debug, PartialEq, Eq)]
pub struct Global {
    pub global_type: GlobalType,
    pub expression: Vec<Instruction>,
}

#[derive(Debug, Clone, Copy, PartialEq, Eq)]
pub enum ExportDescriptor {
    Func(FuncIdx),
    Table(TableIdx),
    Memory(MemIdx),
    Global(GlobalIdx),
}

#[derive(Debug, Clone, PartialEq, Eq)]
pub struct Export {
    pub name: Name,
    pub descriptor: ExportDescriptor,
}

/// A function body: the declared locals, expanded to one entry per
/// local, and the instruction tree.
#[derive(Debug, PartialEq, Eq)]
pub struct Code {
    pub locals: Vec<ValueType>,
    pub body: Vec<Instruction>,
}

/// One run of local declarations as encoded: `n` repetitions of `t`.
#[derive(Debug, Clone, Copy, PartialEq, Eq, Structural)]
pub struct Locals {
    pub n: u32,
    pub t: ValueType,
}

#[derive(Debug, PartialEq, Eq)]
pub enum Section {
    Custom,
    Type(Vec<FuncType>),
    Import(Vec<Import>),
    Function(Vec<TypeIdx>),
    Table,
    Memory(Vec<Limits>),
    Global(Vec<Global>),
    Export(Vec<Export>),
    Start,
    Element,
    Code(Vec<Code>),
    Data,
}

/// The decoded module. The `i`-th entry of `codes` is the body of the
/// function whose type index is the `i`-th entry of `functions`.
#[derive(Debug, PartialEq, Eq)]
pub struct Module {
    pub preamble: Preamble,
    pub types: Vec<FuncType>,
    pub imports: Vec<Import>,
    pub functions: Vec<TypeIdx>,
    pub memories: Vec<Limits>,
    pub globals: Vec<Global>,
    pub exports: Vec<Export>,
    pub codes: Vec<Code>,
}

} // verus!
