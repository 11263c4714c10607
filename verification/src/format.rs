//! The binary format, written down as specification functions: what
//! each primitive, each value, each section and the whole module decode
//! to, byte by byte. The executable decoder in [`crate::parser`] is
//! verified to return exactly what these functions say.
//!
//! The specification works over mathematical values: instruction trees
//! over `Seq`, names as `Seq<char>`, positions as `int`. The view
//! functions below map the decoder's concrete values onto them.
use vstd::prelude::*;

use crate::wasm::{
    Code, Export, ExportDescriptor, FuncIdx, FuncType, Global, GlobalIdx, GlobalType, Import,
    ImportDescriptor, Instruction, LabelIdx, Limits, LocalIdx, Locals, MemArg, MemIdx, MemType,
    Module, Mutability, RefType, Section, TableIdx, TableType, TypeIdx, ValueType,
};

verus! {

/// Why decoding stopped. `Eof` is the clean end of the stream, seen
/// only where a section could begin; running out of bytes anywhere else
/// is `UnexpectedEof`. The rest name the byte or check that failed.
#[derive(Debug, Clone, Copy, PartialEq, Eq, Structural)]
pub enum ParseErr {
    /// Clean end of stream at a section boundary.
    Eof,
    /// The stream ended inside a structured element.
    UnexpectedEof,
    /// The first four bytes were not `\0asm`.
    BadMagic,
    /// The version bytes were not `[1, 0, 0, 0]`.
    BadVersion,
    /// A section id above 11.
    BadSectionId(u8),
    /// A section or code entry did not occupy exactly its declared size.
    SizeMismatch,
    /// A LEB128 integer ran past 32 bits.
    IntTooLong,
    /// Skipping a section would move the cursor past what a position
    /// can hold.
    OffsetOverflow,
    BadValueType(u8),
    BadRefType(u8),
    BadMutability(u8),
    BadImportDescriptor(u8),
    BadExportDescriptor(u8),
    BadBlockType(u8),
    /// A function type did not begin with the marker `0x60`.
    BadFuncTypeMarker(u8),
    /// An opcode the decoder does not know, and the position of its
    /// byte in the stream.
    BadOpcode { opcode: u8, offset: usize },
    /// A name that is not valid UTF-8.
    BadUtf8,
}

/// What a successful parse of a `T` yields: the value and the position
/// just past its encoding.
pub type Parsed<T> = Result<(T, int), ParseErr>;

/// What `String::from_utf8` computes: `Some` of the decoded characters
/// when the bytes are valid UTF-8, `None` otherwise. The decoding is a
/// function of the bytes alone.
pub uninterp spec fn utf8_decode(bytes: Seq<u8>) -> Option<Seq<char>>;

// ---------------------------------------------------------------------
// Mirror values: the decoder's types, with sequences for vectors.

/// The instruction tree as the specification sees it: nested bodies are
/// sequences, and the empty block type (the only one recognised) is
/// left implicit.
pub enum InstrV {
    Unreachable,
    Block(Seq<InstrV>),
    Loop(Seq<InstrV>),
    If(Seq<InstrV>, Seq<InstrV>),
    Branch(usize),
    BranchIf(usize),
    Return,
    Call(usize),
    LocalGet(usize),
    LocalSet(usize),
    GlobalGet(usize),
    GlobalSet(usize),
    I32Load(MemArg),
    I32Store(MemArg),
    I32Const(i32),
    F64Const(u64),
    I32Eq,
    I32GtSigned,
    F64Lt,
    F64Gt,
    F64Ge,
    I32Add,
    I32Sub,
    I32Mul,
    F64Add,
    F64Sub,
    F64Mul,
    F64Div,
}

pub struct FuncTypeV {
    pub parameter_types: Seq<ValueType>,
    pub result_types: Seq<ValueType>,
}

pub struct ImportV {
    pub module: Seq<char>,
    pub name: Seq<char>,
    pub descriptor: ImportDescriptor,
}

pub struct GlobalV {
    pub global_type: GlobalType,
    pub expression: Seq<InstrV>,
}

pub struct ExportV {
    pub name: Seq<char>,
    pub descriptor: ExportDescriptor,
}

pub struct CodeV {
    pub locals: Seq<ValueType>,
    pub body: Seq<InstrV>,
}

pub enum SectionV {
    Custom,
    Type(Seq<FuncTypeV>),
    Import(Seq<ImportV>),
    Function(Seq<TypeIdx>),
    Table,
    Memory(Seq<Limits>),
    Global(Seq<GlobalV>),
    Export(Seq<ExportV>),
    Start,
    Element,
    Code(Seq<CodeV>),
    Data,
}

pub struct ModuleV {
    pub magic: Seq<u8>,
    pub version: Seq<u8>,
    pub types: Seq<FuncTypeV>,
    pub imports: Seq<ImportV>,
    pub functions: Seq<TypeIdx>,
    pub memories: Seq<Limits>,
    pub globals: Seq<GlobalV>,
    pub exports: Seq<ExportV>,
    pub codes: Seq<CodeV>,
}

// ---------------------------------------------------------------------
// Views: from the decoder's values to the mirror values.

pub open spec fn view_instr(i: Instruction) -> InstrV
    decreases i,
{
    match i {
        Instruction::Unreachable => InstrV::Unreachable,
        Instruction::Block(_, b) => InstrV::Block(view_instrs(b@)),
        Instruction::Loop(_, b) => InstrV::Loop(view_instrs(b@)),
        Instruction::If(_, t, e) => InstrV::If(view_instrs(t@), view_instrs(e@)),
        Instruction::Branch(LabelIdx(l)) => InstrV::Branch(l),
        Instruction::BranchIf(LabelIdx(l)) => InstrV::BranchIf(l),
        Instruction::Return => InstrV::Return,
        Instruction::Call(FuncIdx(f)) => InstrV::Call(f),
        Instruction::LocalGet(LocalIdx(x)) => InstrV::LocalGet(x),
        Instruction::LocalSet(LocalIdx(x)) => InstrV::LocalSet(x),
        Instruction::GlobalGet(GlobalIdx(x)) => InstrV::GlobalGet(x),
        Instruction::GlobalSet(GlobalIdx(x)) => InstrV::GlobalSet(x),
        Instruction::I32Load(m) => InstrV::I32Load(m),
        Instruction::I32Store(m) => InstrV::I32Store(m),
        Instruction::I32Const(v) => InstrV::I32Const(v),
        Instruction::F64Const(bits) => InstrV::F64Const(bits),
        Instruction::I32Eq => InstrV::I32Eq,
        Instruction::I32GtSigned => InstrV::I32GtSigned,
        Instruction::F64Lt => InstrV::F64Lt,
        Instruction::F64Gt => InstrV::F64Gt,
        Instruction::F64Ge => InstrV::F64Ge,
        Instruction::I32Add => InstrV::I32Add,
        Instruction::I32Sub => InstrV::I32Sub,
        Instruction::I32Mul => InstrV::I32Mul,
        Instruction::F64Add => InstrV::F64Add,
        Instruction::F64Sub => InstrV::F64Sub,
        Instruction::F64Mul => InstrV::F64Mul,
        Instruction::F64Div => InstrV::F64Div,
    }
}

pub open spec fn view_instrs(s: Seq<Instruction>) -> Seq<InstrV>
    decreases s,
{
    if s.len() == 0 {
        Seq::empty()
    } else {
        view_instrs(s.drop_last()).push(view_instr(s.last()))
    }
}

pub open spec fn view_func_type(ft: FuncType) -> FuncTypeV {
    FuncTypeV { parameter_types: ft.parameter_types@, result_types: ft.result_types@ }
}

pub open spec fn view_import(i: Import) -> ImportV {
    ImportV { module: i.module.0@, name: i.name.0@, descriptor: i.descriptor }
}

pub open spec fn view_global(g: Global) -> GlobalV {
    GlobalV { global_type: g.global_type, expression: view_instrs(g.expression@) }
}

pub open spec fn view_export(e: Export) -> ExportV {
    ExportV { name: e.name.0@, descriptor: e.descriptor }
}

pub open spec fn view_code(c: Code) -> CodeV {
    CodeV { locals: c.locals@, body: view_instrs(c.body@) }
}

// Named element parsers and view maps: each wraps one closure, so that
// every use shares one term.

pub open spec fn elem_value_type() -> spec_fn(Seq<u8>, int) -> Parsed<ValueType> {
    |b: Seq<u8>, q: int| spec_value_type(b, q)
}

pub open spec fn elem_func_type() -> spec_fn(Seq<u8>, int) -> Parsed<FuncTypeV> {
    |b: Seq<u8>, q: int| spec_func_type(b, q)
}

pub open spec fn elem_import() -> spec_fn(Seq<u8>, int) -> Parsed<ImportV> {
    |b: Seq<u8>, q: int| spec_import(b, q)
}

pub open spec fn elem_type_idx() -> spec_fn(Seq<u8>, int) -> Parsed<TypeIdx> {
    |b: Seq<u8>, q: int| spec_type_idx(b, q)
}

pub open spec fn elem_limits() -> spec_fn(Seq<u8>, int) -> Parsed<Limits> {
    |b: Seq<u8>, q: int| spec_limits(b, q)
}

pub open spec fn elem_global() -> spec_fn(Seq<u8>, int) -> Parsed<GlobalV> {
    |b: Seq<u8>, q: int| spec_global(b, q)
}

pub open spec fn elem_export() -> spec_fn(Seq<u8>, int) -> Parsed<ExportV> {
    |b: Seq<u8>, q: int| spec_export(b, q)
}

pub open spec fn elem_code() -> spec_fn(Seq<u8>, int) -> Parsed<CodeV> {
    |b: Seq<u8>, q: int| spec_code(b, q)
}

pub open spec fn elem_locals_run() -> spec_fn(Seq<u8>, int) -> Parsed<Locals> {
    |b: Seq<u8>, q: int| spec_locals_run(b, q)
}

pub open spec fn view_func_types(s: Seq<FuncType>) -> Seq<FuncTypeV> {
    s.map_values(|ft: FuncType| view_func_type(ft))
}

pub open spec fn view_imports(s: Seq<Import>) -> Seq<ImportV> {
    s.map_values(|i: Import| view_import(i))
}

pub open spec fn view_globals(s: Seq<Global>) -> Seq<GlobalV> {
    s.map_values(|g: Global| view_global(g))
}

pub open spec fn view_exports(s: Seq<Export>) -> Seq<ExportV> {
    s.map_values(|e: Export| view_export(e))
}

pub open spec fn view_codes(s: Seq<Code>) -> Seq<CodeV> {
    s.map_values(|c: Code| view_code(c))
}

pub open spec fn view_sections(s: Seq<Section>) -> Seq<SectionV> {
    s.map_values(|x: Section| view_section(x))
}

pub open spec fn view_section(s: Section) -> SectionV {
    match s {
        Section::Custom => SectionV::Custom,
        Section::Type(v) => SectionV::Type(view_func_types(v@)),
        Section::Import(v) => SectionV::Import(view_imports(v@)),
        Section::Function(v) => SectionV::Function(v@),
        Section::Table => SectionV::Table,
        Section::Memory(v) => SectionV::Memory(v@),
        Section::Global(v) => SectionV::Global(view_globals(v@)),
        Section::Export(v) => SectionV::Export(view_exports(v@)),
        Section::Start => SectionV::Start,
        Section::Element => SectionV::Element,
        Section::Code(v) => SectionV::Code(view_codes(v@)),
        Section::Data => SectionV::Data,
    }
}

pub open spec fn view_module(m: Module) -> ModuleV {
    ModuleV {
        magic: m.preamble.magic@,
        version: m.preamble.version@,
        types: view_func_types(m.types@),
        imports: view_imports(m.imports@),
        functions: m.functions@,
        memories: m.memories@,
        globals: view_globals(m.globals@),
        exports: view_exports(m.exports@),
        codes: view_codes(m.codes@),
    }
}

// ---------------------------------------------------------------------
// The format itself: one specification function per encoded shape.

/// One byte.
pub open spec fn spec_u8(bytes: Seq<u8>, pos: int) -> Parsed<u8> {
    if 0 <= pos < bytes.len() {
        Ok((bytes[pos], pos + 1))
    } else {
        Err(ParseErr::UnexpectedEof)
    }
}

/// An unsigned LEB128 integer of up to 32 bits: 7-bit groups, little
/// endian, ending at the first byte whose continuation bit is clear.
/// More than five groups do not fit and are refused.
pub open spec fn spec_uleb32_rec(bytes: Seq<u8>, pos: int, shift: u32, acc: u32) -> Parsed<u32>
    decreases bytes.len() - pos,
{
    if !(0 <= pos < bytes.len()) {
        Err(ParseErr::UnexpectedEof)
    } else {
        let b = bytes[pos];
        if shift >= 32 {
            Err(ParseErr::IntTooLong)
        } else {
            let acc2 = acc | (((b & 0x7f) as u32) << shift);
            if b & 0x80 == 0 {
                Ok((acc2, pos + 1))
            } else if shift <= 25 {
                spec_uleb32_rec(bytes, pos + 1, (shift + 7) as u32, acc2)
            } else {
                spec_uleb32_rec(bytes, pos + 1, 32u32, acc2)
            }
        }
    }
}

pub open spec fn spec_uleb32(bytes: Seq<u8>, pos: int) -> Parsed<u32> {
    spec_uleb32_rec(bytes, pos, 0, 0)
}

/// A signed LEB128 integer of up to 32 bits: decoded like the unsigned
/// form, then sign-extended when bit 6 of the final byte is set.
pub open spec fn spec_sleb32_rec(bytes: Seq<u8>, pos: int, shift: u32, acc: u32) -> Parsed<i32>
    decreases bytes.len() - pos,
{
    if !(0 <= pos < bytes.len()) {
        Err(ParseErr::UnexpectedEof)
    } else {
        let b = bytes[pos];
        if shift >= 32 {
            Err(ParseErr::IntTooLong)
        } else {
            let acc2 = acc | (((b & 0x7f) as u32) << shift);
            if b & 0x80 == 0 {
                let extended = if b & 0x40 != 0 && shift + 7 < 32 {
                    acc2 | (0xffff_ffffu32 << ((shift + 7) as u32))
                } else {
                    acc2
                };
                Ok((as_i32(extended), pos + 1))
            } else if shift <= 25 {
                spec_sleb32_rec(bytes, pos + 1, (shift + 7) as u32, acc2)
            } else {
                spec_sleb32_rec(bytes, pos + 1, 32u32, acc2)
            }
        }
    }
}

pub open spec fn spec_sleb32(bytes: Seq<u8>, pos: int) -> Parsed<i32> {
    spec_sleb32_rec(bytes, pos, 0, 0)
}

/// The 32-bit pattern reinterpreted as a signed value.
pub open spec fn as_i32(x: u32) -> i32 {
    if x > i32::MAX {
        (x - 0x1_0000_0000) as i32
    } else {
        x as i32
    }
}

/// Eight bytes read little-endian into one 64-bit pattern; how an
/// `f64` constant is carried.
pub open spec fn spec_le64(bytes: Seq<u8>, pos: int) -> Parsed<u64> {
    if 0 <= pos && pos + 8 <= bytes.len() {
        Ok((le64_value(bytes.subrange(pos, pos + 8)), pos + 8))
    } else {
        Err(ParseErr::UnexpectedEof)
    }
}

pub open spec fn le64_value(b: Seq<u8>) -> u64
    recommends
        b.len() == 8,
{
    (b[0] as u64) | ((b[1] as u64) << 8) | ((b[2] as u64) << 16) | ((b[3] as u64) << 24) | (
    (b[4] as u64) << 32) | ((b[5] as u64) << 40) | ((b[6] as u64) << 48) | ((b[7] as u64) << 56)
}

pub open spec fn spec_value_type(bytes: Seq<u8>, pos: int) -> Parsed<ValueType> {
    match spec_u8(bytes, pos) {
        Ok((b, p)) => {
            if b == 0x7f {
                Ok((ValueType::I32, p))
            } else if b == 0x7e {
                Ok((ValueType::I64, p))
            } else if b == 0x7d {
                Ok((ValueType::F32, p))
            } else if b == 0x7c {
                Ok((ValueType::F64, p))
            } else {
                Err(ParseErr::BadValueType(b))
            }
        },
        Err(e) => Err(e),
    }
}

pub open spec fn spec_ref_type(bytes: Seq<u8>, pos: int) -> Parsed<RefType> {
    match spec_u8(bytes, pos) {
        Ok((b, p)) => {
            if b == 0x70 {
                Ok((RefType::FuncRef, p))
            } else {
                Err(ParseErr::BadRefType(b))
            }
        },
        Err(e) => Err(e),
    }
}

pub open spec fn spec_mutability(bytes: Seq<u8>, pos: int) -> Parsed<Mutability> {
    match spec_u8(bytes, pos) {
        Ok((b, p)) => {
            if b == 0x00 {
                Ok((Mutability::Constant, p))
            } else if b == 0x01 {
                Ok((Mutability::Variable, p))
            } else {
                Err(ParseErr::BadMutability(b))
            }
        },
        Err(e) => Err(e),
    }
}

/// Limits: a flag byte choosing whether a maximum follows the minimum.
/// Any flag byte other than `1` means no maximum.
pub open spec fn spec_limits(bytes: Seq<u8>, pos: int) -> Parsed<Limits> {
    match spec_u8(bytes, pos) {
        Ok((flag, p)) => match spec_uleb32(bytes, p) {
            Ok((min, p2)) => {
                if flag == 1 {
                    match spec_uleb32(bytes, p2) {
                        Ok((max, p3)) => Ok((Limits { min, max: Some(max) }, p3)),
                        Err(e) => Err(e),
                    }
                } else {
                    Ok((Limits { min, max: None }, p2))
                }
            },
            Err(e) => Err(e),
        },
        Err(e) => Err(e),
    }
}

pub open spec fn spec_table_type(bytes: Seq<u8>, pos: int) -> Parsed<TableType> {
    match spec_ref_type(bytes, pos) {
        Ok((et, p)) => match spec_limits(bytes, p) {
            Ok((lim, p2)) => Ok((TableType { elem_type: et, limits: lim }, p2)),
            Err(e) => Err(e),
        },
        Err(e) => Err(e),
    }
}

pub open spec fn spec_mem_type(bytes: Seq<u8>, pos: int) -> Parsed<MemType> {
    match spec_limits(bytes, pos) {
        Ok((lim, p)) => Ok((MemType { limits: lim }, p)),
        Err(e) => Err(e),
    }
}

pub open spec fn spec_global_type(bytes: Seq<u8>, pos: int) -> Parsed<GlobalType> {
    match spec_value_type(bytes, pos) {
        Ok((vt, p)) => match spec_mutability(bytes, p) {
            Ok((m, p2)) => Ok((GlobalType { value_type: vt, mutability: m }, p2)),
            Err(e) => Err(e),
        },
        Err(e) => Err(e),
    }
}

/// An index: an unsigned LEB128 number.
pub open spec fn spec_idx(bytes: Seq<u8>, pos: int) -> Parsed<usize> {
    match spec_uleb32(bytes, pos) {
        Ok((n, p)) => Ok((n as usize, p)),
        Err(e) => Err(e),
    }
}

pub open spec fn spec_import_descriptor(bytes: Seq<u8>, pos: int) -> Parsed<ImportDescriptor> {
    match spec_u8(bytes, pos) {
        Ok((b, p)) => {
            if b == 0x00 {
                match spec_idx(bytes, p) {
                    Ok((x, p2)) => Ok((ImportDescriptor::Func(TypeIdx(x)), p2)),
                    Err(e) => Err(e),
                }
            } else if b == 0x01 {
                match spec_table_type(bytes, p) {
                    Ok((t, p2)) => Ok((ImportDescriptor::Table(t), p2)),
                    Err(e) => Err(e),
                }
            } else if b == 0x02 {
                match spec_mem_type(bytes, p) {
                    Ok((t, p2)) => Ok((ImportDescriptor::Memory(t), p2)),
                    Err(e) => Err(e),
                }
            } else if b == 0x03 {
                match spec_global_type(bytes, p) {
                    Ok((t, p2)) => Ok((ImportDescriptor::Global(t), p2)),
                    Err(e) => Err(e),
                }
            } else {
                Err(ParseErr::BadImportDescriptor(b))
            }
        },
        Err(e) => Err(e),
    }
}

pub open spec fn spec_export_descriptor(bytes: Seq<u8>, pos: int) -> Parsed<ExportDescriptor> {
    match spec_u8(bytes, pos) {
        Ok((b, p)) => {
            if b == 0x00 {
                match spec_idx(bytes, p) {
                    Ok((x, p2)) => Ok((ExportDescriptor::Func(FuncIdx(x)), p2)),
                    Err(e) => Err(e),
                }
            } else if b == 0x01 {
                match spec_idx(bytes, p) {
                    Ok((x, p2)) => Ok((ExportDescriptor::Table(TableIdx(x)), p2)),
                    Err(e) => Err(e),
                }
            } else if b == 0x02 {
                match spec_idx(bytes, p) {
                    Ok((x, p2)) => Ok((ExportDescriptor::Memory(MemIdx(x)), p2)),
                    Err(e) => Err(e),
                }
            } else if b == 0x03 {
                match spec_idx(bytes, p) {
                    Ok((x, p2)) => Ok((ExportDescriptor::Global(GlobalIdx(x)), p2)),
                    Err(e) => Err(e),
                }
            } else {
                Err(ParseErr::BadExportDescriptor(b))
            }
        },
        Err(e) => Err(e),
    }
}

/// A name: a length-prefixed byte vector decoded as UTF-8.
pub open spec fn spec_name(bytes: Seq<u8>, pos: int) -> Parsed<Seq<char>> {
    match spec_uleb32(bytes, pos) {
        Ok((n, p)) => {
            if p + n <= bytes.len() {
                match utf8_decode(bytes.subrange(p, p + n)) {
                    Some(cs) => Ok((cs, p + n)),
                    None => Err(ParseErr::BadUtf8),
                }
            } else {
                Err(ParseErr::UnexpectedEof)
            }
        },
        Err(e) => Err(e),
    }
}

pub open spec fn spec_import(bytes: Seq<u8>, pos: int) -> Parsed<ImportV> {
    match spec_name(bytes, pos) {
        Ok((m, p)) => match spec_name(bytes, p) {
            Ok((n, p2)) => match spec_import_descriptor(bytes, p2) {
                Ok((d, p3)) => Ok((ImportV { module: m, name: n, descriptor: d }, p3)),
                Err(e) => Err(e),
            },
            Err(e) => Err(e),
        },
        Err(e) => Err(e),
    }
}

pub open spec fn spec_export(bytes: Seq<u8>, pos: int) -> Parsed<ExportV> {
    match spec_name(bytes, pos) {
        Ok((n, p)) => match spec_export_descriptor(bytes, p) {
            Ok((d, p2)) => Ok((ExportV { name: n, descriptor: d }, p2)),
            Err(e) => Err(e),
        },
        Err(e) => Err(e),
    }
}

/// Only the empty block type is recognised.
pub open spec fn spec_block_type(bytes: Seq<u8>, pos: int) -> Parsed<()> {
    match spec_u8(bytes, pos) {
        Ok((b, p)) => {
            if b == 0x40 {
                Ok(((), p))
            } else {
                Err(ParseErr::BadBlockType(b))
            }
        },
        Err(e) => Err(e),
    }
}

pub open spec fn spec_memarg(bytes: Seq<u8>, pos: int) -> Parsed<MemArg> {
    match spec_idx(bytes, pos) {
        Ok((align, p)) => match spec_idx(bytes, p) {
            Ok((offset, p2)) => Ok((MemArg { align, offset }, p2)),
            Err(e) => Err(e),
        },
        Err(e) => Err(e),
    }
}

/// One instruction: an opcode byte, its immediates, and, for the
/// structured ones, nested bodies each ending at a sentinel.
pub open spec fn spec_instr(bytes: Seq<u8>, pos: int) -> Parsed<InstrV>
    decreases bytes.len() - pos, 0nat,
{
    if !(0 <= pos < bytes.len()) {
        Err(ParseErr::UnexpectedEof)
    } else {
        let op = bytes[pos];
        let p = pos + 1;
        if op == 0x00 {
            Ok((InstrV::Unreachable, p))
        } else if op == 0x02 || op == 0x03 {
            match spec_block_type(bytes, p) {
                Ok((_, p2)) => {
                    if pos < p2 && p2 <= bytes.len() {
                        match spec_instr_seq(bytes, p2) {
                            Ok((body, p3)) => {
                                if op == 0x02 {
                                    Ok((InstrV::Block(body), p3))
                                } else {
                                    Ok((InstrV::Loop(body), p3))
                                }
                            },
                            Err(e) => Err(e),
                        }
                    } else {
                        Err(ParseErr::UnexpectedEof)
                    }
                },
                Err(e) => Err(e),
            }
        } else if op == 0x04 {
            match spec_block_type(bytes, p) {
                Ok((_, p2)) => {
                    if pos < p2 && p2 <= bytes.len() {
                        match spec_instr_seq(bytes, p2) {
                            Ok((then_body, p3)) => {
                                if pos < p3 && p3 <= bytes.len() {
                                    match spec_instr_seq(bytes, p3) {
                                        Ok((else_body, p4)) => Ok(
                                            (InstrV::If(then_body, else_body), p4),
                                        ),
                                        Err(e) => Err(e),
                                    }
                                } else {
                                    Err(ParseErr::UnexpectedEof)
                                }
                            },
                            Err(e) => Err(e),
                        }
                    } else {
                        Err(ParseErr::UnexpectedEof)
                    }
                },
                Err(e) => Err(e),
            }
        } else if op == 0x0C {
            match spec_idx(bytes, p) {
                Ok((l, p2)) => Ok((InstrV::Branch(l), p2)),
                Err(e) => Err(e),
            }
        } else if op == 0x0D {
            match spec_idx(bytes, p) {
                Ok((l, p2)) => Ok((InstrV::BranchIf(l), p2)),
                Err(e) => Err(e),
            }
        } else if op == 0x0F {
            Ok((InstrV::Return, p))
        } else if op == 0x10 {
            match spec_idx(bytes, p) {
                Ok((f, p2)) => Ok((InstrV::Call(f), p2)),
                Err(e) => Err(e),
            }
        } else if op == 0x20 {
            match spec_idx(bytes, p) {
                Ok((x, p2)) => Ok((InstrV::LocalGet(x), p2)),
                Err(e) => Err(e),
            }
        } else if op == 0x21 {
            match spec_idx(bytes, p) {
                Ok((x, p2)) => Ok((InstrV::LocalSet(x), p2)),
                Err(e) => Err(e),
            }
        } else if op == 0x23 {
            match spec_idx(bytes, p) {
                Ok((x, p2)) => Ok((InstrV::GlobalGet(x), p2)),
                Err(e) => Err(e),
            }
        } else if op == 0x24 {
            match spec_idx(bytes, p) {
                Ok((x, p2)) => Ok((InstrV::GlobalSet(x), p2)),
                Err(e) => Err(e),
            }
        } else if op == 0x28 {
            match spec_memarg(bytes, p) {
                Ok((m, p2)) => Ok((InstrV::I32Load(m), p2)),
                Err(e) => Err(e),
            }
        } else if op == 0x36 {
            match spec_memarg(bytes, p) {
                Ok((m, p2)) => Ok((InstrV::I32Store(m), p2)),
                Err(e) => Err(e),
            }
        } else if op == 0x41 {
            match spec_sleb32(bytes, p) {
                Ok((v, p2)) => Ok((InstrV::I32Const(v), p2)),
                Err(e) => Err(e),
            }
        } else if op == 0x44 {
            match spec_le64(bytes, p) {
                Ok((bits, p2)) => Ok((InstrV::F64Const(bits), p2)),
                Err(e) => Err(e),
            }
        } else if op == 0x46 {
            Ok((InstrV::I32Eq, p))
        } else if op == 0x4A {
            Ok((InstrV::I32GtSigned, p))
        } else if op == 0x63 {
            Ok((InstrV::F64Lt, p))
        } else if op == 0x64 {
            Ok((InstrV::F64Gt, p))
        } else if op == 0x66 {
            Ok((InstrV::F64Ge, p))
        } else if op == 0x6A {
            Ok((InstrV::I32Add, p))
        } else if op == 0x6B {
            Ok((InstrV::I32Sub, p))
        } else if op == 0x6C {
            Ok((InstrV::I32Mul, p))
        } else if op == 0xA0 {
            Ok((InstrV::F64Add, p))
        } else if op == 0xA1 {
            Ok((InstrV::F64Sub, p))
        } else if op == 0xA2 {
            Ok((InstrV::F64Mul, p))
        } else if op == 0xA3 {
            Ok((InstrV::F64Div, p))
        } else {
            Err(ParseErr::BadOpcode { opcode: op, offset: pos as usize })
        }
    }
}

/// An instruction sequence: instructions until an `end` (`0x0B`) or
/// `else` (`0x05`) sentinel, which is consumed.
pub open spec fn spec_instr_seq(bytes: Seq<u8>, pos: int) -> Parsed<Seq<InstrV>>
    decreases bytes.len() - pos, 1nat,
{
    if !(0 <= pos < bytes.len()) {
        Err(ParseErr::UnexpectedEof)
    } else {
        let op = bytes[pos];
        if op == 0x0B || op == 0x05 {
            Ok((Seq::empty(), pos + 1))
        } else {
            match spec_instr(bytes, pos) {
                Ok((iv, p2)) => {
                    if pos < p2 && p2 <= bytes.len() {
                        match spec_instr_seq(bytes, p2) {
                            Ok((rest, p3)) => Ok((seq![iv] + rest, p3)),
                            Err(e) => Err(e),
                        }
                    } else {
                        Err(ParseErr::UnexpectedEof)
                    }
                },
                Err(e) => Err(e),
            }
        }
    }
}

pub open spec fn spec_global(bytes: Seq<u8>, pos: int) -> Parsed<GlobalV> {
    match spec_global_type(bytes, pos) {
        Ok((gt, p)) => match spec_instr_seq(bytes, p) {
            Ok((expr, p2)) => Ok((GlobalV { global_type: gt, expression: expr }, p2)),
            Err(e) => Err(e),
        },
        Err(e) => Err(e),
    }
}

/// One run of local declarations: a count and a value type.
pub open spec fn spec_locals_run(bytes: Seq<u8>, pos: int) -> Parsed<Locals> {
    match spec_uleb32(bytes, pos) {
        Ok((n, p)) => match spec_value_type(bytes, p) {
            Ok((t, p2)) => Ok((Locals { n, t }, p2)),
            Err(e) => Err(e),
        },
        Err(e) => Err(e),
    }
}

/// The expansion of local-declaration runs: each `(n, t)` contributes
/// `n` copies of `t`, in order.
pub open spec fn expand_locals(runs: Seq<Locals>) -> Seq<ValueType>
    decreases runs.len(),
{
    if runs.len() == 0 {
        Seq::empty()
    } else {
        Seq::new(runs[0].n as nat, |j: int| runs[0].t) + expand_locals(runs.drop_first())
    }
}

// Vectors: a LEB128 count followed by that many elements.

pub open spec fn spec_vec_items<T>(
    elem: spec_fn(Seq<u8>, int) -> Parsed<T>,
    bytes: Seq<u8>,
    pos: int,
    n: nat,
) -> Parsed<Seq<T>>
    decreases n,
{
    if n == 0 {
        Ok((Seq::empty(), pos))
    } else {
        match elem(bytes, pos) {
            Ok((v, p2)) => match spec_vec_items(elem, bytes, p2, (n - 1) as nat) {
                Ok((vs, p3)) => Ok((seq![v] + vs, p3)),
                Err(e) => Err(e),
            },
            Err(e) => Err(e),
        }
    }
}

pub open spec fn spec_vec<T>(
    elem: spec_fn(Seq<u8>, int) -> Parsed<T>,
    bytes: Seq<u8>,
    pos: int,
) -> Parsed<Seq<T>> {
    match spec_uleb32(bytes, pos) {
        Ok((n, p)) => spec_vec_items(elem, bytes, p, n as nat),
        Err(e) => Err(e),
    }
}

/// A vector holds exactly as many elements as its count declared.
pub proof fn lemma_vec_count<T>(
    elem: spec_fn(Seq<u8>, int) -> Parsed<T>,
    bytes: Seq<u8>,
    pos: int,
    n: nat,
)
    ensures
        (spec_vec_items(elem, bytes, pos, n) matches Ok(r) ==> r.0.len() == n),
    decreases n,
{
    if n > 0 {
        match elem(bytes, pos) {
            Ok((v, p2)) => {
                lemma_vec_count(elem, bytes, p2, (n - 1) as nat);
            },
            Err(_) => {},
        }
    }
}

/// A code entry: a declared size, local runs expanded to one entry per
/// local, and the body; the entry must occupy exactly its declared
/// size.
pub open spec fn spec_code(bytes: Seq<u8>, pos: int) -> Parsed<CodeV> {
    match spec_uleb32(bytes, pos) {
        Ok((size, start)) => match spec_vec(elem_locals_run(), bytes, start) {
            Ok((runs, p2)) => match spec_instr_seq(bytes, p2) {
                Ok((body, p3)) => {
                    if p3 - start == size {
                        Ok((CodeV { locals: expand_locals(runs), body }, p3))
                    } else {
                        Err(ParseErr::SizeMismatch)
                    }
                },
                Err(e) => Err(e),
            },
            Err(e) => Err(e),
        },
        Err(e) => Err(e),
    }
}

pub open spec fn spec_func_type(bytes: Seq<u8>, pos: int) -> Parsed<FuncTypeV> {
    match spec_u8(bytes, pos) {
        Ok((marker, p)) => {
            if marker != 0x60 {
                Err(ParseErr::BadFuncTypeMarker(marker))
            } else {
                match spec_vec(elem_value_type(), bytes, p) {
                    Ok((params, p2)) => match spec_vec(elem_value_type(), bytes, p2) {
                        Ok((results, p3)) => Ok(
                            (FuncTypeV { parameter_types: params, result_types: results }, p3),
                        ),
                        Err(e) => Err(e),
                    },
                    Err(e) => Err(e),
                }
            }
        },
        Err(e) => Err(e),
    }
}

pub open spec fn spec_type_idx(bytes: Seq<u8>, pos: int) -> Parsed<TypeIdx> {
    match spec_idx(bytes, pos) {
        Ok((x, p)) => Ok((TypeIdx(x), p)),
        Err(e) => Err(e),
    }
}

/// One section: an id byte, a size, and a body that must occupy exactly
/// `size` bytes. Unrecognised-but-valid ids are skipped by moving the
/// cursor `size` bytes ahead. The clean end of the stream, right where
/// an id would be, is `Eof`.
pub open spec fn spec_section(bytes: Seq<u8>, pos: int) -> Parsed<SectionV> {
    if !(0 <= pos < bytes.len()) {
        Err(ParseErr::Eof)
    } else {
        let id = bytes[pos];
        match spec_uleb32(bytes, pos + 1) {
            Ok((size, start)) => {
                if id == 0 || id == 4 || id == 8 || id == 9 || id == 11 {
                    if start + size > usize::MAX {
                        Err(ParseErr::OffsetOverflow)
                    } else {
                        let kind = if id == 0 {
                            SectionV::Custom
                        } else if id == 4 {
                            SectionV::Table
                        } else if id == 8 {
                            SectionV::Start
                        } else if id == 9 {
                            SectionV::Element
                        } else {
                            SectionV::Data
                        };
                        Ok((kind, start + size))
                    }
                } else if id == 1 {
                    match spec_vec(elem_func_type(), bytes, start) {
                        Ok((v, p3)) => {
                            if p3 - start == size {
                                Ok((SectionV::Type(v), p3))
                            } else {
                                Err(ParseErr::SizeMismatch)
                            }
                        },
                        Err(e) => Err(e),
                    }
                } else if id == 2 {
                    match spec_vec(elem_import(), bytes, start) {
                        Ok((v, p3)) => {
                            if p3 - start == size {
                                Ok((SectionV::Import(v), p3))
                            } else {
                                Err(ParseErr::SizeMismatch)
                            }
                        },
                        Err(e) => Err(e),
                    }
                } else if id == 3 {
                    match spec_vec(elem_type_idx(), bytes, start) {
                        Ok((v, p3)) => {
                            if p3 - start == size {
                                Ok((SectionV::Function(v), p3))
                            } else {
                                Err(ParseErr::SizeMismatch)
                            }
                        },
                        Err(e) => Err(e),
                    }
                } else if id == 5 {
                    match spec_vec(elem_limits(), bytes, start) {
                        Ok((v, p3)) => {
                            if p3 - start == size {
                                Ok((SectionV::Memory(v), p3))
                            } else {
                                Err(ParseErr::SizeMismatch)
                            }
                        },
                        Err(e) => Err(e),
                    }
                } else if id == 6 {
                    match spec_vec(elem_global(), bytes, start) {
                        Ok((v, p3)) => {
                            if p3 - start == size {
                                Ok((SectionV::Global(v), p3))
                            } else {
                                Err(ParseErr::SizeMismatch)
                            }
                        },
                        Err(e) => Err(e),
                    }
                } else if id == 7 {
                    match spec_vec(elem_export(), bytes, start) {
                        Ok((v, p3)) => {
                            if p3 - start == size {
                                Ok((SectionV::Export(v), p3))
                            } else {
                                Err(ParseErr::SizeMismatch)
                            }
                        },
                        Err(e) => Err(e),
                    }
                } else if id == 10 {
                    match spec_vec(elem_code(), bytes, start) {
                        Ok((v, p3)) => {
                            if p3 - start == size {
                                Ok((SectionV::Code(v), p3))
                            } else {
                                Err(ParseErr::SizeMismatch)
                            }
                        },
                        Err(e) => Err(e),
                    }
                } else {
                    Err(ParseErr::BadSectionId(id))
                }
            },
            Err(e) => Err(e),
        }
    }
}

/// All sections until the clean end of the stream.
pub open spec fn spec_sections(bytes: Seq<u8>, pos: int) -> Parsed<Seq<SectionV>>
    decreases bytes.len() - pos,
{
    match spec_section(bytes, pos) {
        Err(ParseErr::Eof) => Ok((Seq::empty(), pos)),
        Err(e) => Err(e),
        Ok((s, p2)) => {
            if p2 >= bytes.len() {
                Ok((seq![s], p2))
            } else if pos < p2 {
                match spec_sections(bytes, p2) {
                    Ok((ss, p3)) => Ok((seq![s] + ss, p3)),
                    Err(e) => Err(e),
                }
            } else {
                Err(ParseErr::UnexpectedEof)
            }
        },
    }
}

/// The preamble: the magic bytes `\0asm`, then version `[1, 0, 0, 0]`.
pub open spec fn spec_preamble(bytes: Seq<u8>, pos: int) -> Parsed<Seq<u8>> {
    if pos + 4 > bytes.len() {
        Err(ParseErr::UnexpectedEof)
    } else if !(bytes[pos] == 0 && bytes[pos + 1] == 0x61 && bytes[pos + 2] == 0x73 && bytes[pos
        + 3] == 0x6d) {
        Err(ParseErr::BadMagic)
    } else if pos + 8 > bytes.len() {
        Err(ParseErr::UnexpectedEof)
    } else if !(bytes[pos + 4] == 1 && bytes[pos + 5] == 0 && bytes[pos + 6] == 0 && bytes[pos + 7]
        == 0) {
        Err(ParseErr::BadVersion)
    } else {
        Ok((bytes.subrange(pos, pos + 8), pos + 8))
    }
}

/// The fold of parsed sections into the module description: each
/// recognised section's contents replace the matching component, in
/// order, so a later section of the same kind wins.
pub open spec fn spec_fold_sections(m: ModuleV, ss: Seq<SectionV>) -> ModuleV
    decreases ss.len(),
{
    if ss.len() == 0 {
        m
    } else {
        let m2 = match ss[0] {
            SectionV::Type(v) => ModuleV { types: v, ..m },
            SectionV::Import(v) => ModuleV { imports: v, ..m },
            SectionV::Function(v) => ModuleV { functions: v, ..m },
            SectionV::Memory(v) => ModuleV { memories: v, ..m },
            SectionV::Global(v) => ModuleV { globals: v, ..m },
            SectionV::Export(v) => ModuleV { exports: v, ..m },
            SectionV::Code(v) => ModuleV { codes: v, ..m },
            _ => m,
        };
        spec_fold_sections(m2, ss.drop_first())
    }
}

/// The empty module a parse starts from, under the given preamble.
pub open spec fn spec_empty_module(preamble: Seq<u8>) -> ModuleV {
    ModuleV {
        magic: preamble.take(4),
        version: preamble.skip(4),
        types: Seq::empty(),
        imports: Seq::empty(),
        functions: Seq::empty(),
        memories: Seq::empty(),
        globals: Seq::empty(),
        exports: Seq::empty(),
        codes: Seq::empty(),
    }
}

/// The whole module: the preamble, then sections until the stream's
/// clean end, folded together.
pub open spec fn spec_module(bytes: Seq<u8>) -> Result<ModuleV, ParseErr> {
    match spec_preamble(bytes, 0) {
        Ok((preamble, p)) => match spec_sections(bytes, p) {
            Ok((ss, _)) => Ok(spec_fold_sections(spec_empty_module(preamble), ss)),
            Err(e) => Err(e),
        },
        Err(e) => Err(e),
    }
}

// ---------------------------------------------------------------------
// Partial-parse facts the decoder's loops rest on.

/// A partial parse of a vector: `i` of `n` elements read, reaching
/// `acc` and position `cur` from `start`.
pub open spec fn vec_progress<T>(
    elem: spec_fn(Seq<u8>, int) -> Parsed<T>,
    bytes: Seq<u8>,
    start: int,
    n: nat,
    acc: Seq<T>,
    i: nat,
    cur: int,
) -> bool {
    i <= n && (spec_vec_items(elem, bytes, start, n) == (match spec_vec_items(
        elem,
        bytes,
        cur,
        (n - i) as nat,
    ) {
        Ok(rest) => Ok::<(Seq<T>, int), ParseErr>((acc + rest.0, rest.1)),
        Err(e) => Err::<(Seq<T>, int), ParseErr>(e),
    }))
}

pub proof fn lemma_vec_progress_zero<T>(
    elem: spec_fn(Seq<u8>, int) -> Parsed<T>,
    bytes: Seq<u8>,
    start: int,
    n: nat,
)
    ensures
        vec_progress(elem, bytes, start, n, Seq::empty(), 0, start),
{
    match spec_vec_items(elem, bytes, start, n) {
        Ok(rest) => {
            assert(Seq::<T>::empty() + rest.0 =~= rest.0);
            assert(Ok::<(Seq<T>, int), ParseErr>((Seq::empty() + rest.0, rest.1)) == Ok::<(
                Seq<T>,
                int,
            ), ParseErr>(rest));
        },
        Err(_) => {},
    }
}

pub proof fn lemma_vec_progress_step<T>(
    elem: spec_fn(Seq<u8>, int) -> Parsed<T>,
    bytes: Seq<u8>,
    start: int,
    n: nat,
    acc: Seq<T>,
    i: nat,
    cur: int,
    v: T,
    p2: int,
)
    requires
        vec_progress(elem, bytes, start, n, acc, i, cur),
        i < n,
        elem(bytes, cur) == Ok::<(T, int), ParseErr>((v, p2)),
    ensures
        vec_progress(elem, bytes, start, n, acc.push(v), (i + 1) as nat, p2),
{
    assert(spec_vec_items(elem, bytes, cur, (n - i) as nat) == (match spec_vec_items(
        elem,
        bytes,
        p2,
        (n - i - 1) as nat,
    ) {
        Ok(rest) => Ok::<(Seq<T>, int), ParseErr>((seq![v] + rest.0, rest.1)),
        Err(e) => Err::<(Seq<T>, int), ParseErr>(e),
    }));
    match spec_vec_items(elem, bytes, p2, (n - i - 1) as nat) {
        Ok(rest) => {
            assert(acc + (seq![v] + rest.0) =~= acc.push(v) + rest.0);
        },
        Err(_) => {},
    }
}

pub proof fn lemma_vec_progress_fail<T>(
    elem: spec_fn(Seq<u8>, int) -> Parsed<T>,
    bytes: Seq<u8>,
    start: int,
    n: nat,
    acc: Seq<T>,
    i: nat,
    cur: int,
    e: ParseErr,
)
    requires
        vec_progress(elem, bytes, start, n, acc, i, cur),
        i < n,
        elem(bytes, cur) == Err::<(T, int), ParseErr>(e),
    ensures
        spec_vec_items(elem, bytes, start, n) == Err::<(Seq<T>, int), ParseErr>(e),
{
}

pub proof fn lemma_vec_progress_finish<T>(
    elem: spec_fn(Seq<u8>, int) -> Parsed<T>,
    bytes: Seq<u8>,
    start: int,
    n: nat,
    acc: Seq<T>,
    cur: int,
)
    requires
        vec_progress(elem, bytes, start, n, acc, n, cur),
    ensures
        spec_vec_items(elem, bytes, start, n) == Ok::<(Seq<T>, int), ParseErr>((acc, cur)),
{
    assert(acc + Seq::<T>::empty() =~= acc);
}

/// A partial parse of an instruction sequence: the instructions read so
/// far, reaching `acc` and position `cur` from `start`.
pub open spec fn instrs_progress(
    bytes: Seq<u8>,
    start: int,
    acc: Seq<InstrV>,
    cur: int,
) -> bool {
    spec_instr_seq(bytes, start) == (match spec_instr_seq(bytes, cur) {
        Ok(rest) => Ok::<(Seq<InstrV>, int), ParseErr>((acc + rest.0, rest.1)),
        Err(e) => Err::<(Seq<InstrV>, int), ParseErr>(e),
    })
}

pub proof fn lemma_instrs_progress_zero(bytes: Seq<u8>, start: int)
    ensures
        instrs_progress(bytes, start, Seq::empty(), start),
{
    match spec_instr_seq(bytes, start) {
        Ok(rest) => {
            assert(Seq::<InstrV>::empty() + rest.0 =~= rest.0);
            assert(Ok::<(Seq<InstrV>, int), ParseErr>((Seq::empty() + rest.0, rest.1)) == Ok::<(
                Seq<InstrV>,
                int,
            ), ParseErr>(rest));
        },
        Err(_) => {},
    }
}

pub proof fn lemma_instrs_progress_step(
    bytes: Seq<u8>,
    start: int,
    acc: Seq<InstrV>,
    cur: int,
    iv: InstrV,
    p2: int,
)
    requires
        instrs_progress(bytes, start, acc, cur),
        0 <= cur < bytes.len(),
        bytes[cur] != 0x0B,
        bytes[cur] != 0x05,
        spec_instr(bytes, cur) == Ok::<(InstrV, int), ParseErr>((iv, p2)),
        cur < p2 <= bytes.len(),
    ensures
        instrs_progress(bytes, start, acc.push(iv), p2),
{
    assert(spec_instr_seq(bytes, cur) == (match spec_instr_seq(bytes, p2) {
        Ok(rest) => Ok::<(Seq<InstrV>, int), ParseErr>((seq![iv] + rest.0, rest.1)),
        Err(e) => Err::<(Seq<InstrV>, int), ParseErr>(e),
    }));
    match spec_instr_seq(bytes, p2) {
        Ok(rest) => {
            assert(acc + (seq![iv] + rest.0) =~= acc.push(iv) + rest.0);
        },
        Err(_) => {},
    }
}

pub proof fn lemma_instrs_progress_fail(
    bytes: Seq<u8>,
    start: int,
    acc: Seq<InstrV>,
    cur: int,
    e: ParseErr,
)
    requires
        instrs_progress(bytes, start, acc, cur),
        0 <= cur < bytes.len() ==> bytes[cur] != 0x0B && bytes[cur] != 0x05 && spec_instr(
            bytes,
            cur,
        ) == Err::<(InstrV, int), ParseErr>(e),
        !(0 <= cur < bytes.len()) ==> e == ParseErr::UnexpectedEof,
    ensures
        spec_instr_seq(bytes, start) == Err::<(Seq<InstrV>, int), ParseErr>(e),
{
}

pub proof fn lemma_instrs_progress_finish(
    bytes: Seq<u8>,
    start: int,
    acc: Seq<InstrV>,
    cur: int,
)
    requires
        instrs_progress(bytes, start, acc, cur),
        0 <= cur < bytes.len(),
        bytes[cur] == 0x0B || bytes[cur] == 0x05,
    ensures
        spec_instr_seq(bytes, start) == Ok::<(Seq<InstrV>, int), ParseErr>((acc, cur + 1)),
{
    assert(spec_instr_seq(bytes, cur) == Ok::<(Seq<InstrV>, int), ParseErr>(
        (Seq::empty(), cur + 1),
    ));
    assert(acc + Seq::<InstrV>::empty() =~= acc);
}

/// Viewing a pushed instruction appends its view.
pub proof fn lemma_view_instrs_push(s: Seq<Instruction>, x: Instruction)
    ensures
        view_instrs(s.push(x)) == view_instrs(s).push(view_instr(x)),
{
    assert(s.push(x).drop_last() =~= s);
    assert(s.push(x).last() == x);
}

/// Expanding local runs, one run at a time from the back.
pub proof fn lemma_expand_locals_snoc(runs: Seq<Locals>, x: Locals)
    ensures
        expand_locals(runs.push(x)) == expand_locals(runs) + Seq::new(x.n as nat, |j: int| x.t),
    decreases runs.len(),
{
    if runs.len() == 0 {
        assert(runs.push(x)[0] == x);
        assert(runs.push(x).drop_first() =~= Seq::<Locals>::empty());
        assert(expand_locals(Seq::empty()) == Seq::<ValueType>::empty());
        assert(Seq::new(x.n as nat, |j: int| x.t) + expand_locals(Seq::empty()) =~= Seq::<
            ValueType,
        >::empty() + Seq::new(x.n as nat, |j: int| x.t));
    } else {
        assert(runs.push(x)[0] == runs[0]);
        assert(runs.push(x).drop_first() =~= runs.drop_first().push(x));
        lemma_expand_locals_snoc(runs.drop_first(), x);
        assert(Seq::new(runs[0].n as nat, |j: int| runs[0].t) + (expand_locals(runs.drop_first())
            + Seq::new(x.n as nat, |j: int| x.t)) =~= (Seq::new(runs[0].n as nat, |j: int| runs[0].t)
            + expand_locals(runs.drop_first())) + Seq::new(x.n as nat, |j: int| x.t));
    }
}

// ---------------------------------------------------------------------
// Round-trip facts about the format.

/// Every parsed section ends exactly at its declared end: the position
/// after the section is the position after its header plus the size the
/// header declared.
pub proof fn lemma_section_end_matches_header(bytes: Seq<u8>, pos: int)
    requires
        spec_section(bytes, pos) is Ok,
    ensures
        (spec_uleb32(bytes, pos + 1) matches Ok(h) ==> (spec_section(bytes, pos) matches Ok(s)
            ==> s.1 == h.1 + h.0)),
{
}

/// Every parsed code entry occupies exactly its declared size: the
/// byte count from after the size field to just past the terminal
/// sentinel equals the declared size.
pub proof fn lemma_code_size_exact(bytes: Seq<u8>, pos: int)
    requires
        spec_code(bytes, pos) is Ok,
    ensures
        (spec_uleb32(bytes, pos) matches Ok(h) ==> (spec_code(bytes, pos) matches Ok(c) ==> c.1
            == h.1 + h.0)),
{
}

} // verus!
