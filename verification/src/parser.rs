//! The binary decoder: a cursor over the module bytes and one parse
//! function per encoded shape, each verified to return exactly what the
//! format specification in [`crate::format`] says — the same value, the
//! same final position, and the same error on the same input.
use vstd::prelude::*;

use crate::format::{
    as_i32, elem_code, elem_export, elem_func_type, elem_global, elem_import, elem_limits,
    elem_locals_run, elem_type_idx, elem_value_type, expand_locals, instrs_progress,
    le64_value, lemma_expand_locals_snoc, lemma_instrs_progress_fail,
    lemma_instrs_progress_finish, lemma_instrs_progress_step, lemma_instrs_progress_zero,
    lemma_vec_progress_fail, lemma_vec_progress_finish, lemma_vec_progress_step,
    lemma_vec_progress_zero, lemma_view_instrs_push, spec_block_type, spec_code, spec_export,
    spec_export_descriptor, spec_fold_sections, spec_func_type, spec_global, spec_global_type,
    spec_idx, spec_import, spec_import_descriptor, spec_instr, spec_instr_seq, spec_le64,
    spec_limits, spec_locals_run, spec_memarg, spec_module, spec_mutability, spec_name,
    spec_preamble, spec_ref_type, spec_section, spec_sections, spec_sleb32, spec_sleb32_rec,
    spec_type_idx, spec_uleb32, spec_uleb32_rec, spec_value_type, spec_vec,
    spec_vec_items, utf8_decode, vec_progress, view_code, view_codes, view_export, view_exports,
    view_func_type, view_func_types, view_global, view_globals, view_import, view_imports,
    view_instr, view_instrs, view_module, view_section, view_sections, CodeV, ExportV, FuncTypeV,
    GlobalV, ImportV, InstrV, ParseErr, SectionV,
};
use crate::wasm::{
    BlockType, Code, Export, ExportDescriptor, FuncIdx, FuncType, Global, GlobalIdx, GlobalType, Import,
    ImportDescriptor, Instruction, LabelIdx, Limits, LocalIdx, Locals, MemArg, MemIdx, MemType,
    Module, Mutability, Name, Preamble, RefType, Section, TableIdx, TableType, TypeIdx, ValueType,
};

verus! {

/// A cursor over the module bytes. The position may point past the end
/// — skipping a section moves it by the declared size, wherever that
/// lands — and every read checks it.
pub struct Reader<'a> {
    pub bytes: &'a [u8],
    pub pos: usize,
}

impl<'a> Reader<'a> {
    /// A cursor at the start of the given bytes.
    pub fn new(bytes: &'a [u8]) -> (r: Reader<'a>)
        ensures
            r.bytes == bytes,
            r.pos == 0,
    {
        Reader { bytes, pos: 0 }
    }

    /// Reads one byte and advances past it; the stream's end is
    /// `UnexpectedEof` here, and the callers that may meet a clean end
    /// check for it before reading.
    pub fn read_u8(&mut self) -> (r: Result<u8, ParseErr>)
        ensures
            final(self).bytes == old(self).bytes,
            old(self).pos < old(self).bytes@.len() ==> r == Ok::<u8, ParseErr>(
                old(self).bytes@[old(self).pos as int],
            ) && final(self).pos == old(self).pos + 1,
            old(self).pos >= old(self).bytes@.len() ==> r == Err::<u8, ParseErr>(
                ParseErr::UnexpectedEof,
            ) && final(self).pos == old(self).pos,
    {
        if self.pos < self.bytes.len() {
            let b = self.bytes[self.pos];
            self.pos = self.pos + 1;
            Ok(b)
        } else {
            Err(ParseErr::UnexpectedEof)
        }
    }

    /// The byte under the cursor, without advancing.
    pub fn peek(&self) -> (r: Result<u8, ParseErr>)
        ensures
            self.pos < self.bytes@.len() ==> r == Ok::<u8, ParseErr>(
                self.bytes@[self.pos as int],
            ),
            self.pos >= self.bytes@.len() ==> r == Err::<u8, ParseErr>(ParseErr::UnexpectedEof),
    {
        if self.pos < self.bytes.len() {
            Ok(self.bytes[self.pos])
        } else {
            Err(ParseErr::UnexpectedEof)
        }
    }
}

/// Relies on `String::from_utf8`: the string holding exactly the given
/// bytes when they are valid UTF-8, refusal otherwise. Which byte
/// sequences are valid and what characters they carry depend on the
/// bytes alone; both are named by [`utf8_decode`].
#[verifier::external_body]
fn string_from_utf8(bytes: Vec<u8>) -> (r: Result<String, ParseErr>)
    ensures
        (r matches Ok(s) ==> utf8_decode(bytes@) == Some(s@)),
        (r matches Err(e) ==> e == ParseErr::BadUtf8 && utf8_decode(bytes@) is None),
{
    match String::from_utf8(bytes) {
        Ok(s) => Ok(s),
        Err(_) => Err(ParseErr::BadUtf8),
    }
}

/// An unsigned LEB128 integer of up to 32 bits.
#[verifier::loop_isolation(false)]
pub fn parse_leb128_u32(r: &mut Reader) -> (res: Result<u32, ParseErr>)
    ensures
        final(r).bytes == old(r).bytes,
        (res matches Ok(v) ==> spec_uleb32(old(r).bytes@, old(r).pos as int) == Ok::<(u32, int), ParseErr>(
            (v, final(r).pos as int),
        ) && old(r).pos < final(r).pos <= old(r).bytes@.len()),
        (res matches Err(e) ==> spec_uleb32(old(r).bytes@, old(r).pos as int) == Err::<(u32, int), ParseErr>(
            e,
        )),
{
    let ghost bytes = r.bytes@;
    let ghost pos0 = r.pos as int;
    if r.pos >= r.bytes.len() {
        return Err(ParseErr::UnexpectedEof);
    }
    let mut result: u32 = 0;
    let mut shift: u32 = 0;
    loop
        invariant
            r.bytes@ == bytes,
            pos0 <= r.pos as int <= bytes.len(),
            shift <= 32,
            spec_uleb32_rec(bytes, pos0, 0, 0) == spec_uleb32_rec(bytes, r.pos as int, shift, result),
        decreases bytes.len() - r.pos,
    {
        let value = match r.read_u8() {
            Ok(v) => v,
            Err(e) => {
                return Err(e);
            },
        };
        if shift >= 32 {
            return Err(ParseErr::IntTooLong);
        }
        result = result | (((value & 0x7f) as u32) << shift);
        if value & 0x80 == 0 {
            return Ok(result);
        }
        if shift <= 25 {
            shift = shift + 7;
        } else {
            shift = 32;
        }
    }
}

/// A signed LEB128 integer of up to 32 bits, sign-extended from bit 6
/// of its final byte.
#[verifier::loop_isolation(false)]
pub fn parse_leb128_i32(r: &mut Reader) -> (res: Result<i32, ParseErr>)
    ensures
        final(r).bytes == old(r).bytes,
        (res matches Ok(v) ==> spec_sleb32(old(r).bytes@, old(r).pos as int) == Ok::<(i32, int), ParseErr>(
            (v, final(r).pos as int),
        ) && old(r).pos < final(r).pos <= old(r).bytes@.len()),
        (res matches Err(e) ==> spec_sleb32(old(r).bytes@, old(r).pos as int) == Err::<(i32, int), ParseErr>(
            e,
        )),
{
    let ghost bytes = r.bytes@;
    let ghost pos0 = r.pos as int;
    if r.pos >= r.bytes.len() {
        return Err(ParseErr::UnexpectedEof);
    }
    let mut acc: u32 = 0;
    let mut shift: u32 = 0;
    loop
        invariant
            r.bytes@ == bytes,
            pos0 <= r.pos as int <= bytes.len(),
            shift <= 32,
            spec_sleb32_rec(bytes, pos0, 0, 0) == spec_sleb32_rec(bytes, r.pos as int, shift, acc),
        decreases bytes.len() - r.pos,
    {
        let value = match r.read_u8() {
            Ok(v) => v,
            Err(e) => {
                return Err(e);
            },
        };
        if shift >= 32 {
            return Err(ParseErr::IntTooLong);
        }
        acc = acc | (((value & 0x7f) as u32) << shift);
        if value & 0x80 == 0 {
            let extended = if value & 0x40 != 0 && shift + 7 < 32 {
                acc | (0xffff_ffffu32 << (shift + 7))
            } else {
                acc
            };
            let signed: i32 = if extended <= 0x7fff_ffffu32 {
                extended as i32
            } else {
                (extended - 0x8000_0000u32) as i32 + i32::MIN
            };
            proof {
                assert(signed == as_i32(extended));
            }
            return Ok(signed);
        }
        if shift <= 25 {
            shift = shift + 7;
        } else {
            shift = 32;
        }
    }
}

/// Eight little-endian bytes as one 64-bit pattern; how an `f64`
/// constant is read.
pub fn parse_f64_bits(r: &mut Reader) -> (res: Result<u64, ParseErr>)
    ensures
        final(r).bytes == old(r).bytes,
        (res matches Ok(v) ==> spec_le64(old(r).bytes@, old(r).pos as int) == Ok::<(u64, int), ParseErr>(
            (v, final(r).pos as int),
        ) && old(r).pos < final(r).pos <= old(r).bytes@.len()),
        (res matches Err(e) ==> spec_le64(old(r).bytes@, old(r).pos as int) == Err::<(u64, int), ParseErr>(
            e,
        )),
{
    let ghost bytes = r.bytes@;
    let ghost pos0 = r.pos as int;
    if r.bytes.len() < 8 || r.pos > r.bytes.len() - 8 {
        return Err(ParseErr::UnexpectedEof);
    }
    let b0 = self_read(r);
    let b1 = self_read(r);
    let b2 = self_read(r);
    let b3 = self_read(r);
    let b4 = self_read(r);
    let b5 = self_read(r);
    let b6 = self_read(r);
    let b7 = self_read(r);
    let bits = (b0 as u64) | ((b1 as u64) << 8) | ((b2 as u64) << 16) | ((b3 as u64) << 24) | (
    (b4 as u64) << 32) | ((b5 as u64) << 40) | ((b6 as u64) << 48) | ((b7 as u64) << 56);
    proof {
        let sub = bytes.subrange(pos0, pos0 + 8);
        assert(sub[0] == bytes[pos0]);
        assert(sub[1] == bytes[pos0 + 1]);
        assert(sub[2] == bytes[pos0 + 2]);
        assert(sub[3] == bytes[pos0 + 3]);
        assert(sub[4] == bytes[pos0 + 4]);
        assert(sub[5] == bytes[pos0 + 5]);
        assert(sub[6] == bytes[pos0 + 6]);
        assert(sub[7] == bytes[pos0 + 7]);
        assert(bits == le64_value(sub));
    }
    Ok(bits)
}

/// One byte from a position known to be inside the bytes.
fn self_read(r: &mut Reader) -> (b: u8)
    requires
        old(r).pos < old(r).bytes@.len(),
    ensures
        final(r).bytes == old(r).bytes,
        final(r).pos == old(r).pos + 1,
        b == old(r).bytes@[old(r).pos as int],
{
    let b = r.bytes[r.pos];
    r.pos = r.pos + 1;
    b
}

impl ValueType {
    /// One value-type byte.
    pub fn parse(r: &mut Reader) -> (res: Result<ValueType, ParseErr>)
        ensures
            final(r).bytes == old(r).bytes,
            (res matches Ok(v) ==> spec_value_type(old(r).bytes@, old(r).pos as int) == Ok::<(ValueType, int), ParseErr>(
                (v, final(r).pos as int),
            ) && old(r).pos < final(r).pos <= old(r).bytes@.len()),
            (res matches Err(e) ==> spec_value_type(old(r).bytes@, old(r).pos as int) == Err::<(ValueType, int), ParseErr>(
                e,
            )),
    {
        let b = match r.read_u8() {
            Ok(v) => v,
            Err(e) => {
                return Err(e);
            },
        };
        match b {
            0x7f => Ok(ValueType::I32),
            0x7e => Ok(ValueType::I64),
            0x7d => Ok(ValueType::F32),
            0x7c => Ok(ValueType::F64),
            _ => Err(ParseErr::BadValueType(b)),
        }
    }
}

impl RefType {
    /// One reference-type byte; only `funcref` is recognised.
    pub fn parse(r: &mut Reader) -> (res: Result<RefType, ParseErr>)
        ensures
            final(r).bytes == old(r).bytes,
            (res matches Ok(v) ==> spec_ref_type(old(r).bytes@, old(r).pos as int) == Ok::<(RefType, int), ParseErr>(
                (v, final(r).pos as int),
            ) && old(r).pos < final(r).pos <= old(r).bytes@.len()),
            (res matches Err(e) ==> spec_ref_type(old(r).bytes@, old(r).pos as int) == Err::<(RefType, int), ParseErr>(
                e,
            )),
    {
        let b = match r.read_u8() {
            Ok(v) => v,
            Err(e) => {
                return Err(e);
            },
        };
        match b {
            0x70 => Ok(RefType::FuncRef),
            _ => Err(ParseErr::BadRefType(b)),
        }
    }
}

impl Mutability {
    /// One mutability byte.
    pub fn parse(r: &mut Reader) -> (res: Result<Mutability, ParseErr>)
        ensures
            final(r).bytes == old(r).bytes,
            (res matches Ok(v) ==> spec_mutability(old(r).bytes@, old(r).pos as int) == Ok::<(Mutability, int), ParseErr>(
                (v, final(r).pos as int),
            ) && old(r).pos < final(r).pos <= old(r).bytes@.len()),
            (res matches Err(e) ==> spec_mutability(old(r).bytes@, old(r).pos as int) == Err::<(Mutability, int), ParseErr>(
                e,
            )),
    {
        let b = match r.read_u8() {
            Ok(v) => v,
            Err(e) => {
                return Err(e);
            },
        };
        match b {
            0x00 => Ok(Mutability::Constant),
            0x01 => Ok(Mutability::Variable),
            _ => Err(ParseErr::BadMutability(b)),
        }
    }
}

impl Limits {
    /// Limits: a flag byte, the minimum, and a maximum when the flag
    /// byte was `1`.
    pub fn parse(r: &mut Reader) -> (res: Result<Limits, ParseErr>)
        ensures
            final(r).bytes == old(r).bytes,
            (res matches Ok(v) ==> spec_limits(old(r).bytes@, old(r).pos as int) == Ok::<(Limits, int), ParseErr>(
                (v, final(r).pos as int),
            ) && old(r).pos < final(r).pos <= old(r).bytes@.len()),
            (res matches Err(e) ==> spec_limits(old(r).bytes@, old(r).pos as int) == Err::<(Limits, int), ParseErr>(
                e,
            )),
    {
        let flag = match r.read_u8() {
            Ok(v) => v,
            Err(e) => {
                return Err(e);
            },
        };
        let has_max = flag == 1;
        let min = match parse_leb128_u32(r) {
            Ok(v) => v,
            Err(e) => {
                return Err(e);
            },
        };
        if has_max {
            let max = match parse_leb128_u32(r) {
                Ok(v) => v,
                Err(e) => {
                    return Err(e);
                },
            };
            Ok(Limits { min, max: Some(max) })
        } else {
            Ok(Limits { min, max: None })
        }
    }
}

impl TableType {
    pub fn parse(r: &mut Reader) -> (res: Result<TableType, ParseErr>)
        ensures
            final(r).bytes == old(r).bytes,
            (res matches Ok(v) ==> crate::format::spec_table_type(old(r).bytes@, old(r).pos as int)
                == Ok::<(TableType, int), ParseErr>((v, final(r).pos as int)) && old(r).pos
                < final(r).pos <= old(r).bytes@.len()),
            (res matches Err(e) ==> crate::format::spec_table_type(old(r).bytes@, old(r).pos as int)
                == Err::<(TableType, int), ParseErr>(e)),
    {
        let elem_type = match RefType::parse(r) {
            Ok(v) => v,
            Err(e) => {
                return Err(e);
            },
        };
        let limits = match Limits::parse(r) {
            Ok(v) => v,
            Err(e) => {
                return Err(e);
            },
        };
        Ok(TableType { elem_type, limits })
    }
}

impl MemType {
    pub fn parse(r: &mut Reader) -> (res: Result<MemType, ParseErr>)
        ensures
            final(r).bytes == old(r).bytes,
            (res matches Ok(v) ==> crate::format::spec_mem_type(old(r).bytes@, old(r).pos as int)
                == Ok::<(MemType, int), ParseErr>((v, final(r).pos as int)) && old(r).pos
                < final(r).pos <= old(r).bytes@.len()),
            (res matches Err(e) ==> crate::format::spec_mem_type(old(r).bytes@, old(r).pos as int)
                == Err::<(MemType, int), ParseErr>(e)),
    {
        let limits = match Limits::parse(r) {
            Ok(v) => v,
            Err(e) => {
                return Err(e);
            },
        };
        Ok(MemType { limits })
    }
}

impl GlobalType {
    pub fn parse(r: &mut Reader) -> (res: Result<GlobalType, ParseErr>)
        ensures
            final(r).bytes == old(r).bytes,
            (res matches Ok(v) ==> spec_global_type(old(r).bytes@, old(r).pos as int) == Ok::<(GlobalType, int), ParseErr>(
                (v, final(r).pos as int),
            ) && old(r).pos < final(r).pos <= old(r).bytes@.len()),
            (res matches Err(e) ==> spec_global_type(old(r).bytes@, old(r).pos as int) == Err::<(GlobalType, int), ParseErr>(
                e,
            )),
    {
        let value_type = match ValueType::parse(r) {
            Ok(v) => v,
            Err(e) => {
                return Err(e);
            },
        };
        let mutability = match Mutability::parse(r) {
            Ok(v) => v,
            Err(e) => {
                return Err(e);
            },
        };
        Ok(GlobalType { value_type, mutability })
    }
}

/// An index as encoded: an unsigned LEB128 number.
pub fn parse_index(r: &mut Reader) -> (res: Result<usize, ParseErr>)
    ensures
        final(r).bytes == old(r).bytes,
        (res matches Ok(v) ==> spec_idx(old(r).bytes@, old(r).pos as int) == Ok::<(usize, int), ParseErr>(
            (v, final(r).pos as int),
        ) && old(r).pos < final(r).pos <= old(r).bytes@.len()),
        (res matches Err(e) ==> spec_idx(old(r).bytes@, old(r).pos as int) == Err::<(usize, int), ParseErr>(
            e,
        )),
{
    match parse_leb128_u32(r) {
        Ok(v) => Ok(v as usize),
        Err(e) => Err(e),
    }
}

impl Name {
    /// A name: a length-prefixed byte vector decoded as UTF-8; bytes
    /// that are not valid UTF-8 are a decode error.
    #[verifier::loop_isolation(false)]
    pub fn parse(r: &mut Reader) -> (res: Result<Name, ParseErr>)
        ensures
            final(r).bytes == old(r).bytes,
            (res matches Ok(v) ==> spec_name(old(r).bytes@, old(r).pos as int) == Ok::<(Seq<char>, int), ParseErr>(
                (v.0@, final(r).pos as int),
            ) && old(r).pos < final(r).pos <= old(r).bytes@.len()),
            (res matches Err(e) ==> spec_name(old(r).bytes@, old(r).pos as int) == Err::<(Seq<char>, int), ParseErr>(
                e,
            )),
    {
        let ghost bytes = r.bytes@;
        let n = match parse_leb128_u32(r) {
            Ok(v) => v,
            Err(e) => {
                return Err(e);
            },
        };
        let count = n as usize;
        if count > r.bytes.len() || r.pos > r.bytes.len() - count {
            return Err(ParseErr::UnexpectedEof);
        }
        let ghost start = r.pos as int;
        let mut raw: Vec<u8> = Vec::new();
        let mut i: usize = 0;
        while i < count
            invariant
                r.bytes@ == bytes,
                i <= count,
                r.pos as int == start + i,
                start + count <= bytes.len(),
                raw@ == bytes.subrange(start, start + i),
            decreases count - i,
        {
            let b = self_read(r);
            raw.push(b);
            proof {
                assert(raw@ =~= bytes.subrange(start, start + i + 1));
            }
            i = i + 1;
        }
        proof {
            assert(raw@ == bytes.subrange(start, start + n));
        }
        match string_from_utf8(raw) {
            Ok(text) => Ok(Name(text)),
            Err(e) => Err(e),
        }
    }
}

impl ImportDescriptor {
    /// An import descriptor: a kind byte, then the index or type it
    /// selects.
    pub fn parse(r: &mut Reader) -> (res: Result<ImportDescriptor, ParseErr>)
        ensures
            final(r).bytes == old(r).bytes,
            (res matches Ok(v) ==> spec_import_descriptor(old(r).bytes@, old(r).pos as int) == Ok::<(ImportDescriptor, int), ParseErr>(
                (v, final(r).pos as int),
            ) && old(r).pos < final(r).pos <= old(r).bytes@.len()),
            (res matches Err(e) ==> spec_import_descriptor(old(r).bytes@, old(r).pos as int) == Err::<(ImportDescriptor, int), ParseErr>(
                e,
            )),
    {
        let b = match r.read_u8() {
            Ok(v) => v,
            Err(e) => {
                return Err(e);
            },
        };
        match b {
            0x00 => match parse_index(r) {
                Ok(x) => Ok(ImportDescriptor::Func(TypeIdx(x))),
                Err(e) => Err(e),
            },
            0x01 => match TableType::parse(r) {
                Ok(t) => Ok(ImportDescriptor::Table(t)),
                Err(e) => Err(e),
            },
            0x02 => match MemType::parse(r) {
                Ok(t) => Ok(ImportDescriptor::Memory(t)),
                Err(e) => Err(e),
            },
            0x03 => match GlobalType::parse(r) {
                Ok(t) => Ok(ImportDescriptor::Global(t)),
                Err(e) => Err(e),
            },
            _ => Err(ParseErr::BadImportDescriptor(b)),
        }
    }
}

impl ExportDescriptor {
    /// An export descriptor: a kind byte, then the index it selects.
    pub fn parse(r: &mut Reader) -> (res: Result<ExportDescriptor, ParseErr>)
        ensures
            final(r).bytes == old(r).bytes,
            (res matches Ok(v) ==> spec_export_descriptor(old(r).bytes@, old(r).pos as int) == Ok::<(ExportDescriptor, int), ParseErr>(
                (v, final(r).pos as int),
            ) && old(r).pos < final(r).pos <= old(r).bytes@.len()),
            (res matches Err(e) ==> spec_export_descriptor(old(r).bytes@, old(r).pos as int) == Err::<(ExportDescriptor, int), ParseErr>(
                e,
            )),
    {
        let b = match r.read_u8() {
            Ok(v) => v,
            Err(e) => {
                return Err(e);
            },
        };
        match b {
            0x00 => match parse_index(r) {
                Ok(x) => Ok(ExportDescriptor::Func(FuncIdx(x))),
                Err(e) => Err(e),
            },
            0x01 => match parse_index(r) {
                Ok(x) => Ok(ExportDescriptor::Table(TableIdx(x))),
                Err(e) => Err(e),
            },
            0x02 => match parse_index(r) {
                Ok(x) => Ok(ExportDescriptor::Memory(MemIdx(x))),
                Err(e) => Err(e),
            },
            0x03 => match parse_index(r) {
                Ok(x) => Ok(ExportDescriptor::Global(GlobalIdx(x))),
                Err(e) => Err(e),
            },
            _ => Err(ParseErr::BadExportDescriptor(b)),
        }
    }
}

impl Import {
    pub fn parse(r: &mut Reader) -> (res: Result<Import, ParseErr>)
        ensures
            final(r).bytes == old(r).bytes,
            (res matches Ok(v) ==> spec_import(old(r).bytes@, old(r).pos as int) == Ok::<(ImportV, int), ParseErr>(
                (view_import(v), final(r).pos as int),
            ) && old(r).pos < final(r).pos <= old(r).bytes@.len()),
            (res matches Err(e) ==> spec_import(old(r).bytes@, old(r).pos as int) == Err::<(ImportV, int), ParseErr>(
                e,
            )),
    {
        let module = match Name::parse(r) {
            Ok(v) => v,
            Err(e) => {
                return Err(e);
            },
        };
        let name = match Name::parse(r) {
            Ok(v) => v,
            Err(e) => {
                return Err(e);
            },
        };
        let descriptor = match ImportDescriptor::parse(r) {
            Ok(v) => v,
            Err(e) => {
                return Err(e);
            },
        };
        Ok(Import { module, name, descriptor })
    }
}

impl Export {
    pub fn parse(r: &mut Reader) -> (res: Result<Export, ParseErr>)
        ensures
            final(r).bytes == old(r).bytes,
            (res matches Ok(v) ==> spec_export(old(r).bytes@, old(r).pos as int) == Ok::<(ExportV, int), ParseErr>(
                (view_export(v), final(r).pos as int),
            ) && old(r).pos < final(r).pos <= old(r).bytes@.len()),
            (res matches Err(e) ==> spec_export(old(r).bytes@, old(r).pos as int) == Err::<(ExportV, int), ParseErr>(
                e,
            )),
    {
        let name = match Name::parse(r) {
            Ok(v) => v,
            Err(e) => {
                return Err(e);
            },
        };
        let descriptor = match ExportDescriptor::parse(r) {
            Ok(v) => v,
            Err(e) => {
                return Err(e);
            },
        };
        Ok(Export { name, descriptor })
    }
}

impl BlockType {
    /// The block-type byte; only the empty form `0x40` is recognised.
    pub fn parse(r: &mut Reader) -> (res: Result<BlockType, ParseErr>)
        ensures
            final(r).bytes == old(r).bytes,
            (res matches Ok(v) ==> spec_block_type(old(r).bytes@, old(r).pos as int) == Ok::<((), int), ParseErr>(
                ((), final(r).pos as int),
            ) && old(r).pos < final(r).pos <= old(r).bytes@.len()),
            (res matches Err(e) ==> spec_block_type(old(r).bytes@, old(r).pos as int) == Err::<((), int), ParseErr>(
                e,
            )),
    {
        let b = match r.read_u8() {
            Ok(v) => v,
            Err(e) => {
                return Err(e);
            },
        };
        if b == 0x40 {
            Ok(BlockType::Empty)
        } else {
            Err(ParseErr::BadBlockType(b))
        }
    }
}

impl MemArg {
    /// A memory immediate: alignment, then offset.
    pub fn parse(r: &mut Reader) -> (res: Result<MemArg, ParseErr>)
        ensures
            final(r).bytes == old(r).bytes,
            (res matches Ok(v) ==> spec_memarg(old(r).bytes@, old(r).pos as int) == Ok::<(MemArg, int), ParseErr>(
                (v, final(r).pos as int),
            ) && old(r).pos < final(r).pos <= old(r).bytes@.len()),
            (res matches Err(e) ==> spec_memarg(old(r).bytes@, old(r).pos as int) == Err::<(MemArg, int), ParseErr>(
                e,
            )),
    {
        let align = match parse_index(r) {
            Ok(v) => v,
            Err(e) => {
                return Err(e);
            },
        };
        let offset = match parse_index(r) {
            Ok(v) => v,
            Err(e) => {
                return Err(e);
            },
        };
        Ok(MemArg { align, offset })
    }
}

impl TypeIdx {
    pub fn parse(r: &mut Reader) -> (res: Result<TypeIdx, ParseErr>)
        ensures
            final(r).bytes == old(r).bytes,
            (res matches Ok(v) ==> spec_type_idx(old(r).bytes@, old(r).pos as int) == Ok::<(TypeIdx, int), ParseErr>(
                (v, final(r).pos as int),
            ) && old(r).pos < final(r).pos <= old(r).bytes@.len()),
            (res matches Err(e) ==> spec_type_idx(old(r).bytes@, old(r).pos as int) == Err::<(TypeIdx, int), ParseErr>(
                e,
            )),
    {
        match parse_index(r) {
            Ok(x) => Ok(TypeIdx(x)),
            Err(e) => Err(e),
        }
    }
}

impl FuncIdx {
    pub fn parse(r: &mut Reader) -> (res: Result<FuncIdx, ParseErr>)
        ensures
            final(r).bytes == old(r).bytes,
            (res matches Ok(v) ==> spec_idx(old(r).bytes@, old(r).pos as int) == Ok::<(usize, int), ParseErr>(
                (v.0, final(r).pos as int),
            ) && old(r).pos < final(r).pos <= old(r).bytes@.len()),
            (res matches Err(e) ==> spec_idx(old(r).bytes@, old(r).pos as int) == Err::<(usize, int), ParseErr>(
                e,
            )),
    {
        match parse_index(r) {
            Ok(x) => Ok(FuncIdx(x)),
            Err(e) => Err(e),
        }
    }
}

impl TableIdx {
    pub fn parse(r: &mut Reader) -> (res: Result<TableIdx, ParseErr>)
        ensures
            final(r).bytes == old(r).bytes,
            (res matches Ok(v) ==> spec_idx(old(r).bytes@, old(r).pos as int) == Ok::<(usize, int), ParseErr>(
                (v.0, final(r).pos as int),
            ) && old(r).pos < final(r).pos <= old(r).bytes@.len()),
            (res matches Err(e) ==> spec_idx(old(r).bytes@, old(r).pos as int) == Err::<(usize, int), ParseErr>(
                e,
            )),
    {
        match parse_index(r) {
            Ok(x) => Ok(TableIdx(x)),
            Err(e) => Err(e),
        }
    }
}

impl MemIdx {
    pub fn parse(r: &mut Reader) -> (res: Result<MemIdx, ParseErr>)
        ensures
            final(r).bytes == old(r).bytes,
            (res matches Ok(v) ==> spec_idx(old(r).bytes@, old(r).pos as int) == Ok::<(usize, int), ParseErr>(
                (v.0, final(r).pos as int),
            ) && old(r).pos < final(r).pos <= old(r).bytes@.len()),
            (res matches Err(e) ==> spec_idx(old(r).bytes@, old(r).pos as int) == Err::<(usize, int), ParseErr>(
                e,
            )),
    {
        match parse_index(r) {
            Ok(x) => Ok(MemIdx(x)),
            Err(e) => Err(e),
        }
    }
}

impl GlobalIdx {
    pub fn parse(r: &mut Reader) -> (res: Result<GlobalIdx, ParseErr>)
        ensures
            final(r).bytes == old(r).bytes,
            (res matches Ok(v) ==> spec_idx(old(r).bytes@, old(r).pos as int) == Ok::<(usize, int), ParseErr>(
                (v.0, final(r).pos as int),
            ) && old(r).pos < final(r).pos <= old(r).bytes@.len()),
            (res matches Err(e) ==> spec_idx(old(r).bytes@, old(r).pos as int) == Err::<(usize, int), ParseErr>(
                e,
            )),
    {
        match parse_index(r) {
            Ok(x) => Ok(GlobalIdx(x)),
            Err(e) => Err(e),
        }
    }
}

impl LocalIdx {
    pub fn parse(r: &mut Reader) -> (res: Result<LocalIdx, ParseErr>)
        ensures
            final(r).bytes == old(r).bytes,
            (res matches Ok(v) ==> spec_idx(old(r).bytes@, old(r).pos as int) == Ok::<(usize, int), ParseErr>(
                (v.0, final(r).pos as int),
            ) && old(r).pos < final(r).pos <= old(r).bytes@.len()),
            (res matches Err(e) ==> spec_idx(old(r).bytes@, old(r).pos as int) == Err::<(usize, int), ParseErr>(
                e,
            )),
    {
        match parse_index(r) {
            Ok(x) => Ok(LocalIdx(x)),
            Err(e) => Err(e),
        }
    }
}

impl LabelIdx {
    pub fn parse(r: &mut Reader) -> (res: Result<LabelIdx, ParseErr>)
        ensures
            final(r).bytes == old(r).bytes,
            (res matches Ok(v) ==> spec_idx(old(r).bytes@, old(r).pos as int) == Ok::<(usize, int), ParseErr>(
                (v.0, final(r).pos as int),
            ) && old(r).pos < final(r).pos <= old(r).bytes@.len()),
            (res matches Err(e) ==> spec_idx(old(r).bytes@, old(r).pos as int) == Err::<(usize, int), ParseErr>(
                e,
            )),
    {
        match parse_index(r) {
            Ok(x) => Ok(LabelIdx(x)),
            Err(e) => Err(e),
        }
    }
}

impl Locals {
    /// One run of local declarations: a count and a value type.
    pub fn parse(r: &mut Reader) -> (res: Result<Locals, ParseErr>)
        ensures
            final(r).bytes == old(r).bytes,
            (res matches Ok(v) ==> spec_locals_run(old(r).bytes@, old(r).pos as int) == Ok::<(Locals, int), ParseErr>(
                (v, final(r).pos as int),
            ) && old(r).pos < final(r).pos <= old(r).bytes@.len()),
            (res matches Err(e) ==> spec_locals_run(old(r).bytes@, old(r).pos as int) == Err::<(Locals, int), ParseErr>(
                e,
            )),
    {
        let n = match parse_leb128_u32(r) {
            Ok(v) => v,
            Err(e) => {
                return Err(e);
            },
        };
        let t = match ValueType::parse(r) {
            Ok(v) => v,
            Err(e) => {
                return Err(e);
            },
        };
        Ok(Locals { n, t })
    }
}

/// A vector of value types.
#[verifier::loop_isolation(false)]
pub fn parse_value_types(r: &mut Reader) -> (res: Result<Vec<ValueType>, ParseErr>)
    ensures
        final(r).bytes == old(r).bytes,
        (res matches Ok(v) ==> spec_vec(elem_value_type(), old(r).bytes@, old(r).pos as int)
            == Ok::<(Seq<ValueType>, int), ParseErr>((v@, final(r).pos as int)) && old(r).pos
            < final(r).pos <= old(r).bytes@.len()),
        (res matches Err(e) ==> spec_vec(elem_value_type(), old(r).bytes@, old(r).pos as int)
            == Err::<(Seq<ValueType>, int), ParseErr>(e)),
{
    let ghost bytes = r.bytes@;
    let ghost elem = elem_value_type();
    let n = match parse_leb128_u32(r) {
        Ok(v) => v,
        Err(e) => {
            return Err(e);
        },
    };
    let ghost start = r.pos as int;
    let mut items: Vec<ValueType> = Vec::new();
    proof {
        lemma_vec_progress_zero(elem, bytes, start, n as nat);
    }
    let mut i: u32 = 0;
    while i < n
        invariant
            r.bytes@ == bytes,
            i <= n,
            start <= r.pos as int <= bytes.len(),
            vec_progress(elem, bytes, start, n as nat, items@, i as nat, r.pos as int),
        decreases n - i,
    {
        let ghost cur = r.pos as int;
        let ghost prev = items@;
        let item = match ValueType::parse(r) {
            Ok(v) => v,
            Err(e) => {
                proof {
                    lemma_vec_progress_fail(elem, bytes, start, n as nat, prev, i as nat, cur, e);
                }
                return Err(e);
            },
        };
        proof {
            lemma_vec_progress_step(elem, bytes, start, n as nat, prev, i as nat, cur, item, r.pos as int);
        }
        items.push(item);
        i = i + 1;
    }
    proof {
        lemma_vec_progress_finish(elem, bytes, start, n as nat, items@, r.pos as int);
    }
    Ok(items)
}

impl FuncType {
    /// A function type: the marker `0x60`, then the parameter types and
    /// the result types.
    pub fn parse(r: &mut Reader) -> (res: Result<FuncType, ParseErr>)
        ensures
            final(r).bytes == old(r).bytes,
            (res matches Ok(v) ==> spec_func_type(old(r).bytes@, old(r).pos as int) == Ok::<(FuncTypeV, int), ParseErr>(
                (view_func_type(v), final(r).pos as int),
            ) && old(r).pos < final(r).pos <= old(r).bytes@.len()),
            (res matches Err(e) ==> spec_func_type(old(r).bytes@, old(r).pos as int) == Err::<(FuncTypeV, int), ParseErr>(
                e,
            )),
    {
        let marker = match r.read_u8() {
            Ok(v) => v,
            Err(e) => {
                return Err(e);
            },
        };
        if marker != 0x60 {
            return Err(ParseErr::BadFuncTypeMarker(marker));
        }
        let parameter_types = match parse_value_types(r) {
            Ok(v) => v,
            Err(e) => {
                return Err(e);
            },
        };
        let result_types = match parse_value_types(r) {
            Ok(v) => v,
            Err(e) => {
                return Err(e);
            },
        };
        Ok(FuncType { parameter_types, result_types })
    }
}

/// One instruction: the opcode byte, its immediates, and nested bodies
/// for the structured forms.
#[verifier::loop_isolation(false)]
#[verifier::rlimit(100)]
pub fn parse_instruction(r: &mut Reader) -> (res: Result<Instruction, ParseErr>)
    ensures
        final(r).bytes == old(r).bytes,
        (res matches Ok(v) ==> spec_instr(old(r).bytes@, old(r).pos as int) == Ok::<(InstrV, int), ParseErr>(
            (view_instr(v), final(r).pos as int),
        ) && old(r).pos < final(r).pos <= old(r).bytes@.len()),
        (res matches Err(e) ==> spec_instr(old(r).bytes@, old(r).pos as int) == Err::<(InstrV, int), ParseErr>(
            e,
        )),
    decreases old(r).bytes@.len() - old(r).pos, 0int,
{
    let ghost bytes = r.bytes@;
    let ghost pos0 = r.pos as int;
    let op = match r.read_u8() {
        Ok(v) => v,
        Err(e) => {
            return Err(e);
        },
    };
    match op {
        0x00 => Ok(Instruction::Unreachable),
        0x02 | 0x03 => {
            let bt = match BlockType::parse(r) {
                Ok(v) => v,
                Err(e) => {
                    return Err(e);
                },
            };
            let body = match parse_instructions(r) {
                Ok(v) => v,
                Err(e) => {
                    return Err(e);
                },
            };
            if op == 0x02 {
                Ok(Instruction::Block(bt, body))
            } else {
                Ok(Instruction::Loop(bt, body))
            }
        },
        0x04 => {
            let bt = match BlockType::parse(r) {
                Ok(v) => v,
                Err(e) => {
                    return Err(e);
                },
            };
            let then_body = match parse_instructions(r) {
                Ok(v) => v,
                Err(e) => {
                    return Err(e);
                },
            };
            let else_body = match parse_instructions(r) {
                Ok(v) => v,
                Err(e) => {
                    return Err(e);
                },
            };
            Ok(Instruction::If(bt, then_body, else_body))
        },
        0x0C => match LabelIdx::parse(r) {
            Ok(l) => Ok(Instruction::Branch(l)),
            Err(e) => Err(e),
        },
        0x0D => match LabelIdx::parse(r) {
            Ok(l) => Ok(Instruction::BranchIf(l)),
            Err(e) => Err(e),
        },
        0x0F => Ok(Instruction::Return),
        0x10 => match FuncIdx::parse(r) {
            Ok(f) => Ok(Instruction::Call(f)),
            Err(e) => Err(e),
        },
        0x20 => match LocalIdx::parse(r) {
            Ok(x) => Ok(Instruction::LocalGet(x)),
            Err(e) => Err(e),
        },
        0x21 => match LocalIdx::parse(r) {
            Ok(x) => Ok(Instruction::LocalSet(x)),
            Err(e) => Err(e),
        },
        0x23 => match GlobalIdx::parse(r) {
            Ok(x) => Ok(Instruction::GlobalGet(x)),
            Err(e) => Err(e),
        },
        0x24 => match GlobalIdx::parse(r) {
            Ok(x) => Ok(Instruction::GlobalSet(x)),
            Err(e) => Err(e),
        },
        0x28 => match MemArg::parse(r) {
            Ok(m) => Ok(Instruction::I32Load(m)),
            Err(e) => Err(e),
        },
        0x36 => match MemArg::parse(r) {
            Ok(m) => Ok(Instruction::I32Store(m)),
            Err(e) => Err(e),
        },
        0x41 => match parse_leb128_i32(r) {
            Ok(v) => Ok(Instruction::I32Const(v)),
            Err(e) => Err(e),
        },
        0x44 => match parse_f64_bits(r) {
            Ok(bits) => Ok(Instruction::F64Const(bits)),
            Err(e) => Err(e),
        },
        0x46 => Ok(Instruction::I32Eq),
        0x4A => Ok(Instruction::I32GtSigned),
        0x63 => Ok(Instruction::F64Lt),
        0x64 => Ok(Instruction::F64Gt),
        0x66 => Ok(Instruction::F64Ge),
        0x6A => Ok(Instruction::I32Add),
        0x6B => Ok(Instruction::I32Sub),
        0x6C => Ok(Instruction::I32Mul),
        0xA0 => Ok(Instruction::F64Add),
        0xA1 => Ok(Instruction::F64Sub),
        0xA2 => Ok(Instruction::F64Mul),
        0xA3 => Ok(Instruction::F64Div),
        _ => Err(ParseErr::BadOpcode { opcode: op, offset: (r.pos - 1) }),
    }
}

/// An instruction sequence, up to and including its `end` (`0x0B`) or
/// `else` (`0x05`) sentinel.
#[verifier::loop_isolation(false)]
pub fn parse_instructions(r: &mut Reader) -> (res: Result<Vec<Instruction>, ParseErr>)
    ensures
        final(r).bytes == old(r).bytes,
        (res matches Ok(v) ==> spec_instr_seq(old(r).bytes@, old(r).pos as int) == Ok::<(Seq<InstrV>, int), ParseErr>(
            (view_instrs(v@), final(r).pos as int),
        ) && old(r).pos < final(r).pos <= old(r).bytes@.len()),
        (res matches Err(e) ==> spec_instr_seq(old(r).bytes@, old(r).pos as int) == Err::<(Seq<InstrV>, int), ParseErr>(
            e,
        )),
    decreases old(r).bytes@.len() - old(r).pos, 1int,
{
    let ghost bytes = r.bytes@;
    let ghost pos0 = r.pos as int;
    if r.pos >= r.bytes.len() {
        return Err(ParseErr::UnexpectedEof);
    }
    let mut result: Vec<Instruction> = Vec::new();
    proof {
        lemma_instrs_progress_zero(bytes, pos0);
    }
    loop
        invariant
            r.bytes@ == bytes,
            pos0 <= r.pos as int <= bytes.len(),
            instrs_progress(bytes, pos0, view_instrs(result@), r.pos as int),
        decreases bytes.len() - r.pos,
    {
        let ghost cur = r.pos as int;
        let ghost acc = view_instrs(result@);
        let op = match r.peek() {
            Ok(b) => b,
            Err(_) => {
                proof {
                    lemma_instrs_progress_fail(bytes, pos0, acc, cur, ParseErr::UnexpectedEof);
                }
                return Err(ParseErr::UnexpectedEof);
            },
        };
        if op == 0x0B || op == 0x05 {
            proof {
                assert(r.pos < bytes.len());
            }
            r.pos = r.pos + 1;
            proof {
                lemma_instrs_progress_finish(bytes, pos0, acc, cur);
            }
            return Ok(result);
        }
        let instr = match parse_instruction(r) {
            Ok(v) => v,
            Err(e) => {
                proof {
                    lemma_instrs_progress_fail(bytes, pos0, acc, cur, e);
                }
                return Err(e);
            },
        };
        proof {
            lemma_instrs_progress_step(bytes, pos0, acc, cur, view_instr(instr), r.pos as int);
            lemma_view_instrs_push(result@, instr);
        }
        result.push(instr);
    }
}

impl Global {
    /// A global: its type, then its initialiser expression.
    pub fn parse(r: &mut Reader) -> (res: Result<Global, ParseErr>)
        ensures
            final(r).bytes == old(r).bytes,
            (res matches Ok(v) ==> spec_global(old(r).bytes@, old(r).pos as int) == Ok::<(GlobalV, int), ParseErr>(
                (view_global(v), final(r).pos as int),
            ) && old(r).pos < final(r).pos <= old(r).bytes@.len()),
            (res matches Err(e) ==> spec_global(old(r).bytes@, old(r).pos as int) == Err::<(GlobalV, int), ParseErr>(
                e,
            )),
    {
        let global_type = match GlobalType::parse(r) {
            Ok(v) => v,
            Err(e) => {
                return Err(e);
            },
        };
        let expression = match parse_instructions(r) {
            Ok(v) => v,
            Err(e) => {
                return Err(e);
            },
        };
        Ok(Global { global_type, expression })
    }
}

/// The local-declaration runs of a code entry.
#[verifier::loop_isolation(false)]
pub fn parse_locals_runs(r: &mut Reader) -> (res: Result<Vec<Locals>, ParseErr>)
    ensures
        final(r).bytes == old(r).bytes,
        (res matches Ok(v) ==> spec_vec(elem_locals_run(), old(r).bytes@, old(r).pos as int)
            == Ok::<(Seq<Locals>, int), ParseErr>((v@, final(r).pos as int)) && old(r).pos
            < final(r).pos <= old(r).bytes@.len()),
        (res matches Err(e) ==> spec_vec(elem_locals_run(), old(r).bytes@, old(r).pos as int)
            == Err::<(Seq<Locals>, int), ParseErr>(e)),
{
    let ghost bytes = r.bytes@;
    let ghost elem = elem_locals_run();
    let n = match parse_leb128_u32(r) {
        Ok(v) => v,
        Err(e) => {
            return Err(e);
        },
    };
    let ghost start = r.pos as int;
    let mut items: Vec<Locals> = Vec::new();
    proof {
        lemma_vec_progress_zero(elem, bytes, start, n as nat);
    }
    let mut i: u32 = 0;
    while i < n
        invariant
            r.bytes@ == bytes,
            i <= n,
            start <= r.pos as int <= bytes.len(),
            vec_progress(elem, bytes, start, n as nat, items@, i as nat, r.pos as int),
        decreases n - i,
    {
        let ghost cur = r.pos as int;
        let ghost prev = items@;
        let item = match Locals::parse(r) {
            Ok(v) => v,
            Err(e) => {
                proof {
                    lemma_vec_progress_fail(elem, bytes, start, n as nat, prev, i as nat, cur, e);
                }
                return Err(e);
            },
        };
        proof {
            lemma_vec_progress_step(elem, bytes, start, n as nat, prev, i as nat, cur, item, r.pos as int);
        }
        items.push(item);
        i = i + 1;
    }
    proof {
        lemma_vec_progress_finish(elem, bytes, start, n as nat, items@, r.pos as int);
    }
    Ok(items)
}

/// Expands local-declaration runs to one entry per local.
#[verifier::loop_isolation(false)]
pub fn expand_local_runs(runs: &Vec<Locals>) -> (v: Vec<ValueType>)
    ensures
        v@ == expand_locals(runs@),
{
    let mut v: Vec<ValueType> = Vec::new();
    let mut i: usize = 0;
    proof {
        assert(runs@.take(0) =~= Seq::<Locals>::empty());
    }
    while i < runs.len()
        invariant
            i <= runs@.len(),
            v@ == expand_locals(runs@.take(i as int)),
        decreases runs@.len() - i,
    {
        let run = runs[i];
        let ghost before = v@;
        let mut j: u32 = 0;
        while j < run.n
            invariant
                j <= run.n,
                v@ == before + Seq::new(j as nat, |k: int| run.t),
            decreases run.n - j,
        {
            v.push(run.t);
            proof {
                assert(v@ =~= before + Seq::new((j + 1) as nat, |k: int| run.t));
            }
            j = j + 1;
        }
        proof {
            assert(runs@.take(i + 1) =~= runs@.take(i as int).push(run));
            lemma_expand_locals_snoc(runs@.take(i as int), run);
        }
        i = i + 1;
    }
    proof {
        assert(runs@.take(runs@.len() as int) =~= runs@);
    }
    v
}

impl Code {
    /// A code entry: a declared byte size, the local runs expanded to
    /// one entry per local, and the body; the entry must occupy exactly
    /// its declared size.
    pub fn parse(r: &mut Reader) -> (res: Result<Code, ParseErr>)
        ensures
            final(r).bytes == old(r).bytes,
            (res matches Ok(v) ==> spec_code(old(r).bytes@, old(r).pos as int) == Ok::<(CodeV, int), ParseErr>(
                (view_code(v), final(r).pos as int),
            ) && old(r).pos < final(r).pos <= old(r).bytes@.len()),
            (res matches Err(e) ==> spec_code(old(r).bytes@, old(r).pos as int) == Err::<(CodeV, int), ParseErr>(
                e,
            )),
    {
        let size = match parse_leb128_u32(r) {
            Ok(v) => v,
            Err(e) => {
                return Err(e);
            },
        };
        let start = r.pos;
        let runs = match parse_locals_runs(r) {
            Ok(v) => v,
            Err(e) => {
                return Err(e);
            },
        };
        let body = match parse_instructions(r) {
            Ok(v) => v,
            Err(e) => {
                return Err(e);
            },
        };
        if r.pos - start != size as usize {
            return Err(ParseErr::SizeMismatch);
        }
        let locals = expand_local_runs(&runs);
        Ok(Code { locals, body })
    }
}

/// A vector of function types.
#[verifier::loop_isolation(false)]
pub fn parse_func_types(r: &mut Reader) -> (res: Result<Vec<FuncType>, ParseErr>)
    ensures
        final(r).bytes == old(r).bytes,
        (res matches Ok(v) ==> spec_vec(elem_func_type(), old(r).bytes@, old(r).pos as int)
            == Ok::<(Seq<FuncTypeV>, int), ParseErr>((view_func_types(v@), final(r).pos as int))
            && old(r).pos < final(r).pos <= old(r).bytes@.len()),
        (res matches Err(e) ==> spec_vec(elem_func_type(), old(r).bytes@, old(r).pos as int)
            == Err::<(Seq<FuncTypeV>, int), ParseErr>(e)),
{
    let ghost bytes = r.bytes@;
    let ghost elem = elem_func_type();
    let n = match parse_leb128_u32(r) {
        Ok(v) => v,
        Err(e) => {
            return Err(e);
        },
    };
    let ghost start = r.pos as int;
    let mut items: Vec<FuncType> = Vec::new();
    proof {
        lemma_vec_progress_zero(elem, bytes, start, n as nat);
        assert(view_func_types(items@) =~= Seq::<FuncTypeV>::empty());
    }
    let mut i: u32 = 0;
    while i < n
        invariant
            r.bytes@ == bytes,
            i <= n,
            start <= r.pos as int <= bytes.len(),
            vec_progress(elem, bytes, start, n as nat, view_func_types(items@), i as nat, r.pos as int),
        decreases n - i,
    {
        let ghost cur = r.pos as int;
        let ghost prev = view_func_types(items@);
        let item = match FuncType::parse(r) {
            Ok(v) => v,
            Err(e) => {
                proof {
                    lemma_vec_progress_fail(elem, bytes, start, n as nat, prev, i as nat, cur, e);
                }
                return Err(e);
            },
        };
        proof {
            lemma_vec_progress_step(elem, bytes, start, n as nat, prev, i as nat, cur, view_func_type(item), r.pos as int);
            assert(view_func_types(items@.push(item)) =~= prev.push(view_func_type(item)));
        }
        items.push(item);
        i = i + 1;
    }
    proof {
        lemma_vec_progress_finish(elem, bytes, start, n as nat, view_func_types(items@), r.pos as int);
    }
    Ok(items)
}

/// A vector of imports.
#[verifier::loop_isolation(false)]
pub fn parse_imports(r: &mut Reader) -> (res: Result<Vec<Import>, ParseErr>)
    ensures
        final(r).bytes == old(r).bytes,
        (res matches Ok(v) ==> spec_vec(elem_import(), old(r).bytes@, old(r).pos as int)
            == Ok::<(Seq<ImportV>, int), ParseErr>((view_imports(v@), final(r).pos as int))
            && old(r).pos < final(r).pos <= old(r).bytes@.len()),
        (res matches Err(e) ==> spec_vec(elem_import(), old(r).bytes@, old(r).pos as int)
            == Err::<(Seq<ImportV>, int), ParseErr>(e)),
{
    let ghost bytes = r.bytes@;
    let ghost elem = elem_import();
    let n = match parse_leb128_u32(r) {
        Ok(v) => v,
        Err(e) => {
            return Err(e);
        },
    };
    let ghost start = r.pos as int;
    let mut items: Vec<Import> = Vec::new();
    proof {
        lemma_vec_progress_zero(elem, bytes, start, n as nat);
        assert(view_imports(items@) =~= Seq::<ImportV>::empty());
    }
    let mut i: u32 = 0;
    while i < n
        invariant
            r.bytes@ == bytes,
            i <= n,
            start <= r.pos as int <= bytes.len(),
            vec_progress(elem, bytes, start, n as nat, view_imports(items@), i as nat, r.pos as int),
        decreases n - i,
    {
        let ghost cur = r.pos as int;
        let ghost prev = view_imports(items@);
        let item = match Import::parse(r) {
            Ok(v) => v,
            Err(e) => {
                proof {
                    lemma_vec_progress_fail(elem, bytes, start, n as nat, prev, i as nat, cur, e);
                }
                return Err(e);
            },
        };
        proof {
            lemma_vec_progress_step(elem, bytes, start, n as nat, prev, i as nat, cur, view_import(item), r.pos as int);
            assert(view_imports(items@.push(item)) =~= prev.push(view_import(item)));
        }
        items.push(item);
        i = i + 1;
    }
    proof {
        lemma_vec_progress_finish(elem, bytes, start, n as nat, view_imports(items@), r.pos as int);
    }
    Ok(items)
}

/// A vector of type indices.
#[verifier::loop_isolation(false)]
pub fn parse_type_indices(r: &mut Reader) -> (res: Result<Vec<TypeIdx>, ParseErr>)
    ensures
        final(r).bytes == old(r).bytes,
        (res matches Ok(v) ==> spec_vec(elem_type_idx(), old(r).bytes@, old(r).pos as int)
            == Ok::<(Seq<TypeIdx>, int), ParseErr>((v@, final(r).pos as int)) && old(r).pos
            < final(r).pos <= old(r).bytes@.len()),
        (res matches Err(e) ==> spec_vec(elem_type_idx(), old(r).bytes@, old(r).pos as int)
            == Err::<(Seq<TypeIdx>, int), ParseErr>(e)),
{
    let ghost bytes = r.bytes@;
    let ghost elem = elem_type_idx();
    let n = match parse_leb128_u32(r) {
        Ok(v) => v,
        Err(e) => {
            return Err(e);
        },
    };
    let ghost start = r.pos as int;
    let mut items: Vec<TypeIdx> = Vec::new();
    proof {
        lemma_vec_progress_zero(elem, bytes, start, n as nat);
    }
    let mut i: u32 = 0;
    while i < n
        invariant
            r.bytes@ == bytes,
            i <= n,
            start <= r.pos as int <= bytes.len(),
            vec_progress(elem, bytes, start, n as nat, items@, i as nat, r.pos as int),
        decreases n - i,
    {
        let ghost cur = r.pos as int;
        let ghost prev = items@;
        let item = match TypeIdx::parse(r) {
            Ok(v) => v,
            Err(e) => {
                proof {
                    lemma_vec_progress_fail(elem, bytes, start, n as nat, prev, i as nat, cur, e);
                }
                return Err(e);
            },
        };
        proof {
            lemma_vec_progress_step(elem, bytes, start, n as nat, prev, i as nat, cur, item, r.pos as int);
        }
        items.push(item);
        i = i + 1;
    }
    proof {
        lemma_vec_progress_finish(elem, bytes, start, n as nat, items@, r.pos as int);
    }
    Ok(items)
}

/// A vector of limits.
#[verifier::loop_isolation(false)]
pub fn parse_limits_list(r: &mut Reader) -> (res: Result<Vec<Limits>, ParseErr>)
    ensures
        final(r).bytes == old(r).bytes,
        (res matches Ok(v) ==> spec_vec(elem_limits(), old(r).bytes@, old(r).pos as int)
            == Ok::<(Seq<Limits>, int), ParseErr>((v@, final(r).pos as int)) && old(r).pos
            < final(r).pos <= old(r).bytes@.len()),
        (res matches Err(e) ==> spec_vec(elem_limits(), old(r).bytes@, old(r).pos as int)
            == Err::<(Seq<Limits>, int), ParseErr>(e)),
{
    let ghost bytes = r.bytes@;
    let ghost elem = elem_limits();
    let n = match parse_leb128_u32(r) {
        Ok(v) => v,
        Err(e) => {
            return Err(e);
        },
    };
    let ghost start = r.pos as int;
    let mut items: Vec<Limits> = Vec::new();
    proof {
        lemma_vec_progress_zero(elem, bytes, start, n as nat);
    }
    let mut i: u32 = 0;
    while i < n
        invariant
            r.bytes@ == bytes,
            i <= n,
            start <= r.pos as int <= bytes.len(),
            vec_progress(elem, bytes, start, n as nat, items@, i as nat, r.pos as int),
        decreases n - i,
    {
        let ghost cur = r.pos as int;
        let ghost prev = items@;
        let item = match Limits::parse(r) {
            Ok(v) => v,
            Err(e) => {
                proof {
                    lemma_vec_progress_fail(elem, bytes, start, n as nat, prev, i as nat, cur, e);
                }
                return Err(e);
            },
        };
        proof {
            lemma_vec_progress_step(elem, bytes, start, n as nat, prev, i as nat, cur, item, r.pos as int);
        }
        items.push(item);
        i = i + 1;
    }
    proof {
        lemma_vec_progress_finish(elem, bytes, start, n as nat, items@, r.pos as int);
    }
    Ok(items)
}

/// A vector of globals.
#[verifier::loop_isolation(false)]
pub fn parse_globals(r: &mut Reader) -> (res: Result<Vec<Global>, ParseErr>)
    ensures
        final(r).bytes == old(r).bytes,
        (res matches Ok(v) ==> spec_vec(elem_global(), old(r).bytes@, old(r).pos as int)
            == Ok::<(Seq<GlobalV>, int), ParseErr>((view_globals(v@), final(r).pos as int))
            && old(r).pos < final(r).pos <= old(r).bytes@.len()),
        (res matches Err(e) ==> spec_vec(elem_global(), old(r).bytes@, old(r).pos as int)
            == Err::<(Seq<GlobalV>, int), ParseErr>(e)),
{
    let ghost bytes = r.bytes@;
    let ghost elem = elem_global();
    let n = match parse_leb128_u32(r) {
        Ok(v) => v,
        Err(e) => {
            return Err(e);
        },
    };
    let ghost start = r.pos as int;
    let mut items: Vec<Global> = Vec::new();
    proof {
        lemma_vec_progress_zero(elem, bytes, start, n as nat);
        assert(view_globals(items@) =~= Seq::<GlobalV>::empty());
    }
    let mut i: u32 = 0;
    while i < n
        invariant
            r.bytes@ == bytes,
            i <= n,
            start <= r.pos as int <= bytes.len(),
            vec_progress(elem, bytes, start, n as nat, view_globals(items@), i as nat, r.pos as int),
        decreases n - i,
    {
        let ghost cur = r.pos as int;
        let ghost prev = view_globals(items@);
        let item = match Global::parse(r) {
            Ok(v) => v,
            Err(e) => {
                proof {
                    lemma_vec_progress_fail(elem, bytes, start, n as nat, prev, i as nat, cur, e);
                }
                return Err(e);
            },
        };
        proof {
            lemma_vec_progress_step(elem, bytes, start, n as nat, prev, i as nat, cur, view_global(item), r.pos as int);
            assert(view_globals(items@.push(item)) =~= prev.push(view_global(item)));
        }
        items.push(item);
        i = i + 1;
    }
    proof {
        lemma_vec_progress_finish(elem, bytes, start, n as nat, view_globals(items@), r.pos as int);
    }
    Ok(items)
}

/// A vector of exports.
#[verifier::loop_isolation(false)]
pub fn parse_exports(r: &mut Reader) -> (res: Result<Vec<Export>, ParseErr>)
    ensures
        final(r).bytes == old(r).bytes,
        (res matches Ok(v) ==> spec_vec(elem_export(), old(r).bytes@, old(r).pos as int)
            == Ok::<(Seq<ExportV>, int), ParseErr>((view_exports(v@), final(r).pos as int))
            && old(r).pos < final(r).pos <= old(r).bytes@.len()),
        (res matches Err(e) ==> spec_vec(elem_export(), old(r).bytes@, old(r).pos as int)
            == Err::<(Seq<ExportV>, int), ParseErr>(e)),
{
    let ghost bytes = r.bytes@;
    let ghost elem = elem_export();
    let n = match parse_leb128_u32(r) {
        Ok(v) => v,
        Err(e) => {
            return Err(e);
        },
    };
    let ghost start = r.pos as int;
    let mut items: Vec<Export> = Vec::new();
    proof {
        lemma_vec_progress_zero(elem, bytes, start, n as nat);
        assert(view_exports(items@) =~= Seq::<ExportV>::empty());
    }
    let mut i: u32 = 0;
    while i < n
        invariant
            r.bytes@ == bytes,
            i <= n,
            start <= r.pos as int <= bytes.len(),
            vec_progress(elem, bytes, start, n as nat, view_exports(items@), i as nat, r.pos as int),
        decreases n - i,
    {
        let ghost cur = r.pos as int;
        let ghost prev = view_exports(items@);
        let item = match Export::parse(r) {
            Ok(v) => v,
            Err(e) => {
                proof {
                    lemma_vec_progress_fail(elem, bytes, start, n as nat, prev, i as nat, cur, e);
                }
                return Err(e);
            },
        };
        proof {
            lemma_vec_progress_step(elem, bytes, start, n as nat, prev, i as nat, cur, view_export(item), r.pos as int);
            assert(view_exports(items@.push(item)) =~= prev.push(view_export(item)));
        }
        items.push(item);
        i = i + 1;
    }
    proof {
        lemma_vec_progress_finish(elem, bytes, start, n as nat, view_exports(items@), r.pos as int);
    }
    Ok(items)
}

/// A vector of code entries.
#[verifier::loop_isolation(false)]
pub fn parse_codes(r: &mut Reader) -> (res: Result<Vec<Code>, ParseErr>)
    ensures
        final(r).bytes == old(r).bytes,
        (res matches Ok(v) ==> spec_vec(elem_code(), old(r).bytes@, old(r).pos as int)
            == Ok::<(Seq<CodeV>, int), ParseErr>((view_codes(v@), final(r).pos as int))
            && old(r).pos < final(r).pos <= old(r).bytes@.len()),
        (res matches Err(e) ==> spec_vec(elem_code(), old(r).bytes@, old(r).pos as int)
            == Err::<(Seq<CodeV>, int), ParseErr>(e)),
{
    let ghost bytes = r.bytes@;
    let ghost elem = elem_code();
    let n = match parse_leb128_u32(r) {
        Ok(v) => v,
        Err(e) => {
            return Err(e);
        },
    };
    let ghost start = r.pos as int;
    let mut items: Vec<Code> = Vec::new();
    proof {
        lemma_vec_progress_zero(elem, bytes, start, n as nat);
        assert(view_codes(items@) =~= Seq::<CodeV>::empty());
    }
    let mut i: u32 = 0;
    while i < n
        invariant
            r.bytes@ == bytes,
            i <= n,
            start <= r.pos as int <= bytes.len(),
            vec_progress(elem, bytes, start, n as nat, view_codes(items@), i as nat, r.pos as int),
        decreases n - i,
    {
        let ghost cur = r.pos as int;
        let ghost prev = view_codes(items@);
        let item = match Code::parse(r) {
            Ok(v) => v,
            Err(e) => {
                proof {
                    lemma_vec_progress_fail(elem, bytes, start, n as nat, prev, i as nat, cur, e);
                }
                return Err(e);
            },
        };
        proof {
            lemma_vec_progress_step(elem, bytes, start, n as nat, prev, i as nat, cur, view_code(item), r.pos as int);
            assert(view_codes(items@.push(item)) =~= prev.push(view_code(item)));
        }
        items.push(item);
        i = i + 1;
    }
    proof {
        lemma_vec_progress_finish(elem, bytes, start, n as nat, view_codes(items@), r.pos as int);
    }
    Ok(items)
}

impl Section {
    /// One section: the id byte, the declared size, and the body, which
    /// must occupy exactly that size. Valid-but-unrecognised ids are
    /// skipped by moving the cursor the declared size ahead — possibly
    /// past the end of the stream, where the next read meets its clean
    /// end. A clean end right here, where an id would start, is `Eof`.
    #[verifier::rlimit(50)]
    pub fn parse(r: &mut Reader) -> (res: Result<Section, ParseErr>)
        ensures
            final(r).bytes == old(r).bytes,
            (res matches Ok(v) ==> spec_section(old(r).bytes@, old(r).pos as int) == Ok::<(SectionV, int), ParseErr>(
                (view_section(v), final(r).pos as int),
            ) && old(r).pos < final(r).pos),
            (res matches Err(e) ==> spec_section(old(r).bytes@, old(r).pos as int) == Err::<(SectionV, int), ParseErr>(
                e,
            )),
    {
        if r.pos >= r.bytes.len() {
            return Err(ParseErr::Eof);
        }
        let id = self_read(r);
        let size = match parse_leb128_u32(r) {
            Ok(v) => v,
            Err(e) => {
                return Err(e);
            },
        };
        let start = r.pos;
        match id {
            0 | 4 | 8 | 9 | 11 => {
                let target = match start.checked_add(size as usize) {
                    Some(t) => t,
                    None => {
                        return Err(ParseErr::OffsetOverflow);
                    },
                };
                r.pos = target;
                match id {
                    0 => Ok(Section::Custom),
                    4 => Ok(Section::Table),
                    8 => Ok(Section::Start),
                    9 => Ok(Section::Element),
                    _ => Ok(Section::Data),
                }
            },
            1 => {
                let v = match parse_func_types(r) {
                    Ok(v) => v,
                    Err(e) => {
                        return Err(e);
                    },
                };
                if r.pos - start != size as usize {
                    return Err(ParseErr::SizeMismatch);
                }
                Ok(Section::Type(v))
            },
            2 => {
                let v = match parse_imports(r) {
                    Ok(v) => v,
                    Err(e) => {
                        return Err(e);
                    },
                };
                if r.pos - start != size as usize {
                    return Err(ParseErr::SizeMismatch);
                }
                Ok(Section::Import(v))
            },
            3 => {
                let v = match parse_type_indices(r) {
                    Ok(v) => v,
                    Err(e) => {
                        return Err(e);
                    },
                };
                if r.pos - start != size as usize {
                    return Err(ParseErr::SizeMismatch);
                }
                Ok(Section::Function(v))
            },
            5 => {
                let v = match parse_limits_list(r) {
                    Ok(v) => v,
                    Err(e) => {
                        return Err(e);
                    },
                };
                if r.pos - start != size as usize {
                    return Err(ParseErr::SizeMismatch);
                }
                Ok(Section::Memory(v))
            },
            6 => {
                let v = match parse_globals(r) {
                    Ok(v) => v,
                    Err(e) => {
                        return Err(e);
                    },
                };
                if r.pos - start != size as usize {
                    return Err(ParseErr::SizeMismatch);
                }
                Ok(Section::Global(v))
            },
            7 => {
                let v = match parse_exports(r) {
                    Ok(v) => v,
                    Err(e) => {
                        return Err(e);
                    },
                };
                if r.pos - start != size as usize {
                    return Err(ParseErr::SizeMismatch);
                }
                Ok(Section::Export(v))
            },
            10 => {
                let v = match parse_codes(r) {
                    Ok(v) => v,
                    Err(e) => {
                        return Err(e);
                    },
                };
                if r.pos - start != size as usize {
                    return Err(ParseErr::SizeMismatch);
                }
                Ok(Section::Code(v))
            },
            _ => Err(ParseErr::BadSectionId(id)),
        }
    }
}

/// All sections until the stream's clean end.
#[verifier::loop_isolation(false)]
pub fn parse_sections(r: &mut Reader) -> (res: Result<Vec<Section>, ParseErr>)
    ensures
        final(r).bytes == old(r).bytes,
        (res matches Ok(v) ==> (spec_sections(old(r).bytes@, old(r).pos as int) matches Ok(rr)
            && rr.0 == view_sections(v@))),
        (res matches Err(e) ==> spec_sections(old(r).bytes@, old(r).pos as int) == Err::<(Seq<SectionV>, int), ParseErr>(
            e,
        )),
{
    let ghost bytes = r.bytes@;
    let ghost pos0 = r.pos as int;
    let mut sections: Vec<Section> = Vec::new();
    proof {
        match spec_sections(bytes, pos0) {
            Ok(rest) => {
                assert(view_sections(sections@) + rest.0 =~= rest.0);
                assert(Ok::<(Seq<SectionV>, int), ParseErr>((view_sections(sections@) + rest.0, rest.1))
                    == Ok::<(Seq<SectionV>, int), ParseErr>(rest));
            },
            Err(_) => {},
        }
    }
    loop
        invariant
            r.bytes@ == bytes,
            pos0 <= r.pos as int,
            (spec_sections(bytes, pos0) == (match spec_sections(bytes, r.pos as int) {
                Ok(rest) => Ok::<(Seq<SectionV>, int), ParseErr>(
                    (view_sections(sections@) + rest.0, rest.1),
                ),
                Err(e) => Err::<(Seq<SectionV>, int), ParseErr>(e),
            })),
        decreases bytes.len() - r.pos,
    {
        let ghost cur = r.pos as int;
        let ghost acc = view_sections(sections@);
        if r.pos >= r.bytes.len() {
            proof {
                assert(spec_sections(bytes, cur) == Ok::<(Seq<SectionV>, int), ParseErr>(
                    (Seq::empty(), cur),
                ));
                assert(acc + Seq::<SectionV>::empty() =~= acc);
            }
            return Ok(sections);
        }
        let s = match Section::parse(r) {
            Ok(v) => v,
            Err(e) => {
                proof {
                    if e is Eof {
                        assert(spec_sections(bytes, cur) == Ok::<(Seq<SectionV>, int), ParseErr>(
                            (Seq::empty(), cur),
                        ));
                        assert(acc + Seq::<SectionV>::empty() =~= acc);
                    }
                }
                if matches!(e, ParseErr::Eof) {
                    return Ok(sections);
                }
                return Err(e);
            },
        };
        proof {
            let sv = view_section(s);
            let p2 = r.pos as int;
            if p2 >= bytes.len() {
                assert(spec_sections(bytes, cur) == Ok::<(Seq<SectionV>, int), ParseErr>(
                    (seq![sv], p2),
                ));
                assert(spec_sections(bytes, p2) == Ok::<(Seq<SectionV>, int), ParseErr>(
                    (Seq::empty(), p2),
                ));
                assert(seq![sv] + Seq::<SectionV>::empty() =~= seq![sv]);
            } else {
                assert(spec_sections(bytes, cur) == (match spec_sections(bytes, p2) {
                    Ok(rest) => Ok::<(Seq<SectionV>, int), ParseErr>((seq![sv] + rest.0, rest.1)),
                    Err(e) => Err::<(Seq<SectionV>, int), ParseErr>(e),
                }));
            }
            match spec_sections(bytes, p2) {
                Ok(rest) => {
                    assert(acc + (seq![sv] + rest.0) =~= acc.push(sv) + rest.0);
                },
                Err(_) => {},
            }
            assert(view_sections(sections@.push(s)) =~= acc.push(sv));
        }
        sections.push(s);
        if r.pos >= r.bytes.len() {
            proof {
                assert(spec_sections(bytes, r.pos as int) == Ok::<(Seq<SectionV>, int), ParseErr>(
                    (Seq::empty(), r.pos as int),
                ));
                assert(view_sections(sections@) + Seq::<SectionV>::empty() =~= view_sections(
                    sections@,
                ));
            }
            return Ok(sections);
        }
    }
}

impl Preamble {
    /// The module preamble: the magic bytes `\0asm`, then the version
    /// `[1, 0, 0, 0]`.
    pub fn parse(r: &mut Reader) -> (res: Result<Preamble, ParseErr>)
        ensures
            final(r).bytes == old(r).bytes,
            (res matches Ok(v) ==> spec_preamble(old(r).bytes@, old(r).pos as int) == Ok::<(Seq<u8>, int), ParseErr>(
                (old(r).bytes@.subrange(old(r).pos as int, old(r).pos + 8), final(r).pos as int),
            ) && final(r).pos == old(r).pos + 8 && v.magic@ == old(r).bytes@.subrange(
                old(r).pos as int,
                old(r).pos + 4,
            ) && v.version@ == old(r).bytes@.subrange(old(r).pos + 4, old(r).pos + 8)),
            (res matches Err(e) ==> spec_preamble(old(r).bytes@, old(r).pos as int) == Err::<(Seq<u8>, int), ParseErr>(
                e,
            )),
    {
        let ghost bytes = r.bytes@;
        let ghost pos0 = r.pos as int;
        if r.bytes.len() < 4 || r.pos > r.bytes.len() - 4 {
            return Err(ParseErr::UnexpectedEof);
        }
        let m0 = self_read(r);
        let m1 = self_read(r);
        let m2 = self_read(r);
        let m3 = self_read(r);
        if !(m0 == 0 && m1 == 0x61 && m2 == 0x73 && m3 == 0x6d) {
            return Err(ParseErr::BadMagic);
        }
        if r.bytes.len() < 4 || r.pos > r.bytes.len() - 4 {
            return Err(ParseErr::UnexpectedEof);
        }
        let v0 = self_read(r);
        let v1 = self_read(r);
        let v2 = self_read(r);
        let v3 = self_read(r);
        if !(v0 == 1 && v1 == 0 && v2 == 0 && v3 == 0) {
            return Err(ParseErr::BadVersion);
        }
        let p = Preamble { magic: [m0, m1, m2, m3], version: [v0, v1, v2, v3] };
        proof {
            assert(p.magic@ =~= bytes.subrange(pos0, pos0 + 4));
            assert(p.version@ =~= bytes.subrange(pos0 + 4, pos0 + 8));
        }
        Ok(p)
    }
}

impl Module {
    /// Decodes a whole module from its binary bytes: the preamble, then
    /// sections until the clean end of the stream, each recognised
    /// section's contents replacing the matching component — so a later
    /// section of the same kind wins — and skipped kinds left alone.
    /// Returns exactly what the format specification assigns to the
    /// bytes: the same module on success, the same error otherwise.
    #[verifier::loop_isolation(false)]
    #[verifier::rlimit(50)]
    pub fn parse(bytes: &[u8]) -> (res: Result<Module, ParseErr>)
        ensures
            (res matches Ok(m) ==> spec_module(bytes@) == Ok::<crate::format::ModuleV, ParseErr>(
                view_module(m),
            )),
            (res matches Err(e) ==> spec_module(bytes@) == Err::<crate::format::ModuleV, ParseErr>(
                e,
            )),
    {
        let mut r = Reader::new(bytes);
        let preamble = match Preamble::parse(&mut r) {
            Ok(p) => p,
            Err(e) => {
                return Err(e);
            },
        };
        let mut sections = match parse_sections(&mut r) {
            Ok(s) => s,
            Err(e) => {
                return Err(e);
            },
        };
        let ghost all = view_sections(sections@);
        let ghost total = sections@.len() as int;
        let ghost orig = sections@;
        let mut module = Module {
            preamble,
            types: Vec::new(),
            imports: Vec::new(),
            functions: Vec::new(),
            memories: Vec::new(),
            globals: Vec::new(),
            exports: Vec::new(),
            codes: Vec::new(),
        };
        proof {
            assert(view_module(module).magic =~= bytes@.subrange(0, 8).take(4));
            assert(view_module(module).version =~= bytes@.subrange(0, 8).skip(4));
            assert(view_func_types(module.types@) =~= Seq::<FuncTypeV>::empty());
            assert(view_imports(module.imports@) =~= Seq::<ImportV>::empty());
            assert(view_globals(module.globals@) =~= Seq::<GlobalV>::empty());
            assert(view_exports(module.exports@) =~= Seq::<ExportV>::empty());
            assert(view_codes(module.codes@) =~= Seq::<CodeV>::empty());
            assert(view_module(module) == crate::format::spec_empty_module(bytes@.subrange(0, 8)));
        }
        let ghost target = spec_fold_sections(view_module(module), all);
        let mut rev: Vec<Section> = Vec::new();
        loop
            invariant
                sections@.len() + rev@.len() == total,
                sections@ =~= orig.take(sections@.len() as int),
                (forall|j: int| 0 <= j < rev@.len() ==> rev@[j] == orig[total - 1 - j]),
            decreases sections@.len(),
        {
            match sections.pop() {
                Some(s) => {
                    proof {
                        assert(s == orig[sections@.len() as int]);
                    }
                    rev.push(s);
                },
                None => {
                    break;
                },
            }
        }
        proof {
            assert(all.skip(0) =~= all);
        }
        loop
            invariant
                rev@.len() <= total,
                (forall|j: int| 0 <= j < rev@.len() ==> rev@[j] == orig[total - 1 - j]),
                spec_fold_sections(view_module(module), all.skip(total - rev@.len())) == target,
            decreases rev@.len(),
        {
            let ghost i = total - rev@.len();
            match rev.pop() {
                Some(s) => {
                    proof {
                        assert(s == orig[i]);
                        assert(all[i] == view_section(s));
                        assert(all.skip(i)[0] == all[i]);
                        assert(all.skip(i).drop_first() =~= all.skip(i + 1));
                    }
                    let ghost before = view_module(module);
                    match s {
                        Section::Type(v) => {
                            module.types = v;
                        },
                        Section::Import(v) => {
                            module.imports = v;
                        },
                        Section::Function(v) => {
                            module.functions = v;
                        },
                        Section::Memory(v) => {
                            module.memories = v;
                        },
                        Section::Global(v) => {
                            module.globals = v;
                        },
                        Section::Export(v) => {
                            module.exports = v;
                        },
                        Section::Code(v) => {
                            module.codes = v;
                        },
                        _ => {},
                    }
                    proof {
                        assert(spec_fold_sections(before, all.skip(i)) == spec_fold_sections(
                            view_module(module),
                            all.skip(i + 1),
                        ));
                    }
                },
                None => {
                    break;
                },
            }
        }
        proof {
            assert(all.skip(total) =~= Seq::<SectionV>::empty());
            assert(view_module(module) == target);
        }
        Ok(module)
    }
}

} // verus!
