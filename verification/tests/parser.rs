use wario::format::ParseErr;
use wario::vm::{ExternFunction, HostFunction, Machine};
use wario::wasm::{
    ExportDescriptor, FuncIdx, ImportDescriptor, Instruction, LabelIdx, LocalIdx, Module,
    Mutability, TypeIdx, ValueType,
};

/// A host function that does nothing and returns nothing.
struct Quiet;

impl HostFunction for Quiet {
    fn call(&mut self, _args: &[i32]) -> Option<i32> {
        None
    }
}

fn preamble() -> Vec<u8> {
    vec![0x00, 0x61, 0x73, 0x6d, 0x01, 0x00, 0x00, 0x00]
}

fn section(id: u8, body: &[u8]) -> Vec<u8> {
    let mut out = vec![id, body.len() as u8];
    out.extend_from_slice(body);
    out
}

#[test]
fn parse_empty_module() {
    let bytes = preamble();
    let module = Module::parse(&bytes).unwrap();
    assert_eq!(module.preamble.magic, [0x00, 0x61, 0x73, 0x6d]);
    assert_eq!(module.preamble.version, [1, 0, 0, 0]);
    assert_eq!(module.types.len(), 0);
    assert_eq!(module.imports.len(), 0);
    assert_eq!(module.functions.len(), 0);
    assert_eq!(module.memories.len(), 0);
    assert_eq!(module.globals.len(), 0);
    assert_eq!(module.exports.len(), 0);
    assert_eq!(module.codes.len(), 0);
}

#[test]
fn parse_bad_magic() {
    let bytes = vec![0x00, 0x61, 0x73, 0x6e, 0x01, 0x00, 0x00, 0x00];
    assert_eq!(Module::parse(&bytes), Err(ParseErr::BadMagic));
}

#[test]
fn parse_bad_version() {
    let bytes = vec![0x00, 0x61, 0x73, 0x6d, 0x02, 0x00, 0x00, 0x00];
    assert_eq!(Module::parse(&bytes), Err(ParseErr::BadVersion));
}

#[test]
fn parse_truncated_preamble() {
    let bytes = vec![0x00, 0x61, 0x73];
    assert_eq!(Module::parse(&bytes), Err(ParseErr::UnexpectedEof));
}

#[test]
fn parse_type_section() {
    let mut bytes = preamble();
    // One function type: (i32, i32) -> i32.
    bytes.extend_from_slice(&section(1, &[0x01, 0x60, 0x02, 0x7f, 0x7f, 0x01, 0x7f]));
    let module = Module::parse(&bytes).unwrap();
    assert_eq!(module.types.len(), 1);
    assert_eq!(module.types[0].parameter_types, vec![ValueType::I32, ValueType::I32]);
    assert_eq!(module.types[0].result_types, vec![ValueType::I32]);
}

#[test]
fn parse_function_section() {
    let mut bytes = preamble();
    bytes.extend_from_slice(&section(1, &[0x01, 0x60, 0x00, 0x00]));
    bytes.extend_from_slice(&section(3, &[0x01, 0x00]));
    let module = Module::parse(&bytes).unwrap();
    assert_eq!(module.functions, vec![TypeIdx(0)]);
}

#[test]
fn parse_memory_section() {
    let mut bytes = preamble();
    // Two memories: min 128 without max (a two-byte LEB128 count), and
    // min 1 with max 2.
    bytes.extend_from_slice(&section(5, &[0x02, 0x00, 0x80, 0x01, 0x01, 0x01, 0x02]));
    let module = Module::parse(&bytes).unwrap();
    assert_eq!(module.memories.len(), 2);
    assert_eq!(module.memories[0].min, 128);
    assert_eq!(module.memories[0].max, None);
    assert_eq!(module.memories[1].min, 1);
    assert_eq!(module.memories[1].max, Some(2));
}

#[test]
fn parse_global_section() {
    let mut bytes = preamble();
    // One variable i32 global initialised to 42.
    bytes.extend_from_slice(&section(6, &[0x01, 0x7f, 0x01, 0x41, 0x2a, 0x0b]));
    let module = Module::parse(&bytes).unwrap();
    assert_eq!(module.globals.len(), 1);
    assert_eq!(module.globals[0].global_type.value_type, ValueType::I32);
    assert_eq!(module.globals[0].global_type.mutability, Mutability::Variable);
    assert_eq!(module.globals[0].expression, vec![Instruction::I32Const(42)]);
}

#[test]
fn parse_export_section() {
    let mut bytes = preamble();
    // One export: "run" -> function 0.
    bytes.extend_from_slice(&section(7, &[0x01, 0x03, b'r', b'u', b'n', 0x00, 0x00]));
    let module = Module::parse(&bytes).unwrap();
    assert_eq!(module.exports.len(), 1);
    assert_eq!(module.exports[0].name.0, "run");
    assert_eq!(module.exports[0].descriptor, ExportDescriptor::Func(FuncIdx(0)));
}

#[test]
fn parse_import_section_utf8_name() {
    let mut bytes = preamble();
    // One import: module "env", a two-byte UTF-8 name, a function of
    // type 0.
    bytes.extend_from_slice(&section(
        2,
        &[0x01, 0x03, b'e', b'n', b'v', 0x02, 0xc3, 0xa9, 0x00, 0x00],
    ));
    let module = Module::parse(&bytes).unwrap();
    assert_eq!(module.imports.len(), 1);
    assert_eq!(module.imports[0].module.0, "env");
    assert_eq!(module.imports[0].name.0, "\u{e9}");
    assert_eq!(module.imports[0].descriptor, ImportDescriptor::Func(TypeIdx(0)));
}

#[test]
fn parse_bad_utf8_name() {
    let mut bytes = preamble();
    bytes.extend_from_slice(&section(2, &[0x01, 0x01, 0xff, 0x00, 0x00, 0x00]));
    assert_eq!(Module::parse(&bytes), Err(ParseErr::BadUtf8));
}

#[test]
fn parse_code_section() {
    let mut bytes = preamble();
    // One body: two i32 locals in one run, then `i32.const 5; end`.
    bytes.extend_from_slice(&section(10, &[0x01, 0x06, 0x01, 0x02, 0x7f, 0x41, 0x05, 0x0b]));
    let module = Module::parse(&bytes).unwrap();
    assert_eq!(module.codes.len(), 1);
    assert_eq!(module.codes[0].locals, vec![ValueType::I32, ValueType::I32]);
    assert_eq!(module.codes[0].body, vec![Instruction::I32Const(5)]);
}

#[test]
fn parse_negative_constant() {
    let mut bytes = preamble();
    // `i32.const -2` is the single signed LEB128 byte 0x7e.
    bytes.extend_from_slice(&section(10, &[0x01, 0x04, 0x00, 0x41, 0x7e, 0x0b]));
    let module = Module::parse(&bytes).unwrap();
    assert_eq!(module.codes[0].body, vec![Instruction::I32Const(-2)]);
}

#[test]
fn parse_structured_instructions() {
    let mut bytes = preamble();
    // A body holding `block (loop (br 1) end) end; br_if 0; end`.
    bytes.extend_from_slice(&section(
        10,
        &[0x01, 0x0c, 0x00, 0x02, 0x40, 0x03, 0x40, 0x0c, 0x01, 0x0b, 0x0b, 0x0d, 0x00, 0x0b],
    ));
    let module = Module::parse(&bytes).unwrap();
    assert_eq!(
        module.codes[0].body,
        vec![
            Instruction::Block(
                wario::wasm::BlockType::Empty,
                vec![Instruction::Loop(
                    wario::wasm::BlockType::Empty,
                    vec![Instruction::Branch(LabelIdx(1))],
                )],
            ),
            Instruction::BranchIf(LabelIdx(0)),
        ],
    );
}

#[test]
fn parse_unknown_opcode_reports_offset() {
    let mut bytes = preamble();
    bytes.extend_from_slice(&section(10, &[0x01, 0x03, 0x00, 0xff, 0x0b]));
    // The bad opcode sits right after the preamble (8), the section
    // header (2), the entry count (1), the entry size (1) and the
    // locals vector (1).
    assert_eq!(
        Module::parse(&bytes),
        Err(ParseErr::BadOpcode { opcode: 0xff, offset: 13 }),
    );
}

#[test]
fn parse_section_size_mismatch() {
    let mut bytes = preamble();
    // The type section declares 5 bytes but its body takes 4.
    bytes.extend_from_slice(&[0x01, 0x05, 0x01, 0x60, 0x00, 0x00]);
    bytes.push(0x00);
    assert_eq!(Module::parse(&bytes), Err(ParseErr::SizeMismatch));
}

#[test]
fn parse_code_size_mismatch() {
    let mut bytes = preamble();
    // The code entry declares 5 bytes but its body takes 4.
    bytes.extend_from_slice(&section(10, &[0x01, 0x05, 0x00, 0x41, 0x05, 0x0b, 0x0b]));
    assert_eq!(Module::parse(&bytes), Err(ParseErr::SizeMismatch));
}

#[test]
fn parse_bad_section_id() {
    let mut bytes = preamble();
    bytes.extend_from_slice(&[0x0c, 0x00]);
    assert_eq!(Module::parse(&bytes), Err(ParseErr::BadSectionId(0x0c)));
}

#[test]
fn parse_skips_custom_section() {
    let mut bytes = preamble();
    bytes.extend_from_slice(&section(0, &[0xde, 0xad, 0xbe, 0xef]));
    bytes.extend_from_slice(&section(5, &[0x01, 0x00, 0x0a]));
    let module = Module::parse(&bytes).unwrap();
    assert_eq!(module.memories.len(), 1);
    assert_eq!(module.memories[0].min, 10);
}

#[test]
fn parse_skip_past_end_is_clean() {
    let mut bytes = preamble();
    // A custom section whose declared size runs past the end of the
    // stream: the skip lands beyond it, and the parse ends cleanly.
    bytes.extend_from_slice(&[0x00, 0x20, 0x01, 0x02]);
    let module = Module::parse(&bytes).unwrap();
    assert_eq!(module.types.len(), 0);
}

#[test]
fn parse_later_section_wins() {
    let mut bytes = preamble();
    bytes.extend_from_slice(&section(5, &[0x01, 0x00, 0x0a]));
    bytes.extend_from_slice(&section(5, &[0x01, 0x00, 0x14]));
    let module = Module::parse(&bytes).unwrap();
    assert_eq!(module.memories.len(), 1);
    assert_eq!(module.memories[0].min, 20);
}

#[test]
fn parse_truncated_section_body() {
    let mut bytes = preamble();
    // A type section that promises one entry and ends mid-way.
    bytes.extend_from_slice(&[0x01, 0x02, 0x01, 0x60]);
    assert_eq!(Module::parse(&bytes), Err(ParseErr::UnexpectedEof));
}

#[test]
fn parse_overlong_integer() {
    let mut bytes = preamble();
    // A section size of six LEB128 continuation bytes runs past 32 bits.
    bytes.extend_from_slice(&[0x01, 0x80, 0x80, 0x80, 0x80, 0x80, 0x01]);
    assert_eq!(Module::parse(&bytes), Err(ParseErr::IntTooLong));
}

#[test]
fn parse_then_execute() {
    let mut bytes = preamble();
    // One function taking two parameters, returning their difference.
    bytes.extend_from_slice(&section(1, &[0x01, 0x60, 0x02, 0x7f, 0x7f, 0x01, 0x7f]));
    bytes.extend_from_slice(&section(3, &[0x01, 0x00]));
    bytes.extend_from_slice(&section(10, &[0x01, 0x07, 0x00, 0x20, 0x00, 0x20, 0x01, 0x6b, 0x0b]));
    let module = Module::parse(&bytes).unwrap();
    assert_eq!(module.functions.len(), 1);
    assert_eq!(module.codes.len(), 1);

    let module_functions = vec![];
    let mut extern_functions: Vec<ExternFunction<Quiet>> = vec![];
    let mut locals = vec![5, 3];
    let mut machine = Machine::new();
    machine
        .invoke(&module.codes[0].body, &module_functions, &mut extern_functions, &mut locals, 1 << 20)
        .unwrap();
    assert_eq!(machine.stack, vec![2]);
}
