use jack_compiler::asm_parser as assembler;
use jack_compiler::asm_symbol_table::{predefined_symbol_table, SymbolTable};
use jack_compiler::lines::parse_u16;
use jack_compiler::vm_basic_parser as vm1;
use jack_compiler::vm_parser as vm2;

#[test]
fn assembly_lines_skip_blanks_and_comments() {
    let src = "// program\n\n@2\n  D=A  // load\n@3\nD=D+A;JNE\n(LOOP)\n0;JMP\n";
    let mut p = assembler::Parser::new(src);
    assert!(p.has_more_commands());
    p.advance();
    assert_eq!(p.command_type(), assembler::CommandType::ACommand);
    assert_eq!(p.symbol(), "2".to_string());
    p.advance();
    assert_eq!(p.command_type(), assembler::CommandType::CCommand);
    assert_eq!(p.dest(), Some("D".to_string()));
    assert_eq!(p.comp(), "A".to_string());
    assert_eq!(p.jump(), None);
    p.advance();
    assert_eq!(p.symbol(), "3".to_string());
    p.advance();
    assert_eq!(p.dest(), Some("D".to_string()));
    assert_eq!(p.comp(), "D+A".to_string());
    assert_eq!(p.jump(), Some("JNE".to_string()));
    p.advance();
    assert_eq!(p.command_type(), assembler::CommandType::LCommand);
    assert_eq!(p.symbol(), "LOOP".to_string());
    p.advance();
    assert_eq!(p.command_type(), assembler::CommandType::CCommand);
    assert_eq!(p.dest(), None);
    assert_eq!(p.comp(), "0".to_string());
    assert_eq!(p.jump(), Some("JMP".to_string()));
    assert!(!p.has_more_commands());
}

#[test]
fn predefined_symbols_are_all_bound() {
    let st = predefined_symbol_table();
    assert!(st.contains("SP"));
    assert_eq!(st.get_address("SP"), 0);
    assert_eq!(st.get_address("LCL"), 1);
    assert_eq!(st.get_address("ARG"), 2);
    assert_eq!(st.get_address("THIS"), 3);
    assert_eq!(st.get_address("THAT"), 4);
    assert_eq!(st.get_address("R13"), 13);
    assert_eq!(st.get_address("SCREEN"), 16384);
    assert_eq!(st.get_address("KBD"), 24576);
    assert!(!st.contains("FOO"));
}

#[test]
fn added_entries_overwrite_earlier_bindings() {
    let mut st = SymbolTable::new();
    assert!(!st.contains("x"));
    st.add_entry("x", 16);
    assert!(st.contains("x"));
    assert_eq!(st.get_address("x"), 16);
    st.add_entry("x", 99);
    assert_eq!(st.get_address("x"), 99);
    st.add_entry("y", 17);
    assert_eq!(st.get_address("y"), 17);
    assert_eq!(st.get_address("x"), 99);
}

#[test]
fn stack_machine_commands_come_apart_by_kind() {
    let src = "// file\npush constant 7\nadd\nlabel L\ngoto L\nif-goto L\nfunction f 2\ncall f 1\nreturn\npop local 3\n";
    let mut p = vm2::Parser::new(src);
    p.advance();
    assert_eq!(p.command_type(), vm2::CommandType::CPush);
    assert_eq!(p.arg1(), "constant".to_string());
    assert_eq!(p.arg2(), 7);
    p.advance();
    assert_eq!(p.command_type(), vm2::CommandType::CArithmetic);
    assert_eq!(p.arg1(), "add".to_string());
    p.advance();
    assert_eq!(p.command_type(), vm2::CommandType::CLabel);
    assert_eq!(p.arg1(), "L".to_string());
    p.advance();
    assert_eq!(p.command_type(), vm2::CommandType::CGoto);
    p.advance();
    assert_eq!(p.command_type(), vm2::CommandType::CIf);
    p.advance();
    assert_eq!(p.command_type(), vm2::CommandType::CFunction);
    assert_eq!(p.arg1(), "f".to_string());
    assert_eq!(p.arg2(), 2);
    p.advance();
    assert_eq!(p.command_type(), vm2::CommandType::CCall);
    assert_eq!(p.arg2(), 1);
    p.advance();
    assert_eq!(p.command_type(), vm2::CommandType::CReturn);
    p.advance();
    assert_eq!(p.command_type(), vm2::CommandType::CPop);
    assert_eq!(p.arg1(), "local".to_string());
    assert_eq!(p.arg2(), 3);
    assert!(!p.has_more_commands());
}

#[test]
fn the_first_stage_tells_pushes_from_arithmetic() {
    let src = "push constant 7\nadd\n";
    let mut p = vm1::Parser::new(src);
    assert!(p.has_more_commands());
    p.advance();
    assert_eq!(p.command_type(), vm1::CommandType::CPush);
    assert_eq!(p.arg1(), "constant".to_string());
    assert_eq!(p.arg2(), 7);
    p.advance();
    assert_eq!(p.command_type(), vm1::CommandType::CArithmetic);
    assert_eq!(p.arg1(), "add".to_string());
    assert!(!p.has_more_commands());
}

#[test]
fn sixteen_bit_numbers_parse_exactly() {
    assert_eq!(parse_u16(&"0".to_string()), Some(0));
    assert_eq!(parse_u16(&"65535".to_string()), Some(65535));
    assert_eq!(parse_u16(&"65536".to_string()), None);
    assert_eq!(parse_u16(&"".to_string()), None);
    assert_eq!(parse_u16(&"12a".to_string()), None);
    assert_eq!(parse_u16(&"00042".to_string()), Some(42));
}
