use jack_compiler::symbol_table::{IdentifierKind, Record, SymbolTable, Table};
use jack_compiler::tokenizer::JackTokenizer;
use jack_compiler::tokens::{KeyWord, TokenType};
use jack_compiler::error::CompileError;
use jack_compiler::vm_writer::{Command, Segment, VMWriter};

#[test]
fn lookups_return_what_was_defined() {
    let mut st = SymbolTable::new();
    st.define("a".to_string(), "int".to_string(), IdentifierKind::STATIC);
    st.define("b".to_string(), "Point".to_string(), IdentifierKind::FIELD);
    st.define("c".to_string(), "int".to_string(), IdentifierKind::FIELD);
    st.define("d".to_string(), "boolean".to_string(), IdentifierKind::ARG);
    st.define("e".to_string(), "char".to_string(), IdentifierKind::VAR);
    assert_eq!(st.kind_of("a".to_string()), Some(IdentifierKind::STATIC));
    assert_eq!(st.type_of("a".to_string()), Some("int".to_string()));
    assert_eq!(st.index_of("a".to_string()), Some(0));
    assert_eq!(st.kind_of("b".to_string()), Some(IdentifierKind::FIELD));
    assert_eq!(st.index_of("b".to_string()), Some(0));
    assert_eq!(st.index_of("c".to_string()), Some(1));
    assert_eq!(st.kind_of("d".to_string()), Some(IdentifierKind::ARG));
    assert_eq!(st.index_of("d".to_string()), Some(0));
    assert_eq!(st.type_of("e".to_string()), Some("char".to_string()));
    assert_eq!(st.kind_of("nope".to_string()), None);
    assert_eq!(st.var_count(IdentifierKind::FIELD), 2);
    assert_eq!(st.var_count(IdentifierKind::STATIC), 1);
    assert_eq!(st.var_count(IdentifierKind::ARG), 1);
    assert_eq!(st.var_count(IdentifierKind::VAR), 1);
}

#[test]
fn subroutine_scope_shadows_class_scope() {
    let mut st = SymbolTable::new();
    st.define("x".to_string(), "int".to_string(), IdentifierKind::FIELD);
    st.define("x".to_string(), "Array".to_string(), IdentifierKind::VAR);
    assert_eq!(st.kind_of("x".to_string()), Some(IdentifierKind::VAR));
    assert_eq!(st.type_of("x".to_string()), Some("Array".to_string()));
    assert_eq!(st.index_of("x".to_string()), Some(0));
}

#[test]
fn redefinition_in_one_scope_lets_the_last_write_win() {
    let mut st = SymbolTable::new();
    st.define("x".to_string(), "int".to_string(), IdentifierKind::STATIC);
    st.define("x".to_string(), "boolean".to_string(), IdentifierKind::STATIC);
    assert_eq!(st.type_of("x".to_string()), Some("boolean".to_string()));
    assert_eq!(st.index_of("x".to_string()), Some(1));
    assert_eq!(st.var_count(IdentifierKind::STATIC), 2);
}

#[test]
fn start_subroutine_resets_the_inner_scope_only() {
    let mut st = SymbolTable::new();
    st.define("f".to_string(), "int".to_string(), IdentifierKind::FIELD);
    st.define("p".to_string(), "int".to_string(), IdentifierKind::ARG);
    st.define("v".to_string(), "int".to_string(), IdentifierKind::VAR);
    st.start_subroutine();
    assert_eq!(st.var_count(IdentifierKind::ARG), 0);
    assert_eq!(st.var_count(IdentifierKind::VAR), 0);
    assert_eq!(st.kind_of("p".to_string()), None);
    assert_eq!(st.kind_of("v".to_string()), None);
    assert_eq!(st.kind_of("f".to_string()), Some(IdentifierKind::FIELD));
    st.define("p2".to_string(), "int".to_string(), IdentifierKind::ARG);
    assert_eq!(st.index_of("p2".to_string()), Some(0));
}

#[test]
fn scope_tables_count_insertions_per_kind() {
    let mut t = Table::new();
    assert_eq!(t.get_count(IdentifierKind::ARG), 0);
    t.insert("a".to_string(), "int".to_string(), IdentifierKind::ARG);
    t.insert("b".to_string(), "int".to_string(), IdentifierKind::ARG);
    t.insert("c".to_string(), "int".to_string(), IdentifierKind::VAR);
    assert_eq!(t.get_count(IdentifierKind::ARG), 2);
    assert_eq!(t.get_count(IdentifierKind::VAR), 1);
    let rec = t.get_record("b".to_string()).expect("record missing");
    assert_eq!(rec.kind(), IdentifierKind::ARG);
    assert_eq!(rec.index(), 1);
    assert_eq!(rec.var_type(), "int");
    assert!(t.get_record("zz".to_string()).is_none());
}

#[test]
fn records_carry_their_parts() {
    let r = Record::new("Square".to_string(), IdentifierKind::FIELD, 4);
    assert_eq!(r.var_type(), "Square");
    assert_eq!(r.kind(), IdentifierKind::FIELD);
    assert_eq!(r.index(), 4);
}

#[test]
fn tokens_classify_in_order() {
    let mut t = JackTokenizer::new("let x = 5; \"hi\"".to_string()).expect("tokenizing failed");
    assert_eq!(t.token_type(), TokenType::KEYWORD);
    assert_eq!(t.key_word(), KeyWord::LET);
    assert!(t.has_more_tokens());
    t.advance();
    assert_eq!(t.token_type(), TokenType::IDENTIFIER);
    assert_eq!(t.identifier(), "x".to_string());
    t.advance();
    assert_eq!(t.token_type(), TokenType::SYMBOL);
    assert_eq!(t.symbol(), '=');
    t.advance();
    assert_eq!(t.token_type(), TokenType::INT_CONST);
    assert_eq!(t.int_val(), 5);
    t.advance();
    assert_eq!(t.symbol(), ';');
    t.advance();
    assert_eq!(t.token_type(), TokenType::STRING_CONST);
    assert_eq!(t.string_val(), "hi".to_string());
    assert!(!t.has_more_tokens());
    t.rewind();
    assert_eq!(t.token_type(), TokenType::KEYWORD);
    assert_eq!(t.key_word(), KeyWord::LET);
}

#[test]
fn a_keyword_must_stand_alone() {
    let mut t = JackTokenizer::new("classy class".to_string()).expect("tokenizing failed");
    assert_eq!(t.token_type(), TokenType::IDENTIFIER);
    assert_eq!(t.identifier(), "classy".to_string());
    t.advance();
    assert_eq!(t.token_type(), TokenType::KEYWORD);
    assert_eq!(t.key_word(), KeyWord::CLASS);
}

#[test]
fn comments_vanish_before_tokens_form() {
    let mut t = JackTokenizer::new(
        "// top\nwhile /* inner */ 7 / 2 // tail\n".to_string(),
    )
    .expect("tokenizing failed");
    assert_eq!(t.key_word(), KeyWord::WHILE);
    t.advance();
    assert_eq!(t.int_val(), 7);
    t.advance();
    assert_eq!(t.symbol(), '/');
    t.advance();
    assert_eq!(t.int_val(), 2);
    assert!(!t.has_more_tokens());
}

#[test]
fn integer_bounds_hold_at_the_16_bit_limit() {
    let t = JackTokenizer::new("65535".to_string()).expect("tokenizing failed");
    assert_eq!(t.int_val(), 65535);
    assert_eq!(
        JackTokenizer::new("65536".to_string()).err().unwrap(),
        CompileError::IntegerTooLarge
    );
}

#[test]
fn writer_renders_every_command_form() {
    let mut w = VMWriter::new();
    w.write_push(Segment::ARG, 3);
    w.write_push(Segment::LOCAL, 1);
    w.write_push(Segment::STATIC, 2);
    w.write_push(Segment::THIS, 4);
    w.write_pop(Segment::THAT, 0);
    w.write_pop(Segment::POINTER, 1);
    w.write_pop(Segment::TEMP, 0);
    w.write_push(Segment::CONSTANT, 12345);
    w.write_arithmetic(Command::ADD);
    w.write_arithmetic(Command::SUB);
    w.write_arithmetic(Command::NEG);
    w.write_arithmetic(Command::EQ);
    w.write_arithmetic(Command::GT);
    w.write_arithmetic(Command::LT);
    w.write_arithmetic(Command::AND);
    w.write_arithmetic(Command::OR);
    w.write_arithmetic(Command::NOT);
    w.write_label("L1".to_string());
    w.write_goto("L1".to_string());
    w.write_if("L1".to_string());
    w.write_call("Math.max".to_string(), 2);
    w.write_function("F.g".to_string(), 3);
    w.write_return();
    let expected: Vec<String> = [
        "push argument 3",
        "push local 1",
        "push static 2",
        "push this 4",
        "pop that 0",
        "pop pointer 1",
        "pop temp 0",
        "push constant 12345",
        "add",
        "sub",
        "neg",
        "eq",
        "gt",
        "lt",
        "and",
        "or",
        "not",
        "label L1",
        "goto L1",
        "if-goto L1",
        "call Math.max 2",
        "function F.g 3",
        "return",
    ]
    .iter()
    .map(|s| s.to_string())
    .collect();
    assert_eq!(w.output(), expected);
}
