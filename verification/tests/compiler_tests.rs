use jack_compiler::engine::CompilationEngine;
use jack_compiler::error::CompileError;

fn compile(src: &str) -> Vec<String> {
    let mut engine = CompilationEngine::new(src.to_string()).expect("tokenizing failed");
    engine.compile_class().expect("compiling failed");
    engine.vm_output()
}

fn lines(expected: &[&str]) -> Vec<String> {
    expected.iter().map(|s| s.to_string()).collect()
}

#[test]
fn constructor_allocates_one_cell_per_field() {
    let out = compile(
        "class Point {\n\
            field int x, y, z;\n\
            constructor Point new(int a, int b, int c) {\n\
               let x = a;\n\
               let y = b;\n\
               let z = c;\n\
               return this;\n\
            }\n\
         }",
    );
    let expected = lines(&[
        "function Point.new 0",
        "push constant 3",
        "call Memory.alloc 1",
        "pop pointer 0",
        "push argument 0",
        "pop this 0",
        "push argument 1",
        "pop this 1",
        "push argument 2",
        "pop this 2",
        "push pointer 0",
        "return",
    ]);
    assert_eq!(out, expected);
}

#[test]
fn method_moves_receiver_and_numbers_parameters_from_one() {
    let out = compile(
        "class Point {\n\
            field int x;\n\
            method int getx(int d) {\n\
               return x + d;\n\
            }\n\
         }",
    );
    let expected = lines(&[
        "function Point.getx 0",
        "push argument 0",
        "pop pointer 0",
        "push this 0",
        "push argument 1",
        "add",
        "return",
    ]);
    assert_eq!(out, expected);
}

#[test]
fn void_return_pushes_zero() {
    let out = compile("class Main { function void main() { return; } }");
    let expected = lines(&["function Main.main 0", "push constant 0", "return"]);
    assert_eq!(out, expected);
}

#[test]
fn two_whiles_use_fresh_label_pairs() {
    let out = compile(
        "class Main { function void f() { while (true) { } while (false) { } return; } }",
    );
    let expected = lines(&[
        "function Main.f 0",
        "label WHILE_LOOP0",
        "push constant 0",
        "not",
        "not",
        "if-goto WHILE_CONTINUE0",
        "goto WHILE_LOOP0",
        "label WHILE_CONTINUE0",
        "label WHILE_LOOP1",
        "push constant 0",
        "not",
        "if-goto WHILE_CONTINUE1",
        "goto WHILE_LOOP1",
        "label WHILE_CONTINUE1",
        "push constant 0",
        "return",
    ]);
    assert_eq!(out, expected);
}

#[test]
fn string_literal_builds_character_by_character() {
    let out = compile(
        "class Main { function void main() { do Output.printString(\"Hi\"); return; } }",
    );
    let expected = lines(&[
        "function Main.main 0",
        "push constant 2",
        "call String.new 1",
        "push constant 72",
        "call String.appendChar 2",
        "push constant 105",
        "call String.appendChar 2",
        "call Output.printString 1",
        "pop temp 0",
        "push constant 0",
        "return",
    ]);
    assert_eq!(out, expected);
}

#[test]
fn indexed_assignment_computes_pointer_then_value() {
    let out = compile(
        "class Main {\n\
            field int y;\n\
            method void f(int i, int x) {\n\
               var Array a;\n\
               let a[i] = x;\n\
               return;\n\
            }\n\
         }",
    );
    let expected = lines(&[
        "function Main.f 1",
        "push argument 0",
        "pop pointer 0",
        "push local 0",
        "push argument 1",
        "add",
        "pop pointer 1",
        "push argument 2",
        "pop that 0",
        "push constant 0",
        "return",
    ]);
    assert_eq!(out, expected);
}

#[test]
fn expressions_evaluate_strictly_left_to_right() {
    let out = compile(
        "class Main { function int f() { var int r; let r = 2 + 3 * 4; return r; } }",
    );
    let expected = lines(&[
        "function Main.f 1",
        "push constant 2",
        "push constant 3",
        "add",
        "push constant 4",
        "call Math.multiply 2",
        "pop local 0",
        "push local 0",
        "return",
    ]);
    assert_eq!(out, expected);
}

#[test]
fn if_else_negates_condition_and_places_both_labels() {
    let out = compile(
        "class Main {\n\
            function int f(int q) {\n\
               var int r;\n\
               if (q < 3) { let r = 1; } else { let r = 2; }\n\
               return r;\n\
            }\n\
         }",
    );
    let expected = lines(&[
        "function Main.f 1",
        "push argument 0",
        "push constant 3",
        "lt",
        "not",
        "if-goto IF_ELSE0",
        "push constant 1",
        "pop local 0",
        "goto IF_CONTINUE0",
        "label IF_ELSE0",
        "push constant 2",
        "pop local 0",
        "label IF_CONTINUE0",
        "push local 0",
        "return",
    ]);
    assert_eq!(out, expected);
}

#[test]
fn dotted_call_on_instance_variable_pushes_receiver() {
    let out = compile(
        "class Main {\n\
            field Point p;\n\
            method void g() {\n\
               do p.draw(1, 2);\n\
               return;\n\
            }\n\
         }",
    );
    let expected = lines(&[
        "function Main.g 0",
        "push argument 0",
        "pop pointer 0",
        "push this 0",
        "push constant 1",
        "push constant 2",
        "call Point.draw 3",
        "pop temp 0",
        "push constant 0",
        "return",
    ]);
    assert_eq!(out, expected);
}

#[test]
fn undotted_call_targets_the_current_class() {
    let out = compile("class Main { method void h() { do draw(); return; } }");
    let expected = lines(&[
        "function Main.h 0",
        "push argument 0",
        "pop pointer 0",
        "push pointer 0",
        "call Main.draw 1",
        "pop temp 0",
        "push constant 0",
        "return",
    ]);
    assert_eq!(out, expected);
}

#[test]
fn unary_operators_and_array_reads() {
    let out = compile(
        "class Main {\n\
            function int k(int n) {\n\
               var Array a;\n\
               var int r;\n\
               let r = -(n + 1) + ~a[0];\n\
               return r;\n\
            }\n\
         }",
    );
    let expected = lines(&[
        "function Main.k 2",
        "push argument 0",
        "push constant 1",
        "add",
        "neg",
        "push local 0",
        "push constant 0",
        "add",
        "pop pointer 1",
        "push that 0",
        "not",
        "add",
        "pop local 1",
        "push local 1",
        "return",
    ]);
    assert_eq!(out, expected);
}

#[test]
fn keyword_constants_compile_to_fixed_pushes() {
    let out = compile(
        "class Main {\n\
            method int c() {\n\
               var int r;\n\
               let r = null;\n\
               let r = false;\n\
               let r = true;\n\
               return this;\n\
            }\n\
         }",
    );
    let expected = lines(&[
        "function Main.c 1",
        "push argument 0",
        "pop pointer 0",
        "push constant 0",
        "pop local 0",
        "push constant 0",
        "pop local 0",
        "push constant 0",
        "not",
        "pop local 0",
        "push pointer 0",
        "return",
    ]);
    assert_eq!(out, expected);
}

#[test]
fn unresolved_identifier_is_a_semantic_error() {
    let mut engine =
        CompilationEngine::new("class C { function void f() { let y = 1; return; } }".to_string())
            .expect("tokenizing failed");
    assert_eq!(engine.compile_class(), Err(CompileError::UnresolvedIdentifier));
}

#[test]
fn wrong_leading_token_is_a_structural_error() {
    let mut engine = CompilationEngine::new("class 3 { }".to_string()).expect("tokenizing failed");
    assert_eq!(engine.compile_class(), Err(CompileError::UnexpectedToken));
}

#[test]
fn empty_input_ends_inside_the_class_production() {
    let mut engine = CompilationEngine::new("  ".to_string()).expect("tokenizing failed");
    assert_eq!(engine.compile_class(), Err(CompileError::UnexpectedEnd));
}

#[test]
fn lexical_errors_surface_when_the_engine_is_built() {
    assert!(matches!(
        CompilationEngine::new("class C { \"open".to_string()),
        Err(CompileError::UnterminatedString)
    ));
    assert!(matches!(
        CompilationEngine::new("class C { /* open".to_string()),
        Err(CompileError::UnterminatedComment)
    ));
    assert!(matches!(
        CompilationEngine::new("let x = 65536;".to_string()),
        Err(CompileError::IntegerTooLarge)
    ));
    assert!(matches!(
        CompilationEngine::new("let x = #;".to_string()),
        Err(CompileError::IllegalCharacter)
    ));
}

#[test]
fn nested_control_flow_draws_counters_in_order() {
    let out = compile(
        "class Main {\n\
            function void f(int n) {\n\
               if (n) { while (n) { let n = n - 1; } }\n\
               return;\n\
            }\n\
         }",
    );
    let expected = lines(&[
        "function Main.f 0",
        "push argument 0",
        "not",
        "if-goto IF_ELSE0",
        "label WHILE_LOOP1",
        "push argument 0",
        "not",
        "if-goto WHILE_CONTINUE1",
        "push argument 0",
        "push constant 1",
        "sub",
        "pop argument 0",
        "goto WHILE_LOOP1",
        "label WHILE_CONTINUE1",
        "goto IF_CONTINUE0",
        "label IF_ELSE0",
        "label IF_CONTINUE0",
        "push constant 0",
        "return",
    ]);
    assert_eq!(out, expected);
}

#[test]
fn label_counter_restarts_at_zero_per_subroutine() {
    let out = compile(
        "class Main {\n\
            function void f() { while (true) { } return; }\n\
            function void g() { while (true) { } return; }\n\
         }",
    );
    let expected = lines(&[
        "function Main.f 0",
        "label WHILE_LOOP0",
        "push constant 0",
        "not",
        "not",
        "if-goto WHILE_CONTINUE0",
        "goto WHILE_LOOP0",
        "label WHILE_CONTINUE0",
        "push constant 0",
        "return",
        "function Main.g 0",
        "label WHILE_LOOP0",
        "push constant 0",
        "not",
        "not",
        "if-goto WHILE_CONTINUE0",
        "goto WHILE_LOOP0",
        "label WHILE_CONTINUE0",
        "push constant 0",
        "return",
    ]);
    assert_eq!(out, expected);
}
