use yellowstone::chunk::{get_line, Chunk, OpCode};
use yellowstone::compiler::compile_with_diagnostics;
use yellowstone::scanner::{Scanner, TokenKind};
use yellowstone::stack::Stack;
use yellowstone::value::{ObjKind, ObjectHandler, ValueKind};
use yellowstone::error::InterpretError::{
    self, COMPILE_ERROR, RUNTIME_ASSERT_ERROR, RUNTIME_ERROR, RUNTIME_UNRECOGNIZED_VARIABLE_ERROR,
};
use yellowstone::util::{i64_to_string, str_eq, u64_to_string};
use yellowstone::value::{allocate_object, Value};
use yellowstone::vm::VM;

fn run_code(vm: &mut VM, source: &str) -> Result<Option<Value>, InterpretError> {
    vm.interpret(&source.to_string())
}

fn expect_error(source: &str, expect: InterpretError) {
    let mut vm = VM::default();
    match run_code(&mut vm, source) {
        Err(e) => assert_eq!(e, expect),
        _ => panic!("value returned when error expected"),
    }
}

fn expect_number(source: &str, expect: i64) {
    let mut vm = VM::default();
    match run_code(&mut vm, source) {
        Ok(Some(v)) => assert_eq!(v.as_number().unwrap(), expect),
        other => panic!("expected a number, got {:?}", other),
    }
}

// Truthiness: nil and false are the only falsey values.
#[test]
fn truthiness_falsey_values() {
    let mut vm = VM::default();
    let source = "
        assert_eq(!nil, true);
        assert_eq(!false, true);
        assert_eq(!true, false);
        assert_eq(!0, false);
        assert_eq(!1, false);
        assert_eq(!\"\", false);
        assert_eq(!\"word\", false);
    ";
    assert!(run_code(&mut vm, source).is_ok());
}

// An assert_eq between values of different tags fails differently from a
// same-tag mismatch.
#[test]
fn assert_eq_tag_mismatch_is_distinct() {
    expect_error("assert_eq(1, \"1\");", RUNTIME_ERROR);
    expect_error("assert_eq(nil, false);", RUNTIME_ERROR);
    expect_error("assert_eq(true, 1);", RUNTIME_ERROR);
    expect_error("assert_eq(1, 2);", RUNTIME_ASSERT_ERROR);
    expect_error("assert_eq(\"a\", \"b\");", RUNTIME_ASSERT_ERROR);
    expect_error("assert_eq(true, false);", RUNTIME_ASSERT_ERROR);
}

// Each error variant has an input that reaches it.
#[test]
fn error_variants() {
    expect_error("var ;", COMPILE_ERROR);
    expect_error("\"open", COMPILE_ERROR);
    expect_error("1 + \"one\"", RUNTIME_ERROR);
    expect_error("-\"word\"", RUNTIME_ERROR);
    expect_error("1 / 0", RUNTIME_ERROR);
    expect_error("print missing;", RUNTIME_UNRECOGNIZED_VARIABLE_ERROR);
    expect_error("missing = 1", RUNTIME_UNRECOGNIZED_VARIABLE_ERROR);
}

#[test]
fn comparison_operators() {
    let mut vm = VM::default();
    let source = "
        assert_eq(1 < 2, true);
        assert_eq(2 < 1, false);
        assert_eq(2 > 1, true);
        assert_eq(1 >= 1, true);
        assert_eq(1 <= 0, false);
        assert_eq(1 == 1, true);
        assert_eq(1 != 2, true);
    ";
    assert!(run_code(&mut vm, source).is_ok());
}

#[test]
fn short_circuit_and_or() {
    let mut vm = VM::default();
    // The left operand stays as the result when it decides the outcome.
    let source = "
        assert_eq(false and 1, false);
        assert_eq(nil and 1, nil);
        assert_eq(true and 7, 7);
        assert_eq(false or 9, 9);
        assert_eq(3 or 9, 3);
    ";
    assert!(run_code(&mut vm, source).is_ok());
}

#[test]
fn if_else_statements() {
    let mut vm = VM::default();
    let source = "
        var x = 0;
        if (true) { x = 1; } else { x = 2; }
        assert_eq(x, 1);
        if (false) { x = 3; } else { x = 4; }
        assert_eq(x, 4);
        if (nil) { x = 5; }
        assert_eq(x, 4);
    ";
    assert!(run_code(&mut vm, source).is_ok());
}

#[test]
fn while_loop_counts() {
    let mut vm = VM::default();
    let source = "
        var i = 0;
        var total = 0;
        while (i < 5) {
            total = total + i;
            i = i + 1;
        }
        assert_eq(total, 10);
        assert_eq(i, 5);
    ";
    assert!(run_code(&mut vm, source).is_ok());
}

#[test]
fn negative_and_nested_arithmetic() {
    expect_number("-7", -7);
    expect_number("--7", 7);
    expect_number("8 / -2", -4);
    expect_number("-9 / 2", -4);
    expect_number("1 + 2 * 3", 7);
    expect_number("(1 + 2) * 3", 9);
}

// A global keeps its value across a shadowing local's mutations.
#[test]
fn shadowed_global_value_unaffected() {
    let mut vm = VM::default();
    let source = "
        var foo = 10;
        {
            var foo = 20;
            foo = foo + 1;
            assert_eq(foo, 21);
        }
        assert_eq(foo, 10);
    ";
    assert!(run_code(&mut vm, source).is_ok());
}

// A local is gone once its block exits, even when a deeper block asks.
#[test]
fn nested_scopes_resolve_innermost() {
    let mut vm = VM::default();
    let source = "
        var a = 1;
        {
            var b = 2;
            {
                var c = 3;
                assert_eq(a + b + c, 6);
            }
            assert_eq(a + b, 3);
        }
        assert_eq(a, 1);
    ";
    assert!(run_code(&mut vm, source).is_ok());
}

// Print renders values by their tag and collects them in order.
#[test]
fn printed_lines_in_order() {
    let mut vm = VM::default();
    let source = "
        print 1 + 1;
        print \"two\";
        print true;
        print nil;
        print -3;
    ";
    assert!(run_code(&mut vm, source).is_ok());
    let lines: Vec<String> = vm.printed.clone();
    assert_eq!(lines, vec!["2", "two", "true", "0", "-3"]);
}

// The last expression's value comes back; a bare statement program yields
// none.
#[test]
fn interpret_result_value() {
    let mut vm = VM::default();
    let result = run_code(&mut vm, "var x = 5;").unwrap();
    assert!(result.is_none());

    let mut vm = VM::default();
    let result = run_code(&mut vm, "\"beignets\"").unwrap();
    assert_eq!(result.unwrap().as_string().unwrap(), "beignets");
}

// A session's globals persist across interpret calls, as a REPL relies on.
#[test]
fn repl_session_keeps_globals() {
    let mut vm = VM::default();
    assert!(run_code(&mut vm, "var count = 1;").is_ok());
    assert!(run_code(&mut vm, "count = count + 1;").is_ok());
    assert!(run_code(&mut vm, "assert_eq(count, 2);").is_ok());
    vm.free_objects();
}

// A number literal too large for the machine's numbers is a compile error,
// and the boundary value itself is accepted.
#[test]
fn number_literal_bounds() {
    expect_number("9223372036854775807", i64::MAX);
    expect_error("9223372036854775808", COMPILE_ERROR);
}

#[test]
fn decimal_rendering() {
    assert_eq!(u64_to_string(0), "0");
    assert_eq!(u64_to_string(7), "7");
    assert_eq!(u64_to_string(90210), "90210");
    assert_eq!(u64_to_string(u64::MAX), "18446744073709551615");
    assert_eq!(i64_to_string(-1), "-1");
    assert_eq!(i64_to_string(i64::MIN), "-9223372036854775808");
    assert_eq!(i64_to_string(i64::MAX), "9223372036854775807");
}

#[test]
fn str_eq_compares_content() {
    assert!(str_eq("", ""));
    assert!(str_eq("yellow", "yellow"));
    assert!(!str_eq("yellow", "yellowstone"));
    assert!(!str_eq("a", "b"));
}

// The line table answers "same" exactly for offsets that repeat a line.
#[test]
fn line_table_round_trip() {
    let lines: Vec<usize> = vec![3, 1, 2];
    assert_eq!(get_line(0, &lines), "1");
    assert_eq!(get_line(1, &lines), "same");
    assert_eq!(get_line(2, &lines), "same");
    assert_eq!(get_line(3, &lines), "2");
    assert_eq!(get_line(4, &lines), "3");
    assert_eq!(get_line(5, &lines), "same");
}

// Values coming out of the globals table are compared by content.
#[test]
fn values_equal_by_content() {
    assert!(Value::values_equal(
        allocate_object("stone"),
        allocate_object("stone")
    ));
    assert!(!Value::values_equal(
        allocate_object("stone"),
        allocate_object("yellow")
    ));
    assert!(!Value::values_equal(
        allocate_object("1"),
        Value::number_value(1)
    ));
    assert!(!Value::values_equal(Value::nil_value(), Value::bool_val(false)));
    assert!(Value::values_equal(Value::nil_value(), Value::nil_value()));
}

// Wrapping arithmetic at the number range's edges.
#[test]
fn arithmetic_wraps_at_bounds() {
    expect_number("9223372036854775807 + 1", i64::MIN);
    expect_number("0 - 9223372036854775807 - 2", i64::MAX);
}

// The stack helper keeps last-in-first-out order with safe accessors.
#[test]
fn stack_push_pop_peek() {
    let mut stack: Stack<i64> = Stack { stack: Vec::new() };
    assert!(stack.is_empty());
    assert!(stack.peek().is_none());
    assert!(stack.pop().is_none());
    stack.push(1);
    stack.push(2);
    assert_eq!(*stack.peek().unwrap(), 2);
    assert!(!stack.is_empty());
    assert_eq!(stack.pop().unwrap(), 2);
    assert_eq!(stack.pop().unwrap(), 1);
    assert!(stack.pop().is_none());
    stack.push(3);
    stack.reset();
    assert!(stack.is_empty());
}

// The keyword checker compares the token's tail region exactly.
#[test]
fn check_keyword_classifies() {
    let source = String::from("and");
    let mut sc = Scanner::new(&source);
    let token = sc.scan_token();
    assert_eq!(token.kind, TokenKind::TOKEN_AND);
    assert_eq!(
        sc.check_keyword(1, 2, "nd", TokenKind::TOKEN_AND),
        TokenKind::TOKEN_AND
    );
    assert_eq!(
        sc.check_keyword(1, 2, "nil", TokenKind::TOKEN_NIL),
        TokenKind::TOKEN_IDENTIFIER
    );

    let source = String::from("andes");
    let mut sc = Scanner::new(&source);
    let token = sc.scan_token();
    assert_eq!(token.kind, TokenKind::TOKEN_IDENTIFIER);
    assert_eq!(
        sc.check_keyword(1, 2, "nd", TokenKind::TOKEN_AND),
        TokenKind::TOKEN_IDENTIFIER
    );
}

// Error kinds carry their stable names.
#[test]
fn error_messages() {
    assert_eq!(COMPILE_ERROR.message(), "COMPILE_ERROR");
    assert_eq!(RUNTIME_ERROR.message(), "RUNTIME_ERROR");
    assert_eq!(
        RUNTIME_UNRECOGNIZED_VARIABLE_ERROR.message(),
        "RUNTIME_UNRECOGNIZED_VARIABLE_ERROR"
    );
    assert_eq!(RUNTIME_ASSERT_ERROR.message(), "RUNTIME_ASSERT_ERROR");
}

// Values answer their tag and checked accessors refuse other tags.
#[test]
fn value_kinds_and_accessors() {
    assert_eq!(Value::number_value(3).kind(), ValueKind::ValNumber);
    assert_eq!(Value::bool_val(true).kind(), ValueKind::ValBool);
    assert_eq!(Value::nil_value().kind(), ValueKind::ValNil);
    assert_eq!(allocate_object("s").kind(), ValueKind::ValObj);
    assert!(Value::number_value(3).as_bool().is_err());
    assert!(Value::bool_val(true).as_number().is_err());
    assert!(Value::nil_value().as_string().is_err());
    assert!(Value::is_string(&allocate_object("s")));
    assert!(!Value::is_string(&Value::nil_value()));
    assert_eq!(allocate_object("s").as_obj().unwrap().as_str(), "s");
    assert_eq!("word".kind(), ObjKind::OBJ_STRING);
    assert_eq!(String::from("word").text(), "word");
    assert_eq!(Value::number_value(-12).render(), "-12");
    assert_eq!(Value::bool_val(false).render(), "false");
}

// A chunk handed to the machine directly is executed as-is.
#[test]
fn run_handcrafted_chunk() {
    let mut chunk = Chunk::default();
    let left = chunk.add_constant(Value::number_value(20));
    chunk.write_chunk(OpCode::OP_CONSTANT(left), 1);
    let right = chunk.add_constant(Value::number_value(22));
    chunk.write_chunk(OpCode::OP_CONSTANT(right), 1);
    chunk.write_chunk(OpCode::OP_ADD, 1);
    chunk.write_chunk(OpCode::OP_RETURN, 2);
    let mut vm = VM::default().with_chunk(chunk);
    let result = vm.run().unwrap().unwrap();
    assert_eq!(result.as_number().unwrap(), 42);
}

// Malformed chunks abort with a runtime error instead of misbehaving.
#[test]
fn run_rejects_malformed_chunks() {
    // No instructions at all: nothing to return.
    let mut vm = VM::default();
    assert_eq!(vm.run().unwrap_err(), RUNTIME_ERROR);

    // An instruction the machine has no behaviour for.
    let mut chunk = Chunk::default();
    chunk.write_chunk(OpCode::OP_DEBUG, 1);
    let mut vm = VM::default().with_chunk(chunk);
    assert_eq!(vm.run().unwrap_err(), RUNTIME_ERROR);

    // A local slot past the stack.
    let mut chunk = Chunk::default();
    chunk.write_chunk(OpCode::OP_GET_LOCAL(5), 1);
    chunk.write_chunk(OpCode::OP_RETURN, 1);
    let mut vm = VM::default().with_chunk(chunk);
    assert_eq!(vm.run().unwrap_err(), RUNTIME_ERROR);
}

// A for loop with initializer, condition and increment clauses.
#[test]
fn for_loop_counts() {
    let mut vm = VM::default();
    let source = "
        var total = 0;
        for (var i = 1; i < 4; i = i + 1) {
            total = total + i;
        }
        assert_eq(total, 6);
    ";
    assert!(run_code(&mut vm, source).is_ok());
}

// A for loop without an exit condition still runs its body; the loop
// variable is gone afterwards.
#[test]
fn for_loop_without_increment() {
    let mut vm = VM::default();
    let source = "
        var n = 0;
        for (var i = 0; i < 2;) {
            n = n + 1;
            i = i + 1;
        }
        assert_eq(n, 2);
    ";
    assert!(run_code(&mut vm, source).is_ok());
}

// A fractional number literal is refused at compile time rather than
// silently rounded: the machine's numbers are whole.
#[test]
fn fractional_literals_are_refused() {
    expect_error("1.5", COMPILE_ERROR);
    expect_error("print 100.200;", COMPILE_ERROR);
    expect_number("100", 100);
}

// A compile failure carries printable reports naming the line and token.
#[test]
fn compile_reports_name_the_error() {
    let (result, reports) = compile_with_diagnostics(&"var ;".to_string());
    assert!(result.is_err());
    assert_eq!(reports.len(), 1);
    assert!(reports[0].contains("[line 1]"));
    assert!(reports[0].contains("Expect variable name."));

    let (result, reports) = compile_with_diagnostics(&"

1.5".to_string());
    assert!(result.is_err());
    assert!(reports[0].contains("[line 3]"));
    assert!(reports[0].contains("Fractional"));

    let (result, reports) = compile_with_diagnostics(&"1 + 1".to_string());
    assert!(result.is_ok());
    assert!(reports.is_empty());
}

// A same-depth shadow re-uses its slot even when top-level statements left
// values on the stack beneath the block's locals.
#[test]
fn shadowing_after_top_level_value() {
    let mut vm = VM::default();
    let source = "
        7;
        {
            var a = 2;
            var a = 3;
            assert_eq(a, 3);
        }
    ";
    assert!(run_code(&mut vm, source).is_ok());
}

// Freshly concatenated strings are registered for the end-of-session sweep.
#[test]
fn concatenation_registers_objects() {
    let mut vm = VM::default();
    assert!(run_code(&mut vm, "var a = \"x\" + \"y\"; assert_eq(a, \"xy\");").is_ok());
    assert!(!vm.objects.is_empty());
    vm.free_objects();
}
