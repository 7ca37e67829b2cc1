use yellowstone::chunk::{get_line, Chunk, OpCode};
use yellowstone::value::Value;

/// Renders the run-length line table in its compact written form: each
/// run's count followed by an underscore.
fn lines_string(chunk: &Chunk) -> String {
    let mut out = String::new();
    for run in chunk.lines.iter() {
        out = format!("{}{}_", out, run);
    }
    out
}

fn write_chunk(chunk: &mut Chunk, instruction: OpCode, line: usize) {
    if line == 0 {
        panic!("Line cannot be smaller than 1")
    }

    chunk.write_chunk(instruction, line)
}

fn constant(chunk: &mut Chunk, value: Value) -> OpCode {
    let index = chunk.add_constant(value);
    OpCode::OP_CONSTANT(index)
}

#[test]
fn single_line_encode_test() {
    let chunk = &mut Chunk::default();
    let op = constant(chunk, Value::number_value(0));
    write_chunk(chunk, op, 1);
    write_chunk(chunk, OpCode::OP_RETURN, 1);
    assert_eq!("2_", &lines_string(chunk));
}

#[test]
fn encode_test() {
    let chunk = &mut Chunk::default();
    let op0 = constant(chunk, Value::number_value(0));
    write_chunk(chunk, op0, 1);
    let op1 = constant(chunk, Value::number_value(1));
    write_chunk(chunk, op1, 1);
    let op2 = constant(chunk, Value::number_value(2));
    write_chunk(chunk, op2, 2);
    write_chunk(chunk, OpCode::OP_RETURN, 2);
    assert_eq!("2_2_", &lines_string(chunk));
}

#[test]
fn get_line_test() {
    let chunk = &mut Chunk::default();
    let op0 = constant(chunk, Value::number_value(0));
    write_chunk(chunk, op0, 1); // 1
    let op1 = constant(chunk, Value::number_value(1));
    write_chunk(chunk, op1, 1); // same
    let op2 = constant(chunk, Value::number_value(2));
    write_chunk(chunk, op2, 2); // 2
    let op3 = constant(chunk, Value::number_value(2));
    write_chunk(chunk, op3, 2); // same
    let op4 = constant(chunk, Value::number_value(2));
    write_chunk(chunk, op4, 2); // same
    write_chunk(chunk, OpCode::OP_RETURN, 3); // 3

    assert_eq!("1", get_line(0, &chunk.lines));
    assert_eq!("same", get_line(1, &chunk.lines));
    assert_eq!("2", get_line(2, &chunk.lines));
    assert_eq!("same", get_line(3, &chunk.lines));
    assert_eq!("same", get_line(4, &chunk.lines));
    assert_eq!("3", get_line(5, &chunk.lines));
}

#[test]
fn get_line_skipped_lines() {
    // Skipped source lines (blank or comment-only lines) keep the
    // numbering aligned: the decoder recovers the exact originating line.
    let chunk = &mut Chunk::default();
    write_chunk(chunk, OpCode::OP_NIL, 2);
    write_chunk(chunk, OpCode::OP_NIL, 2);
    write_chunk(chunk, OpCode::OP_NIL, 5);
    write_chunk(chunk, OpCode::OP_RETURN, 5);
    assert_eq!("2", get_line(0, &chunk.lines));
    assert_eq!("same", get_line(1, &chunk.lines));
    assert_eq!("5", get_line(2, &chunk.lines));
    assert_eq!("same", get_line(3, &chunk.lines));
    assert_eq!(chunk.lines, vec![0, 2, 0, 0, 2]);
}
