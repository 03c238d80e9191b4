use jit_compiler::ast::{BinaryOp, Expr};
use jit_compiler::codegen::{
    expr_assigns, expr_exposed, operands_collide, CodeGenError, Register, X86CodeGenerator,
};
use jit_compiler::layout::VariableLayout;
use jit_compiler::memory::ExecutableMemory;
use jit_compiler::parser::Parser;
use jit_compiler::stack::check_stack_balance;

#[test]
fn test_simple_number_generation() {
    let mut codegen = X86CodeGenerator::new();
    let result = codegen.generate(&Expr::Number(42)).unwrap();

    assert!(!result.code.is_empty());
    println!("Generated code length: {} bytes", result.code.len());

    assert!(result.code.contains(&0x55)); // push rbp
    assert!(result.code.contains(&0xc3)); // ret
}

#[test]
fn test_binary_expression_generation() {
    let mut codegen = X86CodeGenerator::new();
    let mut parser = Parser::new("1 + 2").unwrap();
    let expr = parser.parse().unwrap();

    let result = codegen.generate(&expr).unwrap();
    assert!(!result.code.is_empty());
    println!("Generated code for '1 + 2': {} bytes", result.code.len());
}

#[test]
fn test_variable_assignment_generation() {
    let mut codegen = X86CodeGenerator::new();
    let mut parser = Parser::new("x = 42").unwrap();
    let expr = parser.parse().unwrap();

    let result = codegen.generate(&expr).unwrap();
    assert!(!result.code.is_empty());
    assert!(result.variables.contains_key("x"));
    println!("Generated code for 'x = 42': {} bytes", result.code.len());
}

/// `push rbp; mov rbp, rsp`
const PROLOGUE: [u8; 4] = [0x55, 0x48, 0x89, 0xe5];
/// `sub rsp, ...`, up to the size of the frame.
const RESERVE: [u8; 3] = [0x48, 0x81, 0xec];
const EPILOGUE: [u8; 5] = [0x48, 0x89, 0xec, 0x5d, 0xc3];

fn code_of(text: &str) -> Result<Vec<u8>, CodeGenError> {
    let expr = Parser::new(text).unwrap().parse().unwrap();
    X86CodeGenerator::new().generate(&expr).map(|f| f.code)
}

/// The size of the frame that the function reserves, in bytes, where it reserves one.
fn frame_size_of(text: &str) -> Option<u32> {
    let code = code_of(text).unwrap();
    assert_eq!(code[..4], PROLOGUE);
    if code[4..7] == RESERVE {
        Some(u32::from_le_bytes([code[7], code[8], code[9], code[10]]))
    } else {
        None
    }
}

/// The code between prologue and epilogue, without the instruction that reserves the
/// frame.
fn body_of(text: &str) -> Vec<u8> {
    let code = code_of(text).unwrap();
    assert_eq!(code[code.len() - 5..], EPILOGUE);
    let start = if frame_size_of(text).is_some() { 11 } else { 4 };
    code[start..code.len() - 5].to_vec()
}

#[test]
fn a_function_whose_pushes_reach_no_slot_in_use_reserves_nothing() {
    assert_eq!(
        code_of("42").unwrap(),
        vec![0x55, 0x48, 0x89, 0xe5, 0xb8, 0x2a, 0, 0, 0, 0x48, 0x89, 0xec, 0x5d, 0xc3]
    );
    assert_eq!(
        code_of("1 - 2").unwrap(),
        vec![
            0x55, 0x48, 0x89, 0xe5, 0xb8, 0x02, 0, 0, 0, 0x50, 0xb8, 0x01, 0, 0, 0, 0x59, 0x48,
            0x29, 0xc8, 0x48, 0x89, 0xec, 0x5d, 0xc3,
        ]
    );
    let conditional = code_of("if(1, 2, 3)").unwrap();
    assert_eq!(conditional.len(), 38);
    assert_eq!(conditional[12..18], [0x0f, 0x84, 0x0a, 0, 0, 0]);
    assert_eq!(conditional[23..28], [0xe9, 0x05, 0, 0, 0]);
    let expr = Parser::new("x = 42").unwrap().parse().unwrap();
    let function = X86CodeGenerator::new().generate(&expr).unwrap();
    assert_eq!(
        function.code,
        vec![
            0x55, 0x48, 0x89, 0xe5, 0xb8, 0x2a, 0, 0, 0, 0x48, 0x89, 0x45, 0xf8, 0x48, 0x89,
            0xec, 0x5d, 0xc3,
        ]
    );
    assert_eq!(function.variables.names(), vec!["x".to_string()]);
    assert_eq!(function.variables.get("x"), Some(-8));
    // The operands are gone from the stack before the value is stored.
    assert_eq!(
        code_of("x = 1 + 2").unwrap(),
        vec![
            0x55, 0x48, 0x89, 0xe5, // push rbp; mov rbp, rsp
            0xb8, 0x02, 0, 0, 0, 0x50, 0xb8, 0x01, 0, 0, 0, 0x59, 0x48, 0x01, 0xc8, // 1 + 2
            0x48, 0x89, 0x45, 0xf8, // mov [rbp - 8], rax
            0x48, 0x89, 0xec, 0x5d, 0xc3, // mov rsp, rbp; pop rbp; ret
        ]
    );
    for text in [
        "42",
        "1 - 2",
        "if(1, 2, 3)",
        "x = 42",
        "if(x = 1, x, y = x)",
        "1 + 2 * 3",
        "x = 1 + 2",
        "x = y = (1 + 2) * 3",
        "if(1 < 2, x = 3 * 4, 5)",
        "if(1 + 1, 2 * 2, x = 3)",
        "if(1, x = 2, 3 + 4)",
        "if(1, x = 2 * 3, y = 4 + 5)",
    ] {
        assert_eq!(frame_size_of(text), None, "{}", text);
    }
}

#[test]
fn a_function_that_could_push_onto_a_slot_in_use_reserves_its_frame() {
    // Without the frame the push of the right operand would land on the slot of x.
    assert_eq!(
        code_of("(x = 1) + 2").unwrap(),
        vec![
            0x55, 0x48, 0x89, 0xe5, // push rbp; mov rbp, rsp
            0x48, 0x81, 0xec, 8, 0, 0, 0, // sub rsp, 8
            0xb8, 0x02, 0, 0, 0, // mov eax, 2
            0x50, // push rax
            0xb8, 0x01, 0, 0, 0, // mov eax, 1
            0x48, 0x89, 0x45, 0xf8, // mov [rbp - 8], rax
            0x59, // pop rcx
            0x48, 0x01, 0xc8, // add rax, rcx
            0x48, 0x89, 0xec, 0x5d, 0xc3, // mov rsp, rbp; pop rbp; ret
        ]
    );
    assert_eq!(frame_size_of("(x = 1) + 2"), Some(8));
    assert_eq!(frame_size_of("2 + (x = 1)"), Some(8));
    // The slot of x is in use when the operand is pushed.
    assert_eq!(frame_size_of("if(x = 1, x + x, 0)"), Some(8));
    assert_eq!(frame_size_of("if(x = 1, 2 + 3, 0)"), Some(8));
    assert_eq!(frame_size_of("if(x = 1, 2, 3 + 4)"), Some(8));
    assert_eq!(frame_size_of("if(if(1, x = 2, 3), 4 + 5, 6)"), Some(8));
    assert_eq!(frame_size_of("y = if(x = 1, 2, 3) * 4"), Some(16));
    assert_eq!(frame_size_of("((x = 1) + (y = 2)) * 3"), Some(16));
}

#[test]
fn operands_that_assign_different_variables_are_compiled() {
    // The right operand is lowered first, so that its variable gets the first slot.
    let expr = Parser::new("(x = 1) + (y = 2)").unwrap().parse().unwrap();
    let function = X86CodeGenerator::new().generate(&expr).unwrap();
    assert_eq!(function.variables.names(), vec!["y".to_string(), "x".to_string()]);
    assert_eq!(function.variables.get("y"), Some(-8));
    assert_eq!(function.variables.get("x"), Some(-16));
    assert_eq!(
        function.code,
        vec![
            0x55, 0x48, 0x89, 0xe5, // push rbp; mov rbp, rsp
            0x48, 0x81, 0xec, 16, 0, 0, 0, // sub rsp, 16
            0xb8, 0x02, 0, 0, 0, 0x48, 0x89, 0x45, 0xf8, // y = 2
            0x50, // push rax
            0xb8, 0x01, 0, 0, 0, 0x48, 0x89, 0x45, 0xf0, // x = 1
            0x59, // pop rcx
            0x48, 0x01, 0xc8, // add rax, rcx
            0x48, 0x89, 0xec, 0x5d, 0xc3, // mov rsp, rbp; pop rbp; ret
        ]
    );
    assert!(code_of("(a = 1) * (b = a = 2)").is_err());
    assert!(code_of("if(a = 1, b = 2, 3) + (c = 4)").is_ok());
    assert!(code_of("(a = 1) + if(1, b = 2, c = 3) + (d = 5)").is_ok());
}

#[test]
fn a_literal_is_loaded_in_its_short_or_long_form() {
    assert_eq!(body_of("42"), vec![0xb8, 0x2a, 0, 0, 0]);
    assert_eq!(body_of("127"), vec![0xb8, 0x7f, 0, 0, 0]);
    assert_eq!(body_of("128"), vec![0x48, 0xb8, 0x80, 0, 0, 0, 0, 0, 0, 0]);
    assert_eq!(body_of("1000"), vec![0x48, 0xb8, 0xe8, 0x03, 0, 0, 0, 0, 0, 0]);
    assert_eq!(
        body_of("9223372036854775807"),
        vec![0x48, 0xb8, 0xff, 0xff, 0xff, 0xff, 0xff, 0xff, 0xff, 0x7f]
    );
    assert_eq!(body_of("0"), vec![0xb8, 0, 0, 0, 0]);
    // A negative literal takes the long form: the short one would lose its sign.
    let mut generator = X86CodeGenerator::new();
    assert_eq!(
        generator.generate(&Expr::Number(-1)).unwrap().code[4..14],
        [0x48, 0xb8, 0xff, 0xff, 0xff, 0xff, 0xff, 0xff, 0xff, 0xff]
    );
    assert_eq!(
        generator.generate(&Expr::Number(-128)).unwrap().code[4..14],
        [0x48, 0xb8, 0x80, 0xff, 0xff, 0xff, 0xff, 0xff, 0xff, 0xff]
    );
    assert_eq!(
        generator.generate(&Expr::Number(-129)).unwrap().code[4..14],
        [0x48, 0xb8, 0x7f, 0xff, 0xff, 0xff, 0xff, 0xff, 0xff, 0xff]
    );
    assert_eq!(
        generator.generate(&Expr::Number(i64::MIN)).unwrap().code[4..14],
        [0x48, 0xb8, 0, 0, 0, 0, 0, 0, 0, 0x80]
    );
}

#[test]
fn a_binary_operation_pushes_the_right_operand() {
    assert_eq!(
        code_of("1 + 2").unwrap(),
        vec![
            0x55, 0x48, 0x89, 0xe5, // push rbp; mov rbp, rsp
            0xb8, 0x02, 0, 0, 0, // mov eax, 2
            0x50, // push rax
            0xb8, 0x01, 0, 0, 0, // mov eax, 1
            0x59, // pop rcx
            0x48, 0x01, 0xc8, // add rax, rcx
            0x48, 0x89, 0xec, 0x5d, 0xc3, // mov rsp, rbp; pop rbp; ret
        ]
    );
}

#[test]
fn each_supported_operator_has_its_instructions() {
    let operands = vec![0xb8, 2, 0, 0, 0, 0x50, 0xb8, 1, 0, 0, 0, 0x59];
    let with = |tail: &[u8]| [operands.clone(), tail.to_vec()].concat();
    assert_eq!(body_of("1 - 2"), with(&[0x48, 0x29, 0xc8]));
    assert_eq!(body_of("1 * 2"), with(&[0x48, 0xf7, 0xe1]));
    assert_eq!(
        body_of("1 == 2"),
        with(&[0x48, 0x39, 0xc8, 0x0f, 0x94, 0xc0, 0x48, 0x0f, 0xb6, 0xc0])
    );
    assert_eq!(
        body_of("1 < 2"),
        with(&[0x48, 0x39, 0xc8, 0x0f, 0x9c, 0xc0, 0x48, 0x0f, 0xb6, 0xc0])
    );
    assert_eq!(
        body_of("1 > 2"),
        with(&[0x48, 0x39, 0xc8, 0x0f, 0x9f, 0xc0, 0x48, 0x0f, 0xb6, 0xc0])
    );
}

#[test]
fn a_variable_gets_the_next_slot_on_first_write() {
    // x gets the slot at -8, y the one at -16, and the second write of x reuses its
    // slot.
    let text = "if(x = 1, if(y = 2, x = 3, 0), 0)";
    let expr = Parser::new(text).unwrap().parse().unwrap();
    let function = X86CodeGenerator::new().generate(&expr).unwrap();
    assert_eq!(function.entry_point, 0);
    assert_eq!(function.variables.names(), vec!["x".to_string(), "y".to_string()]);
    assert_eq!(function.variables.get("x"), Some(-8));
    assert_eq!(function.variables.get("y"), Some(-16));
    assert_eq!(function.variables.get("z"), None);
    assert_eq!(function.variables.len(), 2);
    assert_eq!(frame_size_of(&format!("({}) + 1", text)), Some(16));

    assert_eq!(
        body_of("x = 42"),
        vec![0xb8, 0x2a, 0, 0, 0, 0x48, 0x89, 0x45, 0xf8]
    );
    assert_eq!(
        body_of("if(x = 1, x, 0)"),
        vec![
            0xb8, 1, 0, 0, 0, 0x48, 0x89, 0x45, 0xf8, // x = 1
            0x48, 0x85, 0xc0, // test rax, rax
            0x0f, 0x84, 9, 0, 0, 0, // jz over the load and the jump
            0x48, 0x8b, 0x45, 0xf8, // mov rax, [rbp - 8]
            0xe9, 5, 0, 0, 0, // jmp over the false branch
            0xb8, 0, 0, 0, 0,
        ]
    );
}

#[test]
fn the_seventeenth_slot_takes_a_long_displacement() {
    let names: Vec<String> = (1..=17).map(|i| format!("v{}", i)).collect();
    let text = format!("{} = 1", names.join(" = "));
    let body = body_of(&text);
    assert_eq!(frame_size_of(&text), None);
    assert_eq!(frame_size_of(&format!("0 + ({})", text)), Some(136));
    // The innermost name is written first. The sixteenth store is the last short one.
    assert_eq!(body[5..9], [0x48, 0x89, 0x45, 0xf8]);
    let long = body.len() - 7;
    assert_eq!(body[long - 4..long], [0x48, 0x89, 0x45, 0x80]);
    assert_eq!(body[long..], [0x48, 0x89, 0x85, 0x78, 0xff, 0xff, 0xff]);

    // Read back, the seventeenth slot takes the long form as well.
    let body = body_of(&format!("if({}, v1, 0)", text));
    let load = [0x48, 0x8b, 0x85, 0x78, 0xff, 0xff, 0xff];
    assert!(body.windows(7).any(|w| w == load));
}

#[test]
fn a_conditional_branches_over_its_branches() {
    assert_eq!(
        body_of("if(1, 2, 1000)"),
        vec![
            0xb8, 1, 0, 0, 0, // condition
            0x48, 0x85, 0xc0, // test rax, rax
            0x0f, 0x84, 10, 0, 0, 0, // jz over the true branch and the jump: 5 + 5 bytes
            0xb8, 2, 0, 0, 0, // true branch
            0xe9, 10, 0, 0, 0, // jmp over the false branch: 10 bytes
            0x48, 0xb8, 0xe8, 0x03, 0, 0, 0, 0, 0, 0, // false branch
        ]
    );
}

#[test]
fn nested_conditionals_patch_each_branch() {
    let body = body_of("if(1, if(2, 3, 4), 5)");
    // The inner conditional is 8 + 6 + 5 + 5 + 5 = 29 bytes long.
    assert_eq!(body[8..14], [0x0f, 0x84, 34, 0, 0, 0]);
    assert_eq!(body[14 + 29..14 + 29 + 5], [0xe9, 5, 0, 0, 0]);
    assert_eq!(body.len(), 5 + 3 + 6 + 29 + 5 + 5);
}

#[test]
fn each_generation_error_has_an_input() {
    assert_eq!(code_of("x + 1"), Err(CodeGenError::UndefinedVariable("x".to_string())));
    assert_eq!(code_of("1 % 2"), Err(CodeGenError::UnsupportedOperation(BinaryOp::Mod)));
    assert_eq!(code_of("1 != 2"), Err(CodeGenError::UnsupportedOperation(BinaryOp::NotEqual)));
    assert_eq!(code_of("1 <= 2"), Err(CodeGenError::UnsupportedOperation(BinaryOp::LessEq)));
    assert_eq!(code_of("1 >= 2"), Err(CodeGenError::UnsupportedOperation(BinaryOp::GreaterEq)));
    // An expression that divides stays interpreted: the processor faults where the
    // interpreter reports a division by zero or wraps around.
    assert_eq!(code_of("1 / 2"), Err(CodeGenError::UnsupportedOperation(BinaryOp::Div)));
    assert_eq!(code_of("fib(6)"), Err(CodeGenError::UnsupportedExpression));
    // The operands are lowered before the operator is looked at.
    assert_eq!(code_of("1 % fib(1)"), Err(CodeGenError::UnsupportedExpression));
    assert_eq!(code_of("x % 1"), Err(CodeGenError::UndefinedVariable("x".to_string())));
    assert_eq!(code_of("x % fib(1)"), Err(CodeGenError::UnsupportedExpression));
    // The code evaluates the right operand first and the interpreter the left one: an
    // operand may not assign what the other reads or assigns.
    assert_eq!(code_of("x + (x = 1)"), Err(CodeGenError::OrderDependent));
    assert_eq!(code_of("(x = 1) + (x = 2)"), Err(CodeGenError::OrderDependent));
    assert_eq!(code_of("if(x = 0, 1, (x = 1) + x)"), Err(CodeGenError::OrderDependent));
    assert_eq!(code_of("if(1, x = 1, 2) * (1 + (y = x = 3))"), Err(CodeGenError::OrderDependent));
    // What the operands or the operator lack is reported first.
    assert_eq!(code_of("(x = 1) + x"), Err(CodeGenError::UndefinedVariable("x".to_string())));
    assert_eq!(code_of("(x = 1) % (x = 2)"), Err(CodeGenError::UnsupportedOperation(BinaryOp::Mod)));
    assert_eq!(code_of("(x = 1) + (x = fib(2))"), Err(CodeGenError::UnsupportedExpression));
    assert!(code_of("(x = 1) + (y = 2)").is_ok());
    assert!(code_of("(x = 1) + 2").is_ok());
    assert!(code_of("2 + (x = 1)").is_ok());
    assert!(code_of("if(x = 1, x + x * x, x)").is_ok());
}

#[test]
fn a_generator_starts_afresh_for_each_function() {
    let mut generator = X86CodeGenerator::default();
    let first = generator.generate(&Parser::new("x = 1").unwrap().parse().unwrap()).unwrap();
    let second = generator.generate(&Parser::new("y = 1").unwrap().parse().unwrap()).unwrap();
    assert_eq!(first.code, second.code);
    assert!(!second.variables.contains_key("x"));
    assert_eq!(second.variables.get("y"), Some(-8));
}

/// Follows the instructions of `code` in order and returns the depth of the stack at
/// each return, counted from the depth at the start. Panics on bytes that are no
/// instruction of the generator, and where the stack would go below its start.
fn depths_at_returns(code: &[u8]) -> Vec<i64> {
    let mut depth: i64 = 0;
    let mut at_returns = Vec::new();
    let mut pc = 0;
    while pc < code.len() {
        let rest = &code[pc..];
        let (size, effect): (usize, i64) = match rest {
            [0x55, ..] | [0x50, ..] => (1, 1),
            [0x5d, ..] | [0x59, ..] => (1, -1),
            [0xc3, ..] => {
                at_returns.push(depth);
                (1, 0)
            }
            [0xb8, ..] | [0xe9, ..] => (5, 0),
            [0x48, 0xb8, ..] => (10, 0),
            [0x0f, 0x84, ..] => (6, 0),
            [0x0f, 0x94 | 0x9c | 0x9f, 0xc0, ..] => (3, 0),
            [0x48, 0x0f, 0xb6, 0xc0, ..] => (4, 0),
            [0x48, 0x89 | 0x8b, 0x45, ..] => (4, 0),
            [0x48, 0x89 | 0x8b, 0x85, ..] => (7, 0),
            [0x48, 0x89, 0xe5 | 0xec, ..] => (3, 0),
            [0x48, 0x81, 0xec, ..] => (7, 0),
            [0x48, 0x01 | 0x29 | 0x39 | 0x85, _, ..] => (3, 0),
            [0x48, 0xf7, 0xe1, ..] => (3, 0),
            _ => panic!("no instruction at {}: {:02x?}", pc, rest),
        };
        depth += effect;
        assert!(depth >= 0, "the stack goes below its start at {}", pc);
        pc += size;
    }
    assert_eq!(pc, code.len());
    at_returns
}

#[test]
fn generated_code_leaves_the_stack_balanced() {
    for text in [
        "42",
        "1 + 2 * 3",
        "(1 + 2) * (3 - 4) * 5",
        "x = 1000",
        "if(x = 1, x * x + 2, 0 - x)",
        "if(1 < 2, 3 + 4, 5 * (6 + 7))",
        "if(if(1, 0, 1), (a = 2) + 1, if(0, 1, 2) * 3) == 6",
        "1 + (2 + (3 + (4 + (5 + (6 + (7 + 8))))))",
        "(x = 1) + (y = 2)",
    ] {
        let code = code_of(text).unwrap();
        assert_eq!(depths_at_returns(&code), vec![0], "{}", text);
        assert!(check_stack_balance(&code), "{}", text);
    }
}

#[test]
fn code_that_loses_track_of_the_stack_is_told_apart() {
    assert!(check_stack_balance(&vec![]));
    assert!(check_stack_balance(&vec![0xc3]));
    assert!(check_stack_balance(&vec![0x50, 0x59, 0xc3]));
    // A return with an operand left on the stack.
    assert!(!check_stack_balance(&vec![0x50, 0xc3]));
    // A frame is reserved and given up without a push or a pop.
    assert!(check_stack_balance(&vec![0x55, 0x48, 0x89, 0xe5, 0x48, 0x81, 0xec, 8, 0, 0, 0, 0x48, 0x89, 0xec, 0x5d, 0xc3]));
    // A pop from an empty stack.
    assert!(!check_stack_balance(&vec![0x59, 0x50, 0xc3]));
    // An instruction that is cut off.
    assert!(!check_stack_balance(&vec![0xb8, 0x01, 0x00]));
    assert!(!check_stack_balance(&vec![0x48, 0x89]));
    // Bytes that are no instruction of the generator.
    assert!(!check_stack_balance(&vec![0x90]));
    assert!(!check_stack_balance(&vec![0x48, 0x89, 0xc0]));
    // An operand that looks like a return is no return.
    assert!(check_stack_balance(&vec![0x50, 0xb8, 0xc3, 0xc3, 0xc3, 0xc3, 0x59, 0xc3]));
}

#[test]
fn registers_have_their_hardware_numbers() {
    let numbers: Vec<u8> = [
        Register::Rax,
        Register::Rcx,
        Register::Rdx,
        Register::Rbx,
        Register::Rsp,
        Register::Rbp,
        Register::Rsi,
        Register::Rdi,
    ]
    .iter()
    .map(|r| r.number())
    .collect();
    assert_eq!(numbers, vec![0, 1, 2, 3, 4, 5, 6, 7]);
}

#[test]
fn a_layout_hands_out_each_slot_once() {
    let mut layout = VariableLayout::new();
    assert_eq!(layout.allocate("a".to_string()), Some(-8));
    assert_eq!(layout.allocate("b".to_string()), Some(-16));
    assert_eq!(layout.allocate("a".to_string()), Some(-8));
    assert_eq!(layout.allocate("c".to_string()), Some(-24));
    assert_eq!(layout.find("b"), Some(1));
    assert_eq!(layout.find("d"), None);
    assert_eq!(layout.len(), 3);
    let copy = layout.clone();
    layout.allocate("d".to_string());
    assert_eq!(copy.len(), 3);
    assert_eq!(copy.names(), vec!["a".to_string(), "b".to_string(), "c".to_string()]);
}

#[test]
fn a_region_holds_a_copy_of_the_code() {
    let code = code_of("1 + 2").unwrap();
    let region = ExecutableMemory::new(&code).unwrap();
    assert_eq!(region.get_code(), &code[..]);
    assert!(region.is_simulated());
}

fn parsed(text: &str) -> Expr {
    Parser::new(text).unwrap().parse().unwrap()
}

#[test]
fn operands_collide_on_a_shared_assigned_name() {
    assert!(operands_collide(&parsed("x = 1"), &parsed("x")));
    assert!(!operands_collide(&parsed("x"), &parsed("x = 1")));
    assert!(operands_collide(&parsed("x = 1"), &parsed("y = x")));
    assert!(operands_collide(&parsed("if(1, 2, a = 3)"), &parsed("1 + (a = 2)")));
    assert!(!operands_collide(&parsed("x = 1"), &parsed("y = 2")));
    assert!(!operands_collide(&parsed("x + y"), &parsed("x * y")));
    assert!(!operands_collide(&parsed("xy = 1"), &parsed("x + y")));
    assert!(!operands_collide(&parsed("1"), &parsed("2")));
}

#[test]
fn assignments_and_exposed_pushes_are_found_wherever_they_stand() {
    assert!(expr_assigns(&parsed("if(1, 2 + (x = 3), 4)")));
    assert!(!expr_assigns(&parsed("if(1, 2 + 3, x)")));
    assert!(!expr_assigns(&parsed("fib(x = 1)")));
    assert!(!expr_exposed(&parsed("x = if(1, 2, 3 * 4)"), false));
    assert!(expr_exposed(&parsed("x = if(1, 2, 3 * 4)"), true));
    assert!(!expr_exposed(&parsed("if(1, x = 2, 3 * 4)"), false));
    assert!(expr_exposed(&parsed("if(x = 1, 2, 3 * 4)"), false));
    assert!(expr_exposed(&parsed("1 + (x = 2)"), false));
    assert!(!expr_exposed(&parsed("x = if(1, y = 2, 3)"), true));
    assert!(!expr_exposed(&parsed("fib(1 + 2)"), true));
}
