use rclox::chunk::OpCode;
use rclox::compiler::Compiler;
use rclox::compiler::parser::{Diagnostic, ErrorPlace};
use rclox::function::FunctionType;
use rclox::native::{NativeKind, random_integer};
use rclox::scanner::Scanner;
use rclox::value::{ObjectType, Value};
use rclox::vm::{Action, InterpretResult, NumericOp, Reply, RuntimeError, Vm};

fn numbers_of(source: &str) -> Vec<(usize, u64)> {
    let mut scanner = Scanner::new(source.to_string());
    let tokens = scanner.number_literals();
    tokens
        .iter()
        .map(|t| (t.start, scanner.get_lexeme(*t).parse::<f64>().unwrap().to_bits()))
        .collect()
}

fn render_diagnostic(d: &Diagnostic) -> String {
    let place = match &d.place {
        ErrorPlace::AtEnd => " at end".to_string(),
        ErrorPlace::AtLexeme(s) => format!(" at '{}'", s),
        ErrorPlace::Unplaced => String::new(),
    };
    format!("[line {}] Error{}: {}", d.line, place, d.message)
}

fn show(vm: &Vm, v: Value) -> String {
    match v {
        Value::Bool(b) => format!("{}", b),
        Value::Number(n) => format!("{}", f64::from_bits(n)),
        Value::Nil => "nil".to_string(),
        Value::Object(r) => match &vm.heap().get(r).obj_type {
            ObjectType::String(s) => s.clone(),
            ObjectType::Function(f) => format!("<fun {}>", f.name),
            ObjectType::Native(f) => format!("<native fun {}>", f.name),
            ObjectType::Array(values) => {
                let parts: Vec<String> = values.iter().map(|x| show(vm, *x)).collect();
                format!("[{}]", parts.join(", "))
            }
            ObjectType::Closure(c) => match &vm.heap().get(c.function).obj_type {
                ObjectType::Function(f) => format!("<fun {}>", f.name),
                _ => "<fun>".to_string(),
            },
        },
    }
}

fn name_of(vm: &Vm, r: usize) -> String {
    match &vm.heap().get(r).obj_type {
        ObjectType::String(s) => s.clone(),
        ObjectType::Native(f) => f.name.clone(),
        ObjectType::Closure(c) => match &vm.heap().get(c.function).obj_type {
            ObjectType::Function(f) => f.name.clone(),
            _ => String::new(),
        },
        _ => String::new(),
    }
}

fn error_text(vm: &Vm, e: RuntimeError) -> String {
    match e {
        RuntimeError::Arity { arity, got, callee } => {
            format!("Expected {} but got {} arguments for function {}", arity, got, name_of(vm, callee))
        }
        RuntimeError::StackUnderflow => "Stack underflow".to_string(),
        RuntimeError::OperandsNumbersOrStrings => "Operands must be two numbers or two strings".to_string(),
        RuntimeError::OperandsNumbers => "Operands must be numbers.".to_string(),
        RuntimeError::OperandNumber => "Operand must be a number".to_string(),
        RuntimeError::InvalidFunctionType => "Invalid function type".to_string(),
        RuntimeError::NotAnObject => "Not an Object".to_string(),
        RuntimeError::NotAFunction => "Not a function".to_string(),
        RuntimeError::NotAnArray => "Not an array".to_string(),
        RuntimeError::IndexNotNumber => "Index must be a number".to_string(),
        RuntimeError::IndexNotInteger => "Index must be a non-negative integer".to_string(),
        RuntimeError::IndexOutOfBounds { index, len } => format!("Index {} out of bounds (len {})", index, len),
        RuntimeError::LengthNotNumber => "Length be a number".to_string(),
        RuntimeError::UndefinedVariable(name) => format!("Undefined variable '{}'", name_of(vm, name)),
        RuntimeError::Native => "native function failed".to_string(),
    }
}

fn trace_lines(vm: &Vm) -> Vec<String> {
    vm.trace()
        .iter()
        .map(|frame| {
            let function = match &vm.heap().get(frame.closure).obj_type {
                ObjectType::Closure(c) => match &vm.heap().get(c.function).obj_type {
                    ObjectType::Function(f) => f,
                    _ => panic!("closure without function"),
                },
                _ => panic!("frame without closure"),
            };
            let line = function.chunk.get_line(frame.ip - 1);
            if function.name.is_empty() {
                format!("[line {}] in script", line)
            } else {
                format!("[line {}] in {}()", line, function.name)
            }
        })
        .collect()
}

fn native_result(vm: &Vm, kind: NativeKind, arg_count: usize) -> Result<Value, String> {
    let stack = vm.stack();
    let args = &stack[stack.len() - arg_count..];
    let number = |v: Value| match v {
        Value::Number(n) => f64::from_bits(n),
        _ => panic!("expected a number"),
    };
    match kind {
        NativeKind::Clock => Ok(Value::Number(1234.5f64.to_bits())),
        NativeKind::Floor => match args[0] {
            Value::Number(n) => Ok(Value::Number(f64::from_bits(n).floor().to_bits())),
            other => Err(format!("floor: expected a number, got {}", show(vm, other))),
        },
        NativeKind::Modulo => Ok(Value::Number((number(args[0]) % number(args[1])).to_bits())),
        NativeKind::Random => {
            let low = number(args[0]).floor() as i64;
            let high = number(args[1]).floor() as i64;
            Ok(Value::Number((random_integer(low, high).unwrap() as f64).to_bits()))
        }
    }
}

struct Run {
    result: InterpretResult,
    output: Vec<String>,
    errors: Vec<String>,
}

fn run_in(vm: &mut Vm, source: &str) -> Run {
    let mut compiler = Compiler::new(Scanner::new(source.to_string()), FunctionType::TypeScript, numbers_of(source));
    let compiled = compiler.compile(vm);
    let mut errors: Vec<String> = compiler.parser.diagnostics.iter().map(render_diagnostic).collect();
    let mut output = Vec::new();
    let function = match compiled {
        Some(f) => f,
        None => return Run { result: InterpretResult::InterpretCompileError, output, errors },
    };
    let mut native_message = String::new();
    let mut action = vm.interpret(function);
    let result = loop {
        action = match action {
            Action::Continue => vm.step(),
            Action::Finished => break InterpretResult::InterpretOk,
            Action::Print(v) => {
                output.push(show(vm, v));
                vm.step()
            }
            Action::Arithmetic(op, a, b) => {
                let (x, y) = (f64::from_bits(a), f64::from_bits(b));
                let r = match op {
                    NumericOp::Add => x + y,
                    NumericOp::Subtract => x - y,
                    NumericOp::Multiply => x * y,
                    NumericOp::Divide => x / y,
                };
                vm.resume(Reply::Number(r.to_bits()))
            }
            Action::ArrayLength(n) => vm.resume(Reply::Length(f64::from_bits(n) as usize)),
            Action::LengthValue(n) => vm.resume(Reply::Number((n as f64).to_bits())),
            Action::Index(n) => {
                let x = f64::from_bits(n);
                let index = if x < 0.0 || x.fract() != 0.0 { None } else { Some(x as usize) };
                vm.resume(Reply::Index(index))
            }
            Action::CallNative(kind, arg_count) => match native_result(vm, kind, arg_count) {
                Ok(v) => vm.resume(Reply::Native(Some(v))),
                Err(message) => {
                    native_message = message;
                    vm.resume(Reply::Native(None))
                }
            },
            Action::Error(RuntimeError::Native) => {
                errors.push(native_message.clone());
                errors.extend(trace_lines(vm));
                break InterpretResult::InterpretRuntimeError;
            }
            Action::Error(e) => {
                errors.push(error_text(vm, e));
                errors.extend(trace_lines(vm));
                break InterpretResult::InterpretRuntimeError;
            }
            Action::Fault => panic!("the machine faulted"),
        };
    };
    Run { result, output, errors }
}

fn run(source: &str) -> Run {
    let mut vm = Vm::new();
    run_in(&mut vm, source)
}

fn output_of(source: &str) -> Vec<String> {
    let r = run(source);
    assert_eq!(r.errors, Vec::<String>::new());
    assert_eq!(r.result, InterpretResult::InterpretOk);
    r.output
}

fn strings(xs: &[&str]) -> Vec<String> {
    xs.iter().map(|s| s.to_string()).collect()
}

#[test]
fn prints_arithmetic() {
    assert_eq!(output_of("print 1 + 2;"), strings(&["3"]));
    assert_eq!(output_of("print (1 + 2) * 3 - 4 / 2;"), strings(&["7"]));
    assert_eq!(output_of("print -(1.5);"), strings(&["-1.5"]));
    assert_eq!(output_of("print 10 - 2 - 3;"), strings(&["5"]));
}

#[test]
fn compares_and_negates() {
    assert_eq!(
        output_of("print 1 <= 2; print 2 >= 3; print 1 != 2; print !true; print 1 == 1; print 3 > 2; print 2 < 1;"),
        strings(&["true", "false", "true", "false", "true", "true", "false"])
    );
    assert_eq!(output_of("print 0/0 == 0/0;"), strings(&["false"]));
    assert_eq!(output_of("print nil == false; print !nil;"), strings(&["false", "true"]));
}

#[test]
fn logical_operators_short_circuit() {
    assert_eq!(
        output_of("print true and false; print false or true; print nil or \"x\"; print false and undefined;"),
        strings(&["false", "true", "x", "false"])
    );
}

#[test]
fn strings_concatenate_and_intern() {
    assert_eq!(
        output_of("var a = \"he\"; var b = \"llo\"; print a + b; print \"hello\" == a + b;"),
        strings(&["hello", "true"])
    );
}

#[test]
fn globals_and_assignment() {
    assert_eq!(output_of("var a = 1; a = a + 41; print a; var b; print b;"), strings(&["42", "nil"]));
}

#[test]
fn block_scopes_shadow() {
    assert_eq!(
        output_of("{ var x = 1; { var x = 2; print x; } print x; }"),
        strings(&["2", "1"])
    );
}

#[test]
fn if_else_branches() {
    assert_eq!(output_of("if (1 < 2) print \"yes\"; else print \"no\";"), strings(&["yes"]));
    assert_eq!(output_of("if (nil) print \"yes\"; else print \"no\";"), strings(&["no"]));
    assert_eq!(output_of("if (false) print 1; print 2;"), strings(&["2"]));
}

#[test]
fn while_loops() {
    assert_eq!(output_of("var i = 0; while (i < 3) { print i; i = i + 1; }"), strings(&["0", "1", "2"]));
}

#[test]
fn for_loops_with_break_and_continue() {
    assert_eq!(
        output_of("for (var i = 0; i < 5; i = i + 1) { if (i == 1) continue; if (i == 3) break; print i; }"),
        strings(&["0", "2"])
    );
    assert_eq!(
        output_of("var n = 0; for (;;) { n = n + 1; if (n > 2) break; } print n;"),
        strings(&["3"])
    );
    assert_eq!(
        output_of("var i = 0; while (true) { i = i + 1; { var t = i; if (t == 4) break; } } print i;"),
        strings(&["4"])
    );
}

#[test]
fn increments_and_decrements() {
    assert_eq!(
        output_of("var i = 1; print i++; print i; print ++i; print i--; print --i;"),
        strings(&["1", "2", "3", "3", "1"])
    );
    assert_eq!(output_of("{ var j = 5; j++; print j; }"), strings(&["6"]));
}

#[test]
fn functions_and_recursion() {
    assert_eq!(output_of("fun add(a, b) { return a + b; } print add(1, 2);"), strings(&["3"]));
    assert_eq!(
        output_of("fun fib(n) { if (n < 2) return n; return fib(n - 1) + fib(n - 2); } print fib(10);"),
        strings(&["55"])
    );
    assert_eq!(output_of("fun f() {} print f();"), strings(&["nil"]));
    assert_eq!(output_of("fun f() {} print f;"), strings(&["<fun f>"]));
}

#[test]
fn arrays() {
    assert_eq!(
        output_of("var a = [1, 2, 3]; print a[1]; a[0] = 5; print a; print len(a); var b = array(2); print b; print [];"),
        strings(&["2", "[5, 2, 3]", "3", "[nil, nil]", "[]"])
    );
}

#[test]
fn switch_yields_a_value() {
    let program = "var x = 2; print switch x { case 1 => { yield \"one\"; } case 2 => { yield \"two\"; } default => { yield \"other\"; } };";
    assert_eq!(output_of(program), strings(&["two"]));
    let fallback = "print switch 9 { case 1 => { yield 1; } default => { var t = 3; yield t * 2; } };";
    assert_eq!(output_of(fallback), strings(&["6"]));
    let empty = "print switch 1 { case 1 => { } default => { } };";
    assert_eq!(output_of(empty), strings(&["nil"]));
}

#[test]
fn natives() {
    assert_eq!(output_of("print floor(2.7); print modulo(7, 3); print clock() > 0;"), strings(&["2", "1", "true"]));
    assert_eq!(output_of("var r = random(1, 3); print r >= 1 and r <= 3;"), strings(&["true"]));
    assert_eq!(output_of("print floor;"), strings(&["<native fun floor>"]));
}

#[test]
fn undefined_variable_is_a_runtime_error() {
    let r = run("print 1;\nprint nope;");
    assert_eq!(r.result, InterpretResult::InterpretRuntimeError);
    assert_eq!(r.output, strings(&["1"]));
    assert_eq!(r.errors, strings(&["Undefined variable 'nope'", "[line 2] in script"]));
}

#[test]
fn runtime_error_trace_lists_calls() {
    let r = run("fun inner() {\n  return -\"x\";\n}\nfun outer() { return inner(); }\nouter();");
    assert_eq!(r.result, InterpretResult::InterpretRuntimeError);
    assert_eq!(
        r.errors,
        strings(&["Operand must be a number", "[line 2] in inner()", "[line 4] in outer()", "[line 5] in script"])
    );
}

#[test]
fn runtime_errors_of_operands_and_arrays() {
    assert_eq!(run("print 1 + nil;").errors, strings(&["Operands must be two numbers or two strings", "[line 1] in script"]));
    assert_eq!(run("print 1 < \"a\";").errors, strings(&["Operands must be numbers.", "[line 1] in script"]));
    assert_eq!(run("var a = [1]; print a[3];").errors, strings(&["Index 3 out of bounds (len 1)", "[line 1] in script"]));
    assert_eq!(run("var a = [1]; print a[0.5];").errors, strings(&["Index must be a non-negative integer", "[line 1] in script"]));
    assert_eq!(run("var a = 1; print a[0];").errors[0], "Not an array");
    assert_eq!(run("fun f(a) {} f();").errors[0], "Expected 1 but got 0 arguments for function f");
}

#[test]
fn compile_errors_are_reported() {
    let r = run("print 1 +;");
    assert_eq!(r.result, InterpretResult::InterpretCompileError);
    assert_eq!(r.errors, strings(&["[line 1] Error at ';': Expected expression."]));
    let r = run("var x = 1");
    assert_eq!(r.errors, strings(&["[line 1] Error at end: Expected ';' after variable declaration."]));
    let r = run("{ var a = 1; var a = 2; }");
    assert_eq!(r.errors, strings(&["[line 1] Error at 'a': Already a variable with this name"]));
    let r = run("return 1;");
    assert_eq!(r.errors, strings(&["[line 1] Error at 'return': Can't use return outside a function"]));
    let r = run("break;");
    assert_eq!(r.errors, strings(&["[line 1] Error at ';': Break can't be used outside loops"]));
    let r = run("1 = 2;");
    assert_eq!(r.errors, strings(&["[line 1] Error at '=': Invalid assignment target."]));
    let r = run("print @;");
    assert_eq!(r.errors, strings(&["[line 1] Error: Unexpected Character"]));
}

#[test]
fn recovery_reports_one_error_per_statement() {
    let r = run("print 1 +;\nprint 2 +;\nprint 3;");
    assert_eq!(
        r.errors,
        strings(&["[line 1] Error at ';': Expected expression.", "[line 2] Error at ';': Expected expression."])
    );
    let r = run("print (1 + ;");
    assert_eq!(r.errors.len(), 1);
}

#[test]
fn compiles_to_expected_bytecode() {
    let mut vm = Vm::new();
    let source = "print 1;";
    let mut compiler = Compiler::new(Scanner::new(source.to_string()), FunctionType::TypeScript, numbers_of(source));
    let f = compiler.compile(&mut vm).unwrap();
    match &vm.heap().get(f).obj_type {
        ObjectType::Function(function) => {
            let code: Vec<u8> = (0..function.chunk.count()).map(|i| function.chunk.read_byte(i)).collect();
            assert_eq!(
                code,
                vec![
                    OpCode::OpConstant.to_byte(),
                    0,
                    OpCode::OpPrint.to_byte(),
                    OpCode::OpNil.to_byte(),
                    OpCode::OpReturn.to_byte()
                ]
            );
            assert!(function.chunk.read_constant(0) == Value::Number(1.0f64.to_bits()));
        }
        _ => panic!("not a function"),
    }
}

#[test]
fn missing_number_value_is_reported() {
    let mut vm = Vm::new();
    let mut compiler = Compiler::new(Scanner::new("print 5;".to_string()), FunctionType::TypeScript, Vec::new());
    assert_eq!(compiler.compile(&mut vm), None);
    assert_eq!(
        compiler.parser.diagnostics.iter().map(render_diagnostic).collect::<Vec<_>>(),
        strings(&["[line 1] Error at '5': Expected a number value."])
    );
}

#[test]
fn state_persists_between_runs() {
    let mut vm = Vm::new();
    assert_eq!(run_in(&mut vm, "var a = 3;").result, InterpretResult::InterpretOk);
    assert_eq!(run_in(&mut vm, "print a * 2;").output, strings(&["6"]));
    assert_eq!(run_in(&mut vm, "print b;").result, InterpretResult::InterpretRuntimeError);
    assert_eq!(run_in(&mut vm, "print a;").output, strings(&["3"]));
}

fn function_code(vm: &Vm, r: usize) -> Vec<u8> {
    match &vm.heap().get(r).obj_type {
        ObjectType::Function(function) => (0..function.chunk.count()).map(|i| function.chunk.read_byte(i)).collect(),
        _ => panic!("not a function"),
    }
}

#[test]
fn captured_variables_compile_to_upvalue_access() {
    let mut vm = Vm::new();
    let source = "fun outer() { var a = 1; fun inner() { return a; } }";
    let mut compiler = Compiler::new(Scanner::new(source.to_string()), FunctionType::TypeScript, numbers_of(source));
    let script = compiler.compile(&mut vm).unwrap();
    let mut inner = None;
    for r in 0..vm.heap().len() {
        if let ObjectType::Function(f) = &vm.heap().get(r).obj_type {
            if f.name == "inner" {
                inner = Some((r, f.upvalue_count));
            }
        }
    }
    let (inner, upvalue_count) = inner.unwrap();
    assert_eq!(upvalue_count, 1);
    assert_eq!(
        function_code(&vm, inner),
        vec![
            OpCode::OpGetUpvalue.to_byte(),
            0,
            OpCode::OpReturn.to_byte(),
            OpCode::OpNil.to_byte(),
            OpCode::OpReturn.to_byte()
        ]
    );
    let code = function_code(&vm, script);
    assert_eq!(code[0], OpCode::OpClosure.to_byte());
    assert_eq!(code[2], OpCode::OpDefineGlobal.to_byte());
}

#[test]
fn globals_compile_by_name() {
    let mut vm = Vm::new();
    let source = "x = 1;";
    let mut compiler = Compiler::new(Scanner::new(source.to_string()), FunctionType::TypeScript, numbers_of(source));
    let script = compiler.compile(&mut vm).unwrap();
    let name = vm.allocate_string("x");
    match &vm.heap().get(script).obj_type {
        ObjectType::Function(f) => {
            assert!(f.chunk.read_constant(0) == Value::Object(name));
            assert!(f.chunk.read_constant(1) == Value::Number(1.0f64.to_bits()));
        }
        _ => panic!("not a function"),
    }
    assert_eq!(
        function_code(&vm, script),
        vec![
            OpCode::OpConstant.to_byte(),
            1,
            OpCode::OpSetGlobal.to_byte(),
            0,
            OpCode::OpPop.to_byte(),
            OpCode::OpNil.to_byte(),
            OpCode::OpReturn.to_byte()
        ]
    );
}

#[test]
fn locals_compile_by_slot_and_scopes_pop_them() {
    let mut vm = Vm::new();
    let source = "{ var a = 1; var b = a; }";
    let mut compiler = Compiler::new(Scanner::new(source.to_string()), FunctionType::TypeScript, numbers_of(source));
    let script = compiler.compile(&mut vm).unwrap();
    assert_eq!(
        function_code(&vm, script),
        vec![
            OpCode::OpConstant.to_byte(),
            0,
            OpCode::OpGetLocal.to_byte(),
            1,
            OpCode::OpPopN.to_byte(),
            2,
            OpCode::OpNil.to_byte(),
            OpCode::OpReturn.to_byte()
        ]
    );
}

#[test]
fn values_inspect_heap_objects() {
    let mut vm = Vm::new();
    let s = vm.allocate_string("text");
    let v = Value::Object(s);
    assert!(v.is_string(vm.heap()));
    assert!(!v.is_array(vm.heap()));
    assert!(!v.is_function(vm.heap()));
    assert_eq!(v.as_string(vm.heap()), Some("text"));
    assert!(v.as_array(vm.heap()).is_none());
    assert!(!Value::Nil.is_string(vm.heap()));
    assert!(!Value::Object(100000).is_string(vm.heap()));
    let clock = vm.allocate_string("clock");
    match vm.get_global(clock) {
        Some(native) => {
            assert!(native.is_native(vm.heap()));
            assert!(!native.is_closure(vm.heap()));
        }
        None => panic!("clock is not defined"),
    }
}

#[test]
fn runtime_errors_of_calls_and_natives() {
    assert_eq!(run("\"a\"();").errors, strings(&["Invalid function type", "[line 1] in script"]));
    assert_eq!(run("var a = [1]; print a[\"x\"];").errors, strings(&["Index must be a number", "[line 1] in script"]));
    assert_eq!(run("print array(\"x\");").errors, strings(&["Length be a number", "[line 1] in script"]));
    assert_eq!(run("print floor(\"x\");").errors, strings(&["floor: expected a number, got x", "[line 1] in script"]));
    assert_eq!(run("print len(3);").errors, strings(&["Not an array", "[line 1] in script"]));
    assert_eq!(output_of("1(); print 2;"), strings(&["2"]));
}

#[test]
fn emission_helpers_write_code() {
    let mut compiler = Compiler::new(Scanner::new("x".to_string()), FunctionType::TypeScript, Vec::new());
    assert_eq!(compiler.locals().len(), 1);
    assert!(compiler.jumps().is_empty());
    assert_eq!(compiler.frame().scope_depth, 0);
    assert_eq!(compiler.function().arity, 0);
    assert_eq!(compiler.chunk().count(), 0);
    compiler.emit_byte(OpCode::OpNil.to_byte());
    let site = compiler.emit_jump(OpCode::OpJumpIfFalse);
    assert_eq!(site, 2);
    compiler.emit_pop();
    compiler.emit_bytes(OpCode::OpTrue.to_byte(), OpCode::OpPop.to_byte());
    compiler.patch_jump(site);
    compiler.emit_constant(Value::Number(2.0f64.to_bits()));
    compiler.emit_loop(1);
    compiler.emit_return();
    let chunk = compiler.chunk();
    let code: Vec<u8> = (0..chunk.count()).map(|i| chunk.read_byte(i)).collect();
    assert_eq!(
        code,
        vec![
            OpCode::OpNil.to_byte(),
            OpCode::OpJumpIfFalse.to_byte(),
            0,
            3,
            OpCode::OpPop.to_byte(),
            OpCode::OpTrue.to_byte(),
            OpCode::OpPop.to_byte(),
            OpCode::OpConstant.to_byte(),
            0,
            OpCode::OpLoop.to_byte(),
            0,
            11,
            OpCode::OpReturn.to_byte()
        ]
    );
}

#[test]
fn too_many_constants_is_a_compile_error() {
    let mut source = String::new();
    for i in 0..257 {
        source.push_str(&format!("print {};\n", i));
    }
    let r = run(&source);
    assert_eq!(r.result, InterpretResult::InterpretCompileError);
    assert_eq!(r.errors, strings(&["[line 257] Error at '256': Too many constants in one chunk."]));
    let mut fits = String::new();
    for i in 0..256 {
        fits.push_str(&format!("print {};\n", i));
    }
    assert_eq!(output_of(&fits).len(), 256);
}

#[test]
fn reading_a_local_in_its_own_initializer_is_an_error() {
    let r = run("{ var x = x; }");
    assert_eq!(r.result, InterpretResult::InterpretCompileError);
    assert_eq!(r.errors, strings(&["[line 1] Error at 'x': Can't read local variable in its own initializer"]));
    assert_eq!(output_of("var x = 1; { var y = x; print y; }"), strings(&["1"]));
}

#[test]
fn errors_in_function_bodies_fail_the_compile() {
    let r = run("fun f() { 1 + ; }");
    assert_eq!(r.result, InterpretResult::InterpretCompileError);
    assert_eq!(r.errors, strings(&["[line 1] Error at ';': Expected expression."]));
    let r = run("1 + 2 = 3;");
    assert_eq!(r.errors, strings(&["[line 1] Error at '=': Invalid assignment target."]));
}

#[test]
fn operators_compile_by_precedence_and_from_the_left() {
    let mut vm = Vm::new();
    let source = "1 - 2 * 3 - 4;";
    let mut compiler = Compiler::new(Scanner::new(source.to_string()), FunctionType::TypeScript, numbers_of(source));
    let script = compiler.compile(&mut vm).unwrap();
    assert_eq!(
        function_code(&vm, script),
        vec![
            OpCode::OpConstant.to_byte(),
            0,
            OpCode::OpConstant.to_byte(),
            1,
            OpCode::OpConstant.to_byte(),
            2,
            OpCode::OpMultiply.to_byte(),
            OpCode::OpSubtract.to_byte(),
            OpCode::OpConstant.to_byte(),
            3,
            OpCode::OpSubtract.to_byte(),
            OpCode::OpPop.to_byte(),
            OpCode::OpNil.to_byte(),
            OpCode::OpReturn.to_byte()
        ]
    );
    assert_eq!(output_of("print 1 - 2 * 3 - 4;"), strings(&["-9"]));
}

#[test]
fn loops_break_and_continue_compile_to_jumps() {
    let mut vm = Vm::new();
    let source = "while (true) { continue; break; }";
    let mut compiler = Compiler::new(Scanner::new(source.to_string()), FunctionType::TypeScript, numbers_of(source));
    let script = compiler.compile(&mut vm).unwrap();
    assert_eq!(
        function_code(&vm, script),
        vec![
            OpCode::OpTrue.to_byte(),
            OpCode::OpJumpIfFalse.to_byte(),
            0,
            10,
            OpCode::OpPop.to_byte(),
            OpCode::OpLoop.to_byte(),
            0,
            8,
            OpCode::OpJump.to_byte(),
            0,
            4,
            OpCode::OpLoop.to_byte(),
            0,
            14,
            OpCode::OpPop.to_byte(),
            OpCode::OpNil.to_byte(),
            OpCode::OpReturn.to_byte()
        ]
    );
}

#[test]
fn prefix_increment_compiles_to_get_add_set() {
    let mut vm = Vm::new();
    let source = "{ var i = 1; ++i; }";
    let mut compiler = Compiler::new(Scanner::new(source.to_string()), FunctionType::TypeScript, numbers_of(source));
    let script = compiler.compile(&mut vm).unwrap();
    assert_eq!(
        function_code(&vm, script),
        vec![
            OpCode::OpConstant.to_byte(),
            0,
            OpCode::OpGetLocal.to_byte(),
            1,
            OpCode::OpConstant.to_byte(),
            0,
            OpCode::OpAdd.to_byte(),
            OpCode::OpSetLocal.to_byte(),
            1,
            OpCode::OpPop.to_byte(),
            OpCode::OpPopN.to_byte(),
            1,
            OpCode::OpNil.to_byte(),
            OpCode::OpReturn.to_byte()
        ]
    );
}
