use rclox::chunk::Chunk;
use rclox::closure::ClosureObject;
use rclox::compiler::Compiler;
use rclox::function::{FunctionObject, FunctionType};
use rclox::heap::Heap;
use rclox::scanner::Scanner;
use rclox::compiler::parser::Parser;
use rclox::token::{Token, TokenType};
use rclox::value::{ObjectType, Value, number_equal, number_less, number_negate};
use rclox::vm::{Action, RuntimeError, Vm};

#[test]
fn interning_twice_gives_one_object() {
    let mut vm = Vm::new();
    let before = vm.heap().len();
    let a = vm.allocate_string("same");
    let after_first = vm.heap().len();
    let b = vm.allocate_string("same");
    assert_eq!(a, b);
    assert_eq!(after_first, before + 1);
    assert_eq!(vm.heap().len(), after_first);
    match &vm.heap().get(a).obj_type {
        ObjectType::String(s) => assert_eq!(s, "same"),
        _ => panic!("not a string"),
    }
    let c = vm.allocate_string("other");
    assert_ne!(a, c);
}

#[test]
fn globals_read_back_what_was_written() {
    let mut vm = Vm::new();
    let x = vm.allocate_string("x");
    let y = vm.allocate_string("y");
    assert!(vm.get_global(x).is_none());
    vm.set_global(x, Value::Number(1.0f64.to_bits()));
    vm.set_global(y, Value::Bool(true));
    vm.set_global(x, Value::Nil);
    assert!(vm.get_global(x) == Some(Value::Nil));
    assert!(vm.get_global(y) == Some(Value::Bool(true)));
}

#[test]
fn natives_are_defined_as_globals() {
    let mut vm = Vm::new();
    let name = vm.allocate_string("random");
    match vm.get_global(name) {
        Some(Value::Object(r)) => match &vm.heap().get(r).obj_type {
            ObjectType::Native(f) => assert_eq!((f.name.as_str(), f.arity), ("random", 2)),
            _ => panic!("not a native"),
        },
        _ => panic!("random is not defined"),
    }
    let name = vm.allocate_string("modulo");
    match vm.get_global(name) {
        Some(Value::Object(r)) => match &vm.heap().get(r).obj_type {
            ObjectType::Native(f) => assert_eq!((f.name.as_str(), f.arity), ("modulo", 2)),
            _ => panic!("not a native"),
        },
        _ => panic!("modulo is not defined"),
    }
}

#[test]
fn constants_written_twice_are_stored_once() {
    let mut chunk = Chunk::new();
    let v = Value::Number(42.0f64.to_bits());
    let i = chunk.write_constant(v).unwrap();
    let n = chunk.constant_count();
    assert_eq!(chunk.write_constant(v), Some(i));
    assert_eq!(chunk.constant_count(), n);
    assert!(chunk.read_constant(i as usize) == v);
}

#[test]
fn errors_while_recovering_are_not_recorded() {
    let source = "print (1 + ;";
    let mut vm = Vm::new();
    let mut compiler = Compiler::new(Scanner::new(source.to_string()), FunctionType::TypeScript, vec![(7, 1.0f64.to_bits())]);
    assert_eq!(compiler.compile(&mut vm), None);
    assert_eq!(compiler.parser.diagnostics.len(), 1);
    assert!(compiler.parser.had_error);
}

#[test]
fn compile_succeeds_exactly_without_diagnostics() {
    let mut vm = Vm::new();
    let mut ok = Compiler::new(Scanner::new("print 1;".to_string()), FunctionType::TypeScript, vec![(6, 1.0f64.to_bits())]);
    assert!(ok.compile(&mut vm).is_some());
    assert!(ok.parser.diagnostics.is_empty());
    let mut bad = Compiler::new(Scanner::new("print;".to_string()), FunctionType::TypeScript, Vec::new());
    assert!(bad.compile(&mut vm).is_none());
    assert!(!bad.parser.diagnostics.is_empty());
}

#[test]
fn recovery_stops_at_statement_boundary() {
    let mut vm = Vm::new();
    let mut compiler = Compiler::new(Scanner::new("x = = 1 var y; print y".to_string()), FunctionType::TypeScript, vec![(6, 1.0f64.to_bits())]);
    compiler.compile(&mut vm);
    assert_eq!(compiler.parser.diagnostics.len(), 2);
    assert_eq!(compiler.parser.diagnostics[1].message, "Expected ';' after value.");
}

#[test]
fn scanner_stays_at_end() {
    let mut scanner = Scanner::new("  ".to_string());
    for _ in 0..3 {
        let t = scanner.next_token();
        assert_eq!(t.token_type, TokenType::EOF);
        assert_eq!((t.start, t.length, t.line), (2, 0, 1));
    }
}

#[test]
fn number_laws_on_examples() {
    let vals = [0.0f64, -0.0, 1.5, -2.0, f64::INFINITY, f64::NEG_INFINITY, f64::NAN];
    for a in vals {
        let ab = a.to_bits();
        assert_eq!(number_equal(ab, ab), !a.is_nan());
        assert_eq!(number_negate(number_negate(ab)), ab);
        for b in vals {
            let bb = b.to_bits();
            assert_eq!(number_equal(ab, bb), a == b);
            assert_eq!(number_less(ab, bb), a < b);
            assert_eq!(number_equal(ab, bb), number_equal(bb, ab));
        }
    }
}

#[test]
fn heap_objects_change_through_accessors() {
    let mut heap = Heap::new();
    let a = heap.allocate(ObjectType::Array(vec![Value::Nil, Value::Nil]));
    let f = heap.allocate(ObjectType::Function(FunctionObject::new(Chunk::new(), 0, "f")));
    let c = heap.allocate(ObjectType::Closure(ClosureObject::new(f, 0)));
    match Value::Object(a).as_array_mut(&mut heap) {
        Some(values) => values[1] = Value::Bool(true),
        None => panic!("not an array"),
    }
    assert!(Value::Object(a).as_array(&heap).unwrap()[1] == Value::Bool(true));
    assert!(Value::Object(f).as_array_mut(&mut heap).is_none());
    Value::Object(f).as_function_mut(&mut heap).unwrap().arity = 3;
    assert_eq!(Value::Object(f).as_function(&heap).unwrap().arity, 3);
    let closure_function = match &heap.get(c).obj_type {
        ObjectType::Closure(closure) => closure.function,
        _ => panic!("not a closure"),
    };
    assert_eq!(closure_function, f);
    let closure = ClosureObject::new(f, 0);
    closure.function_mut(&mut heap).unwrap().upvalue_count = 2;
    assert_eq!(closure.function_ref(&heap).unwrap().upvalue_count, 2);
    assert!(Value::Object(c).as_closure_mut(&mut heap).is_some());
    assert!(Value::Nil.as_native_mut(&mut heap).is_none());
    assert!(heap.get_mut(a).as_array_mut().is_some());
    assert!(heap.get_mut(a).as_native_mut().is_none());
}

#[test]
fn runtime_error_resets_the_machine() {
    let mut vm = Vm::new();
    let mut compiler = Compiler::new(Scanner::new("print 1;".to_string()), FunctionType::TypeScript, vec![(6, 1.0f64.to_bits())]);
    let f = compiler.compile(&mut vm).unwrap();
    let x = vm.allocate_string("x");
    vm.set_global(x, Value::Bool(true));
    assert!(vm.interpret(f) == Action::Continue);
    assert_eq!(vm.stack().len(), 1);
    assert!(vm.runtime_error(RuntimeError::NotAnArray) == Action::Error(RuntimeError::NotAnArray));
    assert!(vm.stack().is_empty());
    assert_eq!(vm.trace().len(), 1);
    assert_eq!(vm.trace()[0].ip, 0);
    assert!(vm.get_global(x) == Some(Value::Bool(true)));
    assert!(vm.step() == Action::Fault);
}

#[test]
fn reports_in_panic_mode_change_nothing() {
    let mut parser = Parser::new(Scanner::new("x".to_string()));
    parser.error_at(Token { token_type: TokenType::Identifier, start: 0, length: 1, line: 1 }, "first");
    assert!(parser.panic_mode && parser.had_error);
    assert_eq!(parser.diagnostics.len(), 1);
    parser.error_at(Token { token_type: TokenType::Identifier, start: 500, length: 9, line: 7 }, "second");
    assert_eq!(parser.diagnostics.len(), 1);
    assert_eq!(parser.diagnostics[0].message, "first");
}
