use candy::builtin_functions::BuiltinFunction;
use candy::object::{Closure, Data, Instruction, Object, Pointer, Text};
use candy::vm::{Status, TraceEntry, Value, Vm};
use num_bigint::BigInt;

/// A VM whose heap holds a module closure with the body, started.
fn started(body: Vec<Instruction>) -> Vm {
    let mut vm = Vm::new();
    vm.heap.objects.push(Object {
        reference_count: 1,
        data: Data::Closure(Closure { captured: vec![], num_args: 0, body }),
    });
    vm.start_module_closure(Pointer(0));
    vm
}

fn text_at(vm: &Vm, p: Pointer) -> String {
    match &vm.heap.get(p).data {
        Data::Text(Text { value }) => value.clone(),
        other => panic!("not a text: {other:?}"),
    }
}

#[test]
fn a_new_vm_is_done_with_nothing() {
    let vm = Vm::new();
    assert!(matches!(&vm.status, Status::Done(Value::Symbol(s)) if s == "Nothing"));
    assert!(vm.data_stack.is_empty());
}

#[test]
fn running_a_closure_to_its_end() {
    let mut vm = started(vec![
        Instruction::CreateText("no".to_string()),
        Instruction::CreateSymbol("True".to_string()),
        Instruction::Needs,
        Instruction::CreateInt(BigInt::from(5)),
        Instruction::PopMultipleBelowTop(1),
    ]);
    assert!(matches!(vm.status, Status::Running));
    vm.run(100);
    assert!(matches!(&vm.status, Status::Done(Value::Symbol(s)) if s == "Nothing"));
    let top = *vm.data_stack.last().unwrap();
    assert!(matches!(&vm.heap.get(top).data, Data::Int(i) if i.value == BigInt::from(5)));
    // The `Nothing` that `Needs` pushed lost its reference.
    assert_eq!(vm.heap.objects[3].reference_count, 0);
}

#[test]
fn running_stops_after_the_given_number_of_instructions() {
    let mut vm = started(vec![
        Instruction::CreateInt(BigInt::from(1)),
        Instruction::CreateInt(BigInt::from(2)),
        Instruction::CreateInt(BigInt::from(3)),
    ]);
    vm.run(2);
    assert!(matches!(vm.status, Status::Running));
    assert_eq!(vm.data_stack.len(), 2);
    vm.run(1);
    assert!(matches!(vm.status, Status::Done(_)));
    assert_eq!(vm.data_stack.len(), 3);
}

#[test]
fn needs_with_false_panics_with_the_message() {
    let mut vm = started(vec![
        Instruction::CreateText("oops".to_string()),
        Instruction::CreateSymbol("False".to_string()),
        Instruction::Needs,
        Instruction::CreateInt(BigInt::from(0)),
    ]);
    vm.run(10);
    match &vm.status {
        Status::Panicked(Value::Object(p)) => assert_eq!(text_at(&vm, *p), "oops"),
        other => panic!("expected a panic: {other:?}"),
    }
    let mut vm = started(vec![
        Instruction::CreateText("oops".to_string()),
        Instruction::CreateSymbol("Maybe".to_string()),
        Instruction::Needs,
        Instruction::CreateInt(BigInt::from(0)),
    ]);
    vm.run(10);
    assert!(matches!(&vm.status, Status::Panicked(Value::Text(t)) if t == "Needs expects True or False as a symbol."));
    let mut vm = started(vec![
        Instruction::CreateText("oops".to_string()),
        Instruction::CreateInt(BigInt::from(1)),
        Instruction::Needs,
        Instruction::CreateInt(BigInt::from(0)),
    ]);
    vm.run(10);
    assert!(matches!(&vm.status, Status::Panicked(Value::Text(t)) if t == "Needs expects a boolean symbol."));
}

#[test]
fn calls_check_the_number_of_arguments() {
    let mut vm = started(vec![
        Instruction::CreateClosure { num_args: 1, body: vec![] },
        Instruction::Call { num_args: 0 },
        Instruction::CreateInt(BigInt::from(0)),
    ]);
    vm.run(10);
    assert!(matches!(&vm.status, Status::Panicked(Value::Text(t))
        if t == "Closure expects 1 parameters, but you called it with 0 arguments."));
}

#[test]
fn calling_a_closure_and_returning() {
    let mut vm = started(vec![
        Instruction::CreateInt(BigInt::from(7)),
        Instruction::CreateClosure {
            num_args: 1,
            body: vec![Instruction::PushFromStack(0), Instruction::Return],
        },
        Instruction::PushFromStack(1),
        Instruction::PushFromStack(1),
        Instruction::Call { num_args: 1 },
        Instruction::CreateText("after".to_string()),
    ]);
    vm.run(5);
    // Inside the called closure: it captured the stack and got its argument.
    assert!(matches!(vm.status, Status::Running));
    assert_eq!(vm.call_stack.len(), 2);
    vm.run(2);
    assert_eq!(vm.call_stack.len(), 1);
    // Back in the caller, its position lies past the end of the callee's
    // body, so the run ends there with what the callee left on the stack.
    assert!(matches!(&vm.status, Status::Done(Value::Symbol(s)) if s == "Nothing"));
    let top = *vm.data_stack.last().unwrap();
    assert!(matches!(&vm.heap.get(top).data, Data::Int(i) if i.value == BigInt::from(7)));
}

#[test]
fn a_panic_on_the_last_instruction_ends_as_done() {
    let mut vm = started(vec![
        Instruction::CreateText("oops".to_string()),
        Instruction::CreateSymbol("False".to_string()),
        Instruction::Needs,
    ]);
    vm.run(10);
    assert!(matches!(&vm.status, Status::Done(Value::Symbol(s)) if s == "Nothing"));
}

#[test]
fn calling_a_builtin_hands_the_call_out() {
    let mut vm = started(vec![
        Instruction::CreateText("hi".to_string()),
        Instruction::CreateBuiltin(BuiltinFunction::Print),
        Instruction::Call { num_args: 1 },
        Instruction::CreateInt(BigInt::from(0)),
    ]);
    vm.run(10);
    match &vm.status {
        Status::CallsBuiltin { function, arguments } => {
            assert_eq!(*function, BuiltinFunction::Print);
            assert_eq!(arguments.len(), 1);
            assert_eq!(text_at(&vm, arguments[0]), "hi");
        },
        other => panic!("expected a builtin call: {other:?}"),
    }
}

#[test]
fn structs_traces_and_errors() {
    let mut vm = started(vec![
        Instruction::CreateText("key".to_string()),
        Instruction::CreateInt(BigInt::from(1)),
        Instruction::CreateStruct { num_entries: 1 },
        Instruction::TraceValueEvaluated("main:1".to_string()),
        Instruction::RegisterFuzzableClosure("main:2".to_string()),
        Instruction::Error("broken".to_string()),
        Instruction::CreateInt(BigInt::from(0)),
    ]);
    vm.run(10);
    let top = *vm.data_stack.last().unwrap();
    match &vm.heap.get(top).data {
        Data::Struct(s) => {
            assert_eq!(s.len(), 1);
        },
        other => panic!("expected a struct: {other:?}"),
    }
    assert!(matches!(&vm.tracer[0], TraceEntry::ValueEvaluated { id, value } if id == "main:1" && *value == top));
    assert_eq!(vm.fuzzable_closures, vec![("main:2".to_string(), top)]);
    assert!(matches!(&vm.status, Status::Panicked(Value::Text(t))
        if t == "The VM crashed because there was an error in previous compilation stages: \"broken\""));
}

#[test]
fn a_fresh_vm_creates_a_struct() {
    let mut vm = Vm::new();
    vm.run_instruction(Instruction::CreateSymbol("Foo".to_string()));
    vm.run_instruction(Instruction::CreateInt(BigInt::from(1)));
    vm.run_instruction(Instruction::CreateStruct { num_entries: 1 });
    assert_eq!(vm.data_stack.len(), 1);
    match &vm.heap.get(vm.data_stack[0]).data {
        Data::Struct(s) => {
            assert_eq!(s.len(), 1);
            let (_, key, value) = s.fields[0];
            assert!(matches!(&vm.heap.get(key).data, Data::Symbol(sym) if sym.value == "Foo"));
            assert!(matches!(&vm.heap.get(value).data, Data::Int(i) if i.value == BigInt::from(1)));
        },
        other => panic!("expected a struct: {other:?}"),
    }
}

#[test]
fn a_fresh_vm_pops_below_the_top() {
    let mut vm = Vm::new();
    vm.run_instruction(Instruction::CreateInt(BigInt::from(1)));
    vm.run_instruction(Instruction::CreateInt(BigInt::from(2)));
    vm.run_instruction(Instruction::CreateInt(BigInt::from(3)));
    vm.run_instruction(Instruction::PopMultipleBelowTop(2));
    assert_eq!(vm.data_stack.len(), 1);
    assert!(matches!(&vm.heap.get(vm.data_stack[0]).data, Data::Int(i) if i.value == BigInt::from(3)));
    assert_eq!(vm.heap.objects[0].reference_count, 0);
    assert_eq!(vm.heap.objects[1].reference_count, 0);
    assert_eq!(vm.heap.objects[2].reference_count, 1);
}

#[test]
fn a_vm_for_running_a_module_closure() {
    let closure = Closure {
        captured: vec![],
        num_args: 0,
        body: vec![Instruction::CreateInt(BigInt::from(4)), Instruction::CreateInt(BigInt::from(5))],
    };
    let mut vm = Vm::new_for_running_module_closure(closure);
    assert!(matches!(vm.status, Status::Running));
    assert_eq!(vm.call_stack.len(), 1);
    vm.run(10);
    assert!(matches!(vm.status, Status::Done(_)));
    let top = *vm.data_stack.last().unwrap();
    assert!(matches!(&vm.heap.get(top).data, Data::Int(i) if i.value == BigInt::from(5)));
}

#[test]
fn a_vm_for_running_a_closure_with_arguments() {
    let mut heap = candy::object::Heap { objects: vec![] };
    heap.objects.push(Object { reference_count: 1, data: Data::Text(Text { value: "x".to_string() }) });
    heap.objects.push(Object {
        reference_count: 1,
        data: Data::Closure(Closure { captured: vec![], num_args: 1, body: vec![Instruction::PushFromStack(0)] }),
    });
    let mut vm = Vm::new_for_running_closure(heap, Pointer(1), &vec![Pointer(0)]);
    assert!(matches!(vm.status, Status::Running));
    assert_eq!(vm.data_stack, vec![Pointer(0)]);
    vm.run(1);
    assert!(matches!(vm.status, Status::Done(_)));
    assert_eq!(vm.data_stack, vec![Pointer(0), Pointer(0)]);
    assert_eq!(text_at(&vm, Pointer(0)), "x");
}
