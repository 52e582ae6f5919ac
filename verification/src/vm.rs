//! A VM that executes byte code: a stack machine over the heap of objects.
//!
//! The VM keeps a stack of pointers to objects, the stack of the places to
//! return to, and the place of the next instruction: a closure and the index
//! of an instruction in its body. Objects count their references; creating an
//! object gives it one, and copying a pointer onto the stack adds one.
//!
//! Builtin functions are not part of this VM: calling one stops the VM with
//! the call, for its caller to perform.

use crate::builtin_functions::BuiltinFunction;
use crate::chars::{decimal, decimal_text};
use crate::object::{
    clone_instruction, copy_pointers, data_children, fields_children, heap_wf, instruction_cloned,
    lemma_fields_children_at, lemma_fields_children_len, Builtin, Closure, Data, Heap,
    Instruction, Int, Object, Pointer, Struct, Symbol, Text,
};
use crate::struct_fields::{insert_all, struct_wf};
use vstd::prelude::*;

verus! {

// ----------------------------------------------------------------------------
// The state of a VM.

/// A value that leaves the VM: a text, a symbol, or an object on its heap.
#[derive(Debug)]
pub enum Value {
    Text(String),
    Symbol(String),
    Object(Pointer),
}

impl Value {
    /// The value `Nothing`.
    pub fn nothing() -> (res: Value)
        ensures
            res matches Value::Symbol(s) && s@ == "Nothing"@,
    {
        Value::Symbol(String::from_str("Nothing"))
    }
}

/// Whether the VM runs, and how it ended.
#[derive(Debug)]
pub enum Status {
    Running,
    Done(Value),
    Panicked(Value),
    /// A builtin function was called with the arguments; the VM waits for its
    /// caller to perform the call.
    CallsBuiltin { function: BuiltinFunction, arguments: Vec<Pointer> },
}

/// The place of an instruction: a closure and an index into its body.
#[derive(Clone, Copy, Debug, PartialEq, Eq, Structural)]
pub struct ByteCodePointer {
    /// Pointer to the closure object that is currently running code.
    pub closure: Pointer,
    /// Index of the next instruction to run.
    pub instruction: usize,
}

impl ByteCodePointer {
    pub fn null_pointer() -> (res: Self)
        ensures
            res.closure.0 == 0 && res.instruction == 0,
    {
        Self { closure: Pointer(0), instruction: 0 }
    }
}

/// What the VM records while it runs.
#[derive(Debug)]
pub enum TraceEntry {
    ValueEvaluated { id: String, value: Pointer },
    CallStarted { id: String, closure: Pointer, args: Vec<Pointer> },
    CallEnded { return_value: Pointer },
    NeedsStarted { id: String, condition: Pointer, message: Pointer },
    NeedsEnded,
}

/// A VM can execute some byte code.
#[derive(Debug)]
pub struct Vm {
    pub status: Status,
    next_instruction: ByteCodePointer,
    pub heap: Heap,
    pub data_stack: Vec<Pointer>,
    pub call_stack: Vec<ByteCodePointer>,
    pub tracer: Vec<TraceEntry>,
    pub fuzzable_closures: Vec<(String, Pointer)>,
}

/// The state of a VM as values.
pub struct SpecVm {
    pub status: Status,
    pub next_instruction: ByteCodePointer,
    pub objects: Seq<Object>,
    pub data_stack: Seq<Pointer>,
    pub call_stack: Seq<ByteCodePointer>,
    pub tracer: Seq<TraceEntry>,
    pub fuzzable_closures: Seq<(String, Pointer)>,
}

impl View for Vm {
    type V = SpecVm;

    closed spec fn view(&self) -> SpecVm {
        SpecVm {
            status: self.status,
            next_instruction: self.next_instruction,
            objects: self.heap.objects@,
            data_stack: self.data_stack@,
            call_stack: self.call_stack@,
            tracer: self.tracer@,
            fuzzable_closures: self.fuzzable_closures@,
        }
    }
}

/// Every pointer lies on the heap.
pub open spec fn pointers_on(objects: Seq<Object>, pointers: Seq<Pointer>) -> bool {
    forall|i: int| 0 <= i < pointers.len() ==> (#[trigger] pointers[i]).0 < objects.len()
}

/// The heap is well-formed, and every pointer on the stack and among the
/// fuzzable closures lies on it. (The places of instructions are checked
/// where they are used: to run the next instruction, and to return.)
pub open spec fn vm_wf(v: SpecVm) -> bool {
    &&& heap_wf(v.objects)
    &&& pointers_on(v.objects, v.data_stack)
    &&& forall|i: int|
        0 <= i < v.fuzzable_closures.len() ==> (#[trigger] v.fuzzable_closures[i]).1.0
            < v.objects.len()
}

impl Vm {
    pub open spec fn wf(&self) -> bool {
        vm_wf(self@)
    }
}

// ----------------------------------------------------------------------------
// Reference counting.

/// The objects with one more reference to the object at `p` (a count at the
/// integer limit stays there).
pub open spec fn dup_object(objects: Seq<Object>, p: Pointer) -> Seq<Object> {
    if p.0 < objects.len() {
        let o = objects[p.0 as int];
        objects.update(
            p.0 as int,
            Object {
                reference_count: if o.reference_count < usize::MAX {
                    (o.reference_count + 1) as usize
                } else {
                    o.reference_count
                },
                data: o.data,
            },
        )
    } else {
        objects
    }
}

/// The objects with one reference less to the object at `p` (a count of
/// zero stays there).
pub open spec fn drop_object(objects: Seq<Object>, p: Pointer) -> Seq<Object> {
    if p.0 < objects.len() {
        let o = objects[p.0 as int];
        objects.update(
            p.0 as int,
            Object {
                reference_count: if o.reference_count > 0 {
                    (o.reference_count - 1) as usize
                } else {
                    0
                },
                data: o.data,
            },
        )
    } else {
        objects
    }
}

/// One more reference to each of the objects, in order.
pub open spec fn dup_objects(objects: Seq<Object>, ps: Seq<Pointer>) -> Seq<Object>
    decreases ps.len(),
{
    if ps.len() == 0 {
        objects
    } else {
        dup_object(dup_objects(objects, ps.drop_last()), ps.last())
    }
}

/// One reference less to each of the objects, from the last to the first.
pub open spec fn drop_objects(objects: Seq<Object>, ps: Seq<Pointer>) -> Seq<Object>
    decreases ps.len(),
{
    if ps.len() == 0 {
        objects
    } else {
        drop_object(drop_objects(objects, ps.drop_first()), ps[0])
    }
}

/// Adding references changes only the counts.
proof fn lemma_dups_keep_data(objects: Seq<Object>, ps: Seq<Pointer>)
    ensures
        dup_objects(objects, ps).len() == objects.len(),
        forall|a: int|
            0 <= a < objects.len() ==> (#[trigger] dup_objects(objects, ps)[a]).data
                == objects[a].data,
    decreases ps.len(),
{
    if ps.len() > 0 {
        lemma_dups_keep_data(objects, ps.drop_last());
    }
}

/// Removing references changes only the counts.
proof fn lemma_drops_keep_data(objects: Seq<Object>, ps: Seq<Pointer>)
    ensures
        drop_objects(objects, ps).len() == objects.len(),
        forall|a: int|
            0 <= a < objects.len() ==> (#[trigger] drop_objects(objects, ps)[a]).data
                == objects[a].data,
    decreases ps.len(),
{
    if ps.len() > 0 {
        lemma_drops_keep_data(objects, ps.drop_first());
    }
}

/// A heap whose objects hold the same data is as well-formed.
proof fn lemma_same_data_wf(a: Seq<Object>, b: Seq<Object>)
    requires
        heap_wf(a),
        a.len() == b.len(),
        forall|i: int| 0 <= i < a.len() ==> (#[trigger] b[i]).data == a[i].data,
    ensures
        heap_wf(b),
{
    assert forall|x: int, i: int|
        0 <= x < b.len() && 0 <= i < data_children(b[x].data).len() implies (
        #[trigger] data_children(b[x].data)[i]).0 < x by {
        assert(b[x].data == a[x].data);
    }
}

impl Heap {
    /// Puts an object with one reference on the heap.
    pub fn create(&mut self, data: Data) -> (res: Pointer)
        ensures
            final(self).objects@ == old(self).objects@.push(Object { reference_count: 1, data }),
            res.0 == old(self).objects@.len(),
    {
        let address = self.objects.len();
        self.objects.push(Object { reference_count: 1, data });
        Pointer(address)
    }

    /// Adds a reference to the object.
    pub fn dup(&mut self, p: Pointer)
        requires
            p.0 < old(self).objects@.len(),
        ensures
            final(self).objects@ == dup_object(old(self).objects@, p),
    {
        let object = &mut self.objects[p.0];
        if object.reference_count < usize::MAX {
            object.reference_count = object.reference_count + 1;
        }
    }

    /// Removes a reference to the object.
    pub fn drop(&mut self, p: Pointer)
        requires
            p.0 < old(self).objects@.len(),
        ensures
            final(self).objects@ == drop_object(old(self).objects@, p),
    {
        let object = &mut self.objects[p.0];
        if object.reference_count > 0 {
            object.reference_count = object.reference_count - 1;
        }
    }
}

// ----------------------------------------------------------------------------
// One instruction.

/// What the VM panics with when a closure is called with the wrong number of
/// arguments.
pub open spec fn arity_message_text(expected: usize, given: usize) -> Seq<char> {
    "Closure expects "@ + decimal(expected as nat) + " parameters, but you called it with "@
        + decimal(given as nat) + " arguments."@
}

/// What the VM panics with for an error of an earlier compilation stage
/// (std's formatting of the error's `Debug` into the message).
pub uninterp spec fn crash_message_text(error: Seq<char>) -> Seq<char>;

/// The message for a call with the wrong number of arguments.
fn arity_message(expected: usize, given: usize) -> (res: String)
    ensures
        res@ == arity_message_text(expected, given),
{
    let mut res = String::from_str("Closure expects ");
    res.append(decimal_text(expected).as_str());
    res.append(" parameters, but you called it with ");
    res.append(decimal_text(given).as_str());
    res.append(" arguments.");
    res
}

/// Formats the crash message for an error of an earlier compilation stage
/// with std's `format!` and the error's `Debug`.
#[verifier::external_body]
fn crash_message(error: &String) -> (res: String)
    ensures
        res@ == crash_message_text(error@),
{
    format!("The VM crashed because there was an error in previous compilation stages: {error:?}")
}

/// The pairs of a struct's entries, as the stack holds them from `base` on:
/// key, value, key, value, and so on.
pub open spec fn entry_pairs(stack: Seq<Pointer>, base: int, n: nat) -> Seq<(Pointer, Pointer)> {
    Seq::new(n, |i: int| (stack[base + 2 * i], stack[base + 2 * i + 1]))
}

/// The VM's stack holds what the instruction takes from it, and a called
/// object is a closure or a builtin (the VM stops otherwise).
pub open spec fn stack_has_operands(v: SpecVm, instruction: Instruction) -> bool {
    let n = v.data_stack.len();
    match instruction {
        Instruction::CreateStruct { num_entries } => 2 * num_entries <= n,
        Instruction::PopMultipleBelowTop(k) => k + 1 <= n,
        Instruction::PushFromStack(offset) => offset < n,
        Instruction::Call { num_args } => num_args + 1 <= n && (v.objects[v.data_stack.last().0 as int].data is Closure
            || v.objects[v.data_stack.last().0 as int].data is Builtin),
        Instruction::Needs => 2 <= n,
        Instruction::Return => v.call_stack.len() >= 1 && v.next_instruction.closure.0
            < v.objects.len(),
        Instruction::RegisterFuzzableClosure(_) => 1 <= n,
        Instruction::TraceValueEvaluated(_) => 1 <= n,
        Instruction::TraceCallStarts { num_args, .. } => num_args + 1 <= n,
        Instruction::TraceCallEnds => 1 <= n,
        Instruction::TraceNeedsStarts { .. } => 2 <= n,
        _ => true,
    }
}

/// `n` is `o` with one more object, holding `data`, pushed onto the stack.
pub open spec fn pushes_new(o: SpecVm, data: Data, n: SpecVm) -> bool {
    n == SpecVm {
        objects: o.objects.push(Object { reference_count: 1, data }),
        data_stack: o.data_stack.push(Pointer(o.objects.len() as usize)),
        ..o
    }
}

/// `n` is `o` with the status set to a panic with the text, and the stack
/// set to `stack`.
pub open spec fn panics_with(o: SpecVm, text: Seq<char>, stack: Seq<Pointer>, n: SpecVm) -> bool {
    &&& n.status matches Status::Panicked(Value::Text(t)) && t@ == text
    &&& n == SpecVm { status: n.status, data_stack: stack, ..o }
}

/// `n` is `o` with one more trace entry.
pub open spec fn traces(o: SpecVm, n: SpecVm) -> bool {
    &&& n.tracer.len() == o.tracer.len() + 1
    &&& n.tracer.take(o.tracer.len() as int) == o.tracer
    &&& n == SpecVm { tracer: n.tracer, ..o }
}

/// What running the instruction does to the VM: `n` is the VM after it.
pub open spec fn step(o: SpecVm, instruction: Instruction, n: SpecVm) -> bool {
    let s = o.data_stack;
    let len = s.len() as int;
    let top = s.last();
    let objects_len = o.objects.len();
    match instruction {
        Instruction::CreateInt(value) => pushes_new(o, Data::Int(Int { value }), n),
        Instruction::CreateText(text) => pushes_new(o, Data::Text(Text { value: text }), n),
        Instruction::CreateSymbol(symbol) => pushes_new(o, Data::Symbol(Symbol { value: symbol }), n),
        Instruction::CreateBuiltin(function) => pushes_new(o, Data::Builtin(Builtin { function }), n),
        Instruction::CreateStruct { num_entries } => {
            let base = len - 2 * num_entries;
            &&& n.objects.len() == objects_len + 1
            &&& n.objects.take(objects_len as int) == o.objects
            &&& n.objects[objects_len as int].reference_count == 1
            &&& n.objects[objects_len as int].data matches Data::Struct(st) && st.fields@ == insert_all(
                o.objects,
                Seq::empty(),
                entry_pairs(s, base, num_entries as nat),
            )
            &&& n == SpecVm {
                objects: n.objects,
                data_stack: s.take(base).push(Pointer(objects_len as usize)),
                ..o
            }
        },
        Instruction::CreateClosure { num_args, body } => {
            &&& n.objects.len() == objects_len + 1
            &&& n.objects.take(objects_len as int) == dup_objects(o.objects, s)
            &&& n.objects[objects_len as int].reference_count == 1
            &&& n.objects[objects_len as int].data matches Data::Closure(c) && c.captured@ == s
                && c.num_args == num_args && c.body == body
            &&& n == SpecVm {
                objects: n.objects,
                data_stack: s.push(Pointer(objects_len as usize)),
                ..o
            }
        },
        Instruction::PopMultipleBelowTop(k) => n == SpecVm {
            objects: drop_objects(o.objects, s.subrange(len - 1 - k, len - 1)),
            data_stack: s.take(len - 1 - k).push(top),
            ..o
        },
        Instruction::PushFromStack(offset) => {
            let p = s[len - 1 - offset];
            n == SpecVm { objects: dup_object(o.objects, p), data_stack: s.push(p), ..o }
        },
        Instruction::Call { num_args } => {
            let args = s.subrange(len - 1 - num_args, len - 1);
            let rest = s.take(len - 1 - num_args);
            match o.objects[top.0 as int].data {
                Data::Closure(c) => if num_args != c.num_args {
                    panics_with(o, arity_message_text(c.num_args, num_args), rest, n)
                } else {
                    n == SpecVm {
                        next_instruction: ByteCodePointer { closure: top, instruction: 0 },
                        objects: dup_objects(o.objects, c.captured@),
                        data_stack: rest + c.captured@ + args,
                        call_stack: o.call_stack.push(o.next_instruction),
                        ..o
                    }
                },
                Data::Builtin(b) => {
                    &&& n.status matches Status::CallsBuiltin { function, arguments } && function
                        == b.function && arguments@ == args
                    &&& n == SpecVm { status: n.status, data_stack: rest, ..o }
                },
                _ => false,
            }
        },
        Instruction::Needs => {
            let condition = top;
            let message = s[len - 2];
            let rest = s.take(len - 2);
            match o.objects[condition.0 as int].data {
                Data::Symbol(symbol) => if symbol.value@ == "True"@ {
                    &&& n.objects.len() == objects_len + 1
                    &&& n.objects.take(objects_len as int) == o.objects
                    &&& n.objects[objects_len as int].reference_count == 1
                    &&& n.objects[objects_len as int].data matches Data::Symbol(nothing)
                        && nothing.value@ == "Nothing"@
                    &&& n == SpecVm {
                        objects: n.objects,
                        data_stack: rest.push(Pointer(objects_len as usize)),
                        ..o
                    }
                } else if symbol.value@ == "False"@ {
                    n == SpecVm {
                        status: Status::Panicked(Value::Object(message)),
                        data_stack: rest,
                        ..o
                    }
                } else {
                    panics_with(o, "Needs expects True or False as a symbol."@, rest, n)
                },
                _ => panics_with(o, "Needs expects a boolean symbol."@, rest, n),
            }
        },
        Instruction::Return => n == SpecVm {
            objects: drop_object(o.objects, o.next_instruction.closure),
            next_instruction: o.call_stack.last(),
            call_stack: o.call_stack.drop_last(),
            ..o
        },
        Instruction::RegisterFuzzableClosure(id) => n == SpecVm {
            fuzzable_closures: o.fuzzable_closures.push((id, top)),
            ..o
        },
        Instruction::TraceValueEvaluated(id) => n == SpecVm {
            tracer: o.tracer.push(TraceEntry::ValueEvaluated { id, value: top }),
            ..o
        },
        Instruction::TraceCallStarts { id, num_args } => {
            &&& traces(o, n)
            &&& n.tracer.last() matches TraceEntry::CallStarted { id: i, closure, args } && i == id
                && closure == top && args@ == s.subrange(len - 1 - num_args, len - 1)
        },
        Instruction::TraceCallEnds => n == SpecVm {
            tracer: o.tracer.push(TraceEntry::CallEnded { return_value: top }),
            ..o
        },
        Instruction::TraceNeedsStarts { id } => n == SpecVm {
            tracer: o.tracer.push(
                TraceEntry::NeedsStarted { id, condition: top, message: s[len - 2] },
            ),
            ..o
        },
        Instruction::TraceNeedsEnds => n == SpecVm {
            tracer: o.tracer.push(TraceEntry::NeedsEnded),
            ..o
        },
        Instruction::Error(error) => panics_with(o, crash_message_text(error@), s, n),
    }
}

// ----------------------------------------------------------------------------
// Running an instruction.

/// Putting an object whose children lie on the heap keeps it well-formed.
proof fn lemma_push_wf(objects: Seq<Object>, data: Data)
    requires
        heap_wf(objects),
        forall|i: int|
            0 <= i < data_children(data).len() ==> (#[trigger] data_children(data)[i]).0
                < objects.len(),
    ensures
        heap_wf(objects.push(Object { reference_count: 1, data })),
{
    let r = objects.push(Object { reference_count: 1, data });
    assert forall|x: int, i: int|
        0 <= x < r.len() && 0 <= i < data_children(r[x].data).len() implies (
        #[trigger] data_children(r[x].data)[i]).0 < x by {
        if x < objects.len() {
            assert(r[x] == objects[x]);
        }
    }
}

/// The keys and values of fields that lie below a bound lie below it as
/// children too.
proof fn lemma_fields_children_below(fields: Seq<(u64, Pointer, Pointer)>, bound: int)
    requires
        forall|j: int|
            0 <= j < fields.len() ==> (#[trigger] fields[j]).1.0 < bound && fields[j].2.0 < bound,
    ensures
        forall|i: int|
            0 <= i < fields_children(fields).len() ==> (#[trigger] fields_children(fields)[i]).0
                < bound,
{
    lemma_fields_children_len(fields);
    assert forall|i: int| 0 <= i < fields_children(fields).len() implies (
    #[trigger] fields_children(fields)[i]).0 < bound by {
        let j = i / 2;
        lemma_fields_children_at(fields, j);
        assert(fields[j].1.0 < bound && fields[j].2.0 < bound);
    }
}

/// What a called object is, taken from the heap.
enum Callee {
    Closure { num_args: usize, captured: Vec<Pointer> },
    Builtin(BuiltinFunction),
}

/// How a `Needs` condition reads.
enum Condition {
    True,
    False,
    OtherSymbol,
    NotASymbol,
}

impl Vm {
    /// The VM in its starting state: done, with nothing.
    pub fn new() -> (res: Self)
        ensures
            res@.status matches Status::Done(Value::Symbol(s)) && s@ == "Nothing"@,
            res@.objects.len() == 0,
            res@.data_stack.len() == 0,
            res@.call_stack.len() == 0,
            res@.tracer.len() == 0,
            res@.fuzzable_closures.len() == 0,
    {
        Self {
            status: Status::Done(Value::nothing()),
            next_instruction: ByteCodePointer::null_pointer(),
            heap: Heap { objects: Vec::new() },
            data_stack: Vec::new(),
            call_stack: Vec::new(),
            tracer: Vec::new(),
            fuzzable_closures: Vec::new(),
        }
    }

    /// The entry `offset` entries below the top of the stack.
    fn get_from_data_stack(&self, offset: usize) -> (res: Pointer)
        requires
            offset < self.data_stack@.len(),
        ensures
            res == self.data_stack@[self.data_stack@.len() - 1 - offset],
    {
        self.data_stack[self.data_stack.len() - 1 - offset]
    }

    /// Adds a reference to each of the objects, in order.
    fn dup_all(&mut self, pointers: &Vec<Pointer>)
        requires
            pointers_on(old(self).heap.objects@, pointers@),
        ensures
            final(self).heap.objects@ == dup_objects(old(self).heap.objects@, pointers@),
            final(self).status == old(self).status,
            final(self).next_instruction == old(self).next_instruction,
            final(self).data_stack == old(self).data_stack,
            final(self).call_stack == old(self).call_stack,
            final(self).tracer == old(self).tracer,
            final(self).fuzzable_closures == old(self).fuzzable_closures,
    {
        let ghost start = self.heap.objects@;
        let mut i: usize = 0;
        while i < pointers.len()
            invariant
                i <= pointers@.len(),
                pointers_on(start, pointers@),
                self.heap.objects@ == dup_objects(start, pointers@.take(i as int)),
                self.status == old(self).status,
                self.next_instruction == old(self).next_instruction,
                self.data_stack == old(self).data_stack,
                self.call_stack == old(self).call_stack,
                self.tracer == old(self).tracer,
                self.fuzzable_closures == old(self).fuzzable_closures,
            decreases pointers@.len() - i,
        {
            proof {
                lemma_dups_keep_data(start, pointers@.take(i as int));
                assert(pointers@.take(i + 1).drop_last() =~= pointers@.take(i as int));
                assert(pointers@[i as int].0 < start.len());
            }
            self.heap.dup(pointers[i]);
            i = i + 1;
        }
        proof {
            assert(pointers@.take(pointers@.len() as int) =~= pointers@);
        }
    }

    /// Puts an object on the heap and its pointer onto the stack.
    fn push_new(&mut self, data: Data)
        requires
            old(self).wf(),
            forall|i: int|
                0 <= i < data_children(data).len() ==> (#[trigger] data_children(data)[i]).0
                    < old(self)@.objects.len(),
        ensures
            pushes_new(old(self)@, data, final(self)@),
            final(self).wf(),
    {
        proof {
            lemma_push_wf(self@.objects, data);
        }
        let ghost o = self@;
        let address = self.heap.create(data);
        self.data_stack.push(address);
        proof {
            let n = self@;
            assert forall|i: int| 0 <= i < n.data_stack.len() implies (
            #[trigger] n.data_stack[i]).0 < n.objects.len() by {
                if i < o.data_stack.len() {
                    assert(n.data_stack[i] == o.data_stack[i]);
                }
            }
        }
    }

    fn create_struct(&mut self, num_entries: usize)
        requires
            old(self).wf(),
            stack_has_operands(old(self)@, Instruction::CreateStruct { num_entries }),
        ensures
            step(old(self)@, Instruction::CreateStruct { num_entries }, final(self)@),
            final(self).wf(),
    {
        let ghost o = self@;
        let ghost s = self.data_stack@;
        let ghost objects_len = self.heap.objects@.len();
        let base = self.data_stack.len() - 2 * num_entries;
        let ghost pairs = entry_pairs(s, base as int, num_entries as nat);
        let mut entries = Struct::default();
        let mut i: usize = 0;
        proof {
            assert(struct_wf(o.objects, entries.fields@));
            assert(pairs.take(0) =~= Seq::<(Pointer, Pointer)>::empty());
        }
        while i < num_entries
            invariant
                i <= num_entries,
                base + 2 * num_entries == s.len(),
                s.len() == self.data_stack.len(),
                pairs == entry_pairs(s, base as int, num_entries as nat),
                self@ == o,
                self.data_stack@ == s,
                self.heap.objects@ == o.objects,
                vm_wf(o),
                s == o.data_stack,
                struct_wf(o.objects, entries.fields@),
                entries.fields@ == insert_all(o.objects, Seq::empty(), pairs.take(i as int)),
            decreases num_entries - i,
        {
            proof {
                assert(2 * i + 2 <= 2 * num_entries) by (nonlinear_arith)
                    requires
                        i < num_entries,
                ;
                assert(base + 2 * i + 1 < s.len());
            }
            let key = self.data_stack[base + 2 * i];
            let value = self.data_stack[base + 2 * i + 1];
            proof {
                assert(pairs.take(i + 1).drop_last() =~= pairs.take(i as int));
                assert(pairs.take(i + 1).last() == (key, value));
            }
            entries.insert(&self.heap, key, value);
            i = i + 1;
        }
        proof {
            assert(pairs.take(num_entries as int) =~= pairs);
            lemma_fields_children_below(entries.fields@, objects_len as int);
            lemma_push_wf(o.objects, Data::Struct(entries));
        }
        self.data_stack.truncate(base);
        let address = self.heap.create(Data::Struct(entries));
        self.data_stack.push(address);
        proof {
            assert(self.heap.objects@.take(objects_len as int) =~= o.objects);
        }
    }

    fn create_closure(&mut self, num_args: usize, body: Vec<Instruction>)
        requires
            old(self).wf(),
        ensures
            step(old(self)@, Instruction::CreateClosure { num_args, body }, final(self)@),
            final(self).wf(),
    {
        let ghost o = self@;
        let ghost s = self.data_stack@;
        let ghost objects_len = self.heap.objects@.len();
        let captured = copy_pointers(&self.data_stack);
        self.dup_all(&captured);
        let ghost duped = self.heap.objects@;
        proof {
            lemma_dups_keep_data(o.objects, s);
            lemma_same_data_wf(o.objects, duped);
            lemma_push_wf(duped, Data::Closure(Closure { captured, num_args, body }));
        }
        let address = self.heap.create(Data::Closure(Closure { captured, num_args, body }));
        self.data_stack.push(address);
        proof {
            assert(self.heap.objects@.take(objects_len as int) =~= duped);
            let n = self@;
            assert forall|i: int| 0 <= i < n.data_stack.len() implies (
            #[trigger] n.data_stack[i]).0 < n.objects.len() by {
                if i < s.len() {
                    assert(n.data_stack[i] == s[i]);
                }
            }
        }
    }

    fn pop_multiple_below_top(&mut self, n: usize)
        requires
            old(self).wf(),
            stack_has_operands(old(self)@, Instruction::PopMultipleBelowTop(n)),
        ensures
            step(old(self)@, Instruction::PopMultipleBelowTop(n), final(self)@),
            final(self).wf(),
    {
        let ghost o = self@;
        let ghost s = self.data_stack@;
        let top = self.data_stack.pop().unwrap();
        let ghost below = s.drop_last();
        let mut i: usize = 0;
        proof {
            assert(below.subrange(below.len() - 0, below.len() as int) =~= Seq::<Pointer>::empty());
            assert(self.data_stack@ =~= below.take(below.len() - 0));
        }
        while i < n
            invariant
                i <= n,
                n + 1 <= s.len(),
                below == s.drop_last(),
                self.data_stack@ == below.take(below.len() - i),
                self.heap.objects@ == drop_objects(
                    o.objects,
                    below.subrange(below.len() - i, below.len() as int),
                ),
                o.objects.len() == self.heap.objects@.len(),
                pointers_on(o.objects, s),
                self.status == o.status,
                self.next_instruction == o.next_instruction,
                self.call_stack@ == o.call_stack,
                self.tracer@ == o.tracer,
                self.fuzzable_closures@ == o.fuzzable_closures,
            decreases n - i,
        {
            let ghost seg = below.subrange(below.len() - i, below.len() as int);
            let address = self.data_stack.pop().unwrap();
            proof {
                lemma_drops_keep_data(o.objects, seg);
                let seg2 = below.subrange(below.len() - i - 1, below.len() as int);
                assert(seg2.drop_first() =~= seg);
                assert(seg2[0] == address);
                assert(address == s[below.len() - i - 1]);
                assert(self.data_stack@ =~= below.take(below.len() - i - 1));
            }
            self.heap.drop(address);
            i = i + 1;
            proof {
                let seg2 = below.subrange(below.len() - i, below.len() as int);
                lemma_drops_keep_data(o.objects, seg2);
            }
        }
        self.data_stack.push(top);
        proof {
            lemma_drops_keep_data(o.objects, below.subrange(below.len() - n, below.len() as int));
            lemma_same_data_wf(o.objects, self.heap.objects@);
            assert(below.subrange(below.len() - n, below.len() as int) =~= s.subrange(
                s.len() - 1 - n,
                s.len() - 1,
            ));
            assert(self.data_stack@ =~= s.take(s.len() - 1 - n).push(top));
        }
    }

    fn push_from_stack(&mut self, offset: usize)
        requires
            old(self).wf(),
            stack_has_operands(old(self)@, Instruction::PushFromStack(offset)),
        ensures
            step(old(self)@, Instruction::PushFromStack(offset), final(self)@),
            final(self).wf(),
    {
        let ghost o = self@;
        let address = self.get_from_data_stack(offset);
        self.heap.dup(address);
        self.data_stack.push(address);
        proof {
            lemma_dups_keep_data(o.objects, seq![address]);
            assert(seq![address].drop_last() =~= Seq::<Pointer>::empty());
            lemma_same_data_wf(o.objects, self.heap.objects@);
        }
    }

    fn call(&mut self, num_args: usize)
        requires
            old(self).wf(),
            stack_has_operands(old(self)@, Instruction::Call { num_args }),
        ensures
            step(old(self)@, Instruction::Call { num_args }, final(self)@),
            final(self).wf(),
    {
        let ghost o = self@;
        let ghost s = self.data_stack@;
        let len = self.data_stack.len();
        let mut args = self.data_stack.split_off(len - 1 - num_args);
        let ghost tail = args@;
        let closure_address = args.pop().unwrap();
        proof {
            assert(closure_address == s.last());
            assert(args@ =~= s.subrange(len - 1 - num_args, len - 1));
            assert(self.data_stack@ =~= s.take(len - 1 - num_args));
        }
        let callee = match &self.heap.get(closure_address).data {
            Data::Closure(c) => Callee::Closure {
                num_args: c.num_args,
                captured: copy_pointers(&c.captured),
            },
            Data::Builtin(b) => Callee::Builtin(b.function),
            _ => {
                proof {
                    assert(false);
                }
                Callee::Builtin(BuiltinFunction::Print)
            },
        };
        match callee {
            Callee::Closure { num_args: expected_num_args, captured } => {
                if num_args != expected_num_args {
                    let message = arity_message(expected_num_args, num_args);
                    self.status = Status::Panicked(Value::Text(message));
                    return;
                }
                let ghost captured_view = captured@;
                proof {
                    assert(data_children(o.objects[closure_address.0 as int].data) == captured@);
                    assert forall|i: int| 0 <= i < captured@.len() implies (
                    #[trigger] captured@[i]).0 < o.objects.len() by {
                        assert(data_children(o.objects[closure_address.0 as int].data)[i].0
                            < closure_address.0);
                    }
                }
                self.call_stack.push(self.next_instruction);
                self.dup_all(&captured);
                let mut captured = captured;
                self.data_stack.append(&mut captured);
                self.data_stack.append(&mut args);
                self.next_instruction = ByteCodePointer { closure: closure_address, instruction: 0 };
                proof {
                    lemma_dups_keep_data(o.objects, captured_view);
                    lemma_same_data_wf(o.objects, self.heap.objects@);
                    assert(self.call_stack@ =~= o.call_stack.push(o.next_instruction));
                }
            },
            Callee::Builtin(function) => {
                self.status = Status::CallsBuiltin { function, arguments: args };
            },
        }
    }

    fn needs(&mut self)
        requires
            old(self).wf(),
            stack_has_operands(old(self)@, Instruction::Needs),
        ensures
            step(old(self)@, Instruction::Needs, final(self)@),
            final(self).wf(),
    {
        let ghost o = self@;
        let ghost s = self.data_stack@;
        let ghost objects_len = self.heap.objects@.len();
        let condition = self.data_stack.pop().unwrap();
        let message = self.data_stack.pop().unwrap();
        proof {
            assert(condition == s.last());
            assert(message == s[s.len() - 2]);
            assert(self.data_stack@ =~= s.take(s.len() - 2));
        }
        let reading = match &self.heap.get(condition).data {
            Data::Symbol(symbol) => {
                let t = String::from_str("True");
                let f = String::from_str("False");
                if symbol.value == t {
                    Condition::True
                } else if symbol.value == f {
                    Condition::False
                } else {
                    Condition::OtherSymbol
                }
            },
            _ => Condition::NotASymbol,
        };
        match reading {
            Condition::True => {
                let nothing = Data::Symbol(Symbol { value: String::from_str("Nothing") });
                proof {
                    lemma_push_wf(o.objects, nothing);
                }
                let address = self.heap.create(nothing);
                self.data_stack.push(address);
                proof {
                    assert(self.heap.objects@.take(objects_len as int) =~= o.objects);
                }
            },
            Condition::False => {
                self.status = Status::Panicked(Value::Object(message));
            },
            Condition::OtherSymbol => {
                self.status = Status::Panicked(
                    Value::Text(String::from_str("Needs expects True or False as a symbol.")),
                );
            },
            Condition::NotASymbol => {
                self.status = Status::Panicked(
                    Value::Text(String::from_str("Needs expects a boolean symbol.")),
                );
            },
        }
    }

    fn return_to_caller(&mut self)
        requires
            old(self).wf(),
            stack_has_operands(old(self)@, Instruction::Return),
        ensures
            step(old(self)@, Instruction::Return, final(self)@),
            final(self).wf(),
    {
        let ghost o = self@;
        self.heap.drop(self.next_instruction.closure);
        let caller = self.call_stack.pop().unwrap();
        self.next_instruction = caller;
        proof {
            lemma_drops_keep_data(o.objects, seq![o.next_instruction.closure]);
            assert(seq![o.next_instruction.closure].drop_first() =~= Seq::<Pointer>::empty());
            lemma_same_data_wf(o.objects, self.heap.objects@);
        }
    }

    fn trace_call_starts(&mut self, id: String, num_args: usize)
        requires
            old(self).wf(),
            stack_has_operands(old(self)@, Instruction::TraceCallStarts { id, num_args }),
        ensures
            step(old(self)@, Instruction::TraceCallStarts { id, num_args }, final(self)@),
            final(self).wf(),
    {
        let ghost o = self@;
        let ghost s = self.data_stack@;
        let closure = self.get_from_data_stack(0);
        let len = self.data_stack.len();
        let mut args: Vec<Pointer> = Vec::new();
        let mut j: usize = len - 1 - num_args;
        proof {
            assert(args@ =~= s.subrange(len - 1 - num_args, j as int));
        }
        while j < len - 1
            invariant
                len == s.len(),
                num_args + 1 <= len,
                len - 1 - num_args <= j <= len - 1,
                self@ == o,
                self.data_stack@ == s,
                args@ == s.subrange(len - 1 - num_args, j as int),
            decreases len - 1 - j,
        {
            args.push(self.data_stack[j]);
            j = j + 1;
            proof {
                assert(args@ =~= s.subrange(len - 1 - num_args, j as int));
            }
        }
        self.tracer.push(TraceEntry::CallStarted { id, closure, args });
        proof {
            assert(self@.tracer.take(o.tracer.len() as int) =~= o.tracer);
        }
    }

    /// Runs one instruction.
    pub fn run_instruction(&mut self, instruction: Instruction)
        requires
            old(self).wf(),
            stack_has_operands(old(self)@, instruction),
        ensures
            step(old(self)@, instruction, final(self)@),
            final(self).wf(),
    {
        match instruction {
            Instruction::CreateInt(value) => self.push_new(Data::Int(Int { value })),
            Instruction::CreateText(text) => self.push_new(Data::Text(Text { value: text })),
            Instruction::CreateSymbol(symbol) => self.push_new(
                Data::Symbol(Symbol { value: symbol }),
            ),
            Instruction::CreateBuiltin(function) => self.push_new(
                Data::Builtin(Builtin { function }),
            ),
            Instruction::CreateStruct { num_entries } => self.create_struct(num_entries),
            Instruction::CreateClosure { num_args, body } => self.create_closure(num_args, body),
            Instruction::PopMultipleBelowTop(n) => self.pop_multiple_below_top(n),
            Instruction::PushFromStack(offset) => self.push_from_stack(offset),
            Instruction::Call { num_args } => self.call(num_args),
            Instruction::Needs => self.needs(),
            Instruction::Return => self.return_to_caller(),
            Instruction::RegisterFuzzableClosure(id) => {
                let closure = self.get_from_data_stack(0);
                self.fuzzable_closures.push((id, closure));
            },
            Instruction::TraceValueEvaluated(id) => {
                let value = self.get_from_data_stack(0);
                self.tracer.push(TraceEntry::ValueEvaluated { id, value });
            },
            Instruction::TraceCallStarts { id, num_args } => self.trace_call_starts(id, num_args),
            Instruction::TraceCallEnds => {
                let return_value = self.get_from_data_stack(0);
                self.tracer.push(TraceEntry::CallEnded { return_value });
            },
            Instruction::TraceNeedsStarts { id } => {
                let condition = self.get_from_data_stack(0);
                let message = self.get_from_data_stack(1);
                self.tracer.push(TraceEntry::NeedsStarted { id, condition, message });
            },
            Instruction::TraceNeedsEnds => {
                self.tracer.push(TraceEntry::NeedsEnded);
            },
            Instruction::Error(error) => {
                let message = crash_message(&error);
                self.panic(message);
            },
        }
    }

    /// Stops the VM with a panic with the message; returns the symbol `Never`.
    pub fn panic(&mut self, message: String) -> (res: Value)
        ensures
            final(self)@.status matches Status::Panicked(Value::Text(t)) && t@ == message@,
            final(self)@ == (SpecVm { status: final(self)@.status, ..old(self)@ }),
            res matches Value::Symbol(s) && s@ == "Never"@,
    {
        self.status = Status::Panicked(Value::Text(message));
        Value::Symbol(String::from_str("Never"))
    }
}

// ----------------------------------------------------------------------------
// Running.

/// The VM with its instruction pointer moved to the next instruction.
pub open spec fn advanced(v: SpecVm) -> SpecVm {
    SpecVm {
        next_instruction: ByteCodePointer {
            closure: v.next_instruction.closure,
            instruction: (v.next_instruction.instruction + 1) as usize,
        },
        ..v
    }
}

/// The body of the closure that the VM runs.
pub open spec fn current_body(v: SpecVm) -> Seq<Instruction> {
    match v.objects[v.next_instruction.closure.0 as int].data {
        Data::Closure(c) => c.body@,
        _ => Seq::empty(),
    }
}

/// The VM can run its next instruction: it points into the body of a
/// closure, and the stack holds what that instruction takes.
pub open spec fn runnable(v: SpecVm) -> bool {
    &&& v.next_instruction.closure.0 < v.objects.len()
    &&& v.objects[v.next_instruction.closure.0 as int].data is Closure
    &&& v.next_instruction.instruction < current_body(v).len()
    &&& stack_has_operands(
        advanced(v),
        current_body(v)[v.next_instruction.instruction as int],
    )
}

/// One step of running: the VM moves past its next instruction and runs a
/// clone of it; if that leaves it past the end of the closure's body, it is
/// done with `Nothing`.
pub open spec fn run_step(v: SpecVm, n: SpecVm) -> bool {
    let body = current_body(v);
    exists|e: Instruction, p: SpecVm|
        #![trigger step(advanced(v), e, p)]
        instruction_cloned(body[v.next_instruction.instruction as int], e) && step(
            advanced(v),
            e,
            p,
        ) && if p.next_instruction.instruction >= body.len() {
            &&& n.status matches Status::Done(Value::Symbol(t)) && t@ == "Nothing"@
            &&& n == SpecVm { status: n.status, ..p }
        } else {
            n == p
        }
}

/// One round of running: a step while the VM runs, nothing once it stopped.
pub open spec fn round(m: SpecVm, n: SpecVm) -> bool {
    if m.status is Running {
        run_step(m, n)
    } else {
        n == m
    }
}

/// The states of the VM, round by round, starting at `o`.
pub open spec fn rounds(o: SpecVm, t: Seq<SpecVm>) -> bool {
    &&& t.len() >= 1
    &&& t[0] == o
    &&& forall|i: int| 0 <= i < t.len() - 1 ==> #[trigger] round(t[i], t[i + 1])
}

/// Whether the VM is running.
fn is_running(status: &Status) -> (res: bool)
    ensures
        res == (*status is Running),
{
    match status {
        Status::Running => true,
        _ => false,
    }
}

impl Vm {
    /// Runs at most `num_instructions` instructions, fewer if the VM stops
    /// running before: the VM after it is the last of `num_instructions`
    /// rounds.
    pub fn run(&mut self, num_instructions: u16)
        requires
            old(self).wf(),
            old(self)@.status is Running,
            forall|t: Seq<SpecVm>|
                #[trigger] rounds(old(self)@, t) && t.len() <= num_instructions && t.last().status
                    is Running ==> runnable(t.last()),
        ensures
            exists|t: Seq<SpecVm>|
                #[trigger] rounds(old(self)@, t) && t.len() == num_instructions + 1 && t.last()
                    == final(self)@,
            final(self).wf(),
    {
        let ghost o = self@;
        let mut remaining = num_instructions;
        let ghost mut t: Seq<SpecVm> = seq![o];
        loop
            invariant_except_break
                self.wf(),
                t.len() + remaining == num_instructions + 1,
                rounds(o, t),
                t.last() == self@,
                forall|u: Seq<SpecVm>|
                    #[trigger] rounds(o, u) && u.len() <= num_instructions && u.last().status
                        is Running ==> runnable(u.last()),
            ensures
                rounds(o, t),
                t.len() == num_instructions + 1,
                t.last() == self@,
                self.wf(),
            decreases remaining,
        {
            if !is_running(&self.status) || remaining == 0 {
                proof {
                    let v = self@;
                    let t2 = t + Seq::new(remaining as nat, |i: int| v);
                    assert forall|i: int| 0 <= i < t2.len() - 1 implies #[trigger] round(
                        t2[i],
                        t2[i + 1],
                    ) by {
                        if i < t.len() - 1 {
                            assert(t2[i] == t[i] && t2[i + 1] == t[i + 1]);
                        } else {
                            assert(t2[i] == v && t2[i + 1] == v);
                        }
                    }
                    if remaining == 0 {
                        assert(t2 =~= t);
                    }
                    t = t2;
                }
                break;
            }
            remaining = remaining - 1;
            let ghost before = self@;
            proof {
                assert(rounds(o, t));
                assert(runnable(before));
            }
            let (body_len, instruction) = match &self.heap.get(self.next_instruction.closure).data {
                Data::Closure(c) => (
                    c.body.len(),
                    clone_instruction(&c.body[self.next_instruction.instruction]),
                ),
                _ => {
                    proof {
                        assert(false);
                    }
                    (0, Instruction::Needs)
                },
            };
            self.next_instruction.instruction = self.next_instruction.instruction + 1;
            let ghost body = current_body(before);
            let ghost cloned = instruction;
            proof {
                assert(self@ == advanced(before));
                assert(body_len == body.len());
                assert(stack_has_operands(self@, instruction));
            }
            self.run_instruction(instruction);
            let ghost p = self@;
            if self.next_instruction.instruction >= body_len {
                self.status = Status::Done(Value::nothing());
            }
            proof {
                assert(step(advanced(before), cloned, p));
                assert(run_step(before, self@));
                assert(round(before, self@));
                let t2 = t.push(self@);
                assert forall|i: int| 0 <= i < t2.len() - 1 implies #[trigger] round(
                    t2[i],
                    t2[i + 1],
                ) by {
                    if i < t.len() - 1 {
                        assert(t2[i] == t[i] && t2[i + 1] == t[i + 1]);
                    } else {
                        assert(t2[i] == before && t2[i + 1] == self@);
                    }
                }
                t = t2;
            }
        }
    }
}


impl Vm {
    /// Sets this VM up in a way that the closure on its heap will run with
    /// the arguments: they and the closure go onto the stack, the closure is
    /// called, and the VM runs.
    pub fn start_closure(&mut self, closure: Pointer, arguments: Vec<Pointer>)
        requires
            old(self).wf(),
            closure.0 < old(self)@.objects.len(),
            pointers_on(old(self)@.objects, arguments@),
            old(self)@.objects[closure.0 as int].data matches Data::Closure(c) && c.num_args
                == arguments@.len(),
        ensures
            ({
                let started = SpecVm {
                    data_stack: old(self)@.data_stack + arguments@ + seq![closure],
                    next_instruction: ByteCodePointer { closure, instruction: 0 },
                    ..old(self)@
                };
                exists|p: SpecVm|
                    step(started, Instruction::Call { num_args: arguments@.len() as usize }, p)
                        && final(self)@ == (SpecVm { status: Status::Running, ..p })
            }),
            final(self).wf(),
    {
        let ghost o = self@;
        let ghost args = arguments@;
        let num_args = arguments.len();
        let mut arguments = arguments;
        self.data_stack.append(&mut arguments);
        self.data_stack.push(closure);
        self.next_instruction = ByteCodePointer { closure, instruction: 0 };
        proof {
            assert(self.data_stack@ =~= o.data_stack + args + seq![closure]);
            assert forall|i: int| 0 <= i < self.data_stack@.len() implies (
            #[trigger] self.data_stack@[i]).0 < self@.objects.len() by {
                if i < o.data_stack.len() {
                    assert(self.data_stack@[i] == o.data_stack[i]);
                } else if i < o.data_stack.len() + args.len() {
                    assert(self.data_stack@[i] == args[i - o.data_stack.len()]);
                } else {
                    assert(self.data_stack@[i] == closure);
                }
            }
        }
        let ghost started = self@;
        proof {
            assert(pointers_on(started.objects, started.data_stack));
            assert(heap_wf(started.objects));
            assert(started.call_stack == o.call_stack);
            assert(started.fuzzable_closures == o.fuzzable_closures);
            assert(started.next_instruction.closure.0 < started.objects.len());
            assert(vm_wf(started));
        }
        self.run_instruction(Instruction::Call { num_args });
        let ghost p = self@;
        self.status = Status::Running;
        proof {
            assert(self@ == (SpecVm { status: Status::Running, ..p }));
        }
    }

    /// Sets this VM up in a way that the closure of a module (which captures
    /// nothing) will run.
    pub fn start_module_closure(&mut self, closure: Pointer)
        requires
            old(self).wf(),
            closure.0 < old(self)@.objects.len(),
            old(self)@.objects[closure.0 as int].data matches Data::Closure(c) && c.num_args == 0
                && c.captured@.len() == 0,
        ensures
            ({
                let started = SpecVm {
                    data_stack: old(self)@.data_stack + seq![closure],
                    next_instruction: ByteCodePointer { closure, instruction: 0 },
                    ..old(self)@
                };
                exists|p: SpecVm|
                    step(started, Instruction::Call { num_args: 0 }, p) && final(self)@ == (
                    SpecVm { status: Status::Running, ..p })
            }),
            final(self).wf(),
    {
        let ghost o = self@;
        let arguments: Vec<Pointer> = Vec::new();
        proof {
            assert(o.data_stack + arguments@ =~= o.data_stack);
        }
        self.start_closure(closure, arguments);
    }
}

impl Vm {
    /// A VM on the heap that runs the closure with the arguments.
    pub fn new_for_running_closure(heap: Heap, closure: Pointer, arguments: &Vec<Pointer>) -> (res: Self)
        requires
            heap_wf(heap.objects@),
            closure.0 < heap.objects@.len(),
            pointers_on(heap.objects@, arguments@),
            heap.objects@[closure.0 as int].data matches Data::Closure(c) && c.num_args
                == arguments@.len(),
        ensures
            exists|d: Status, p: SpecVm|
                step(
                    SpecVm {
                        status: d,
                        objects: heap.objects@,
                        data_stack: arguments@ + seq![closure],
                        next_instruction: ByteCodePointer { closure, instruction: 0 },
                        call_stack: Seq::empty(),
                        tracer: Seq::empty(),
                        fuzzable_closures: Seq::empty(),
                    },
                    Instruction::Call { num_args: arguments@.len() as usize },
                    p,
                ) && res@ == (SpecVm { status: Status::Running, ..p }),
            res.wf(),
    {
        let mut vm = Vm::new();
        vm.heap = heap;
        let mut args: Vec<Pointer> = Vec::new();
        let mut i: usize = 0;
        while i < arguments.len()
            invariant
                i <= arguments@.len(),
                args@ == arguments@.take(i as int),
            decreases arguments@.len() - i,
        {
            args.push(arguments[i]);
            i = i + 1;
            proof {
                assert(args@ =~= arguments@.take(i as int));
            }
        }
        proof {
            assert(args@ =~= arguments@);
            assert(vm@.data_stack + args@ =~= arguments@);
        }
        let ghost before = vm@;
        vm.start_closure(closure, args);
        proof {
            let started = SpecVm {
                data_stack: before.data_stack + arguments@ + seq![closure],
                next_instruction: ByteCodePointer { closure, instruction: 0 },
                ..before
            };
            assert(before.data_stack + arguments@ + seq![closure] =~= arguments@ + seq![closure]);
            assert(before.call_stack =~= Seq::<ByteCodePointer>::empty());
            assert(before.tracer =~= Seq::<TraceEntry>::empty());
            assert(before.fuzzable_closures =~= Seq::<(String, Pointer)>::empty());
            assert(started == SpecVm {
                status: before.status,
                objects: heap.objects@,
                data_stack: arguments@ + seq![closure],
                next_instruction: ByteCodePointer { closure, instruction: 0 },
                call_stack: Seq::empty(),
                tracer: Seq::empty(),
                fuzzable_closures: Seq::empty(),
            });
        }
        vm
    }

    /// A VM on a fresh heap that runs the closure of a module (which takes no
    /// arguments and captures nothing).
    pub fn new_for_running_module_closure(closure: Closure) -> (res: Self)
        requires
            closure.num_args == 0,
            closure.captured@.len() == 0,
        ensures
            res@.status is Running,
            res@.objects.len() == 1,
            res@.objects[0].data == Data::Closure(closure),
            res@.data_stack.len() == 0,
            res@.call_stack.len() == 1,
            res@.next_instruction == (ByteCodePointer { closure: Pointer(0), instruction: 0 }),
            res.wf(),
    {
        let mut heap = Heap { objects: Vec::new() };
        let ghost c = closure;
        let pointer = heap.create(Data::Closure(closure));
        proof {
            assert(data_children(Data::Closure(c)) =~= Seq::<Pointer>::empty());
            lemma_push_wf(Seq::empty(), Data::Closure(c));
            assert(heap.objects@ =~= Seq::<Object>::empty().push(
                Object { reference_count: 1, data: Data::Closure(c) },
            ));
        }
        let arguments: Vec<Pointer> = Vec::new();
        Vm::new_for_running_closure(heap, pointer, &arguments)
    }
}

} // verus!
