//! Objects on the VM's heap and the structural equality between them.
//!
//! A heap holds objects at addresses; an object refers to other objects by
//! pointers. Objects are immutable values built from the objects they refer
//! to, so in a well-formed heap every object refers only to objects at lower
//! addresses.

use crate::builtin_functions::BuiltinFunction;
use num_bigint::BigInt;
use rustc_hash::FxHashMap;
use vstd::prelude::*;

verus! {

// ----------------------------------------------------------------------------
// The heap.

/// The address of an object on the heap.
#[derive(Clone, Copy, Debug, PartialEq, Eq, Structural, Hash, PartialOrd, Ord)]
pub struct Pointer(pub usize);

/// The ID of a channel.
#[derive(Clone, Copy, Debug, PartialEq, Eq, Structural, Hash, PartialOrd, Ord)]
pub struct ChannelId(pub usize);

/// An object and the number of references to it.
#[derive(Debug)]
pub struct Object {
    pub reference_count: usize,
    pub data: Data,
}

/// The objects, each at the address of its index.
#[derive(Debug)]
pub struct Heap {
    pub objects: Vec<Object>,
}

/// What an object is.
#[derive(Debug)]
pub enum Data {
    Int(Int),
    Text(Text),
    Symbol(Symbol),
    List(List),
    Struct(Struct),
    /// The ID of a HIR expression, in its textual form.
    HirId(String),
    Closure(Closure),
    Builtin(Builtin),
    SendPort(SendPort),
    ReceivePort(ReceivePort),
}

#[derive(Debug)]
pub struct Int {
    pub value: BigInt,
}

#[derive(Debug)]
pub struct Text {
    pub value: String,
}

#[derive(Debug)]
pub struct Symbol {
    pub value: String,
}

#[derive(Debug)]
pub struct List {
    pub items: Vec<Pointer>,
}

#[derive(Debug)]
pub struct Struct {
    /// The fields as hash, key, and value.
    pub fields: Vec<(u64, Pointer, Pointer)>,
}

/// An instruction of the byte code that a VM runs. HIR IDs are held in their
/// textual form.
#[derive(Debug, Hash)]
pub enum Instruction {
    /// Pushes an int.
    CreateInt(BigInt),
    /// Pushes a text.
    CreateText(String),
    /// Pushes a symbol.
    CreateSymbol(String),
    /// Pops the keys and values of the entries and pushes a struct of them.
    CreateStruct { num_entries: usize },
    /// Pushes a closure that captures the whole stack.
    CreateClosure { num_args: usize, body: Vec<Instruction> },
    /// Pushes a builtin function.
    CreateBuiltin(BuiltinFunction),
    /// Drops the entries below the top of the stack.
    PopMultipleBelowTop(usize),
    /// Pushes the entry that lies `offset` entries below the top again.
    PushFromStack(usize),
    /// Pops the callee and the arguments and calls the callee.
    Call { num_args: usize },
    /// Pops a condition and a message and panics if the condition is not
    /// `True`.
    Needs,
    /// Returns from the current closure.
    Return,
    /// Registers the closure on top of the stack for fuzzing.
    RegisterFuzzableClosure(String),
    TraceValueEvaluated(String),
    TraceCallStarts { id: String, num_args: usize },
    TraceCallEnds,
    TraceNeedsStarts { id: String },
    TraceNeedsEnds,
    /// An error of an earlier compilation stage.
    Error(String),
}

/// `b` is a clone of `a`: equal, except that a closure's body is cloned
/// instruction by instruction.
pub open spec fn instruction_cloned(a: Instruction, b: Instruction) -> bool
    decreases a,
{
    match (a, b) {
        (
            Instruction::CreateClosure { num_args: n1, body: b1 },
            Instruction::CreateClosure { num_args: n2, body: b2 },
        ) => n1 == n2 && b1@.len() == b2@.len() && forall|i: int|
            0 <= i < b1@.len() ==> instruction_cloned(b1@[i], #[trigger] b2@[i]),
        (Instruction::CreateClosure { .. }, _) => false,
        _ => a == b,
    }
}

/// Calls num-bigint's `Clone` of `BigInt`, which copies the sign and the
/// digits: the clone is the same value.
#[verifier::external_body]
fn clone_bigint(value: &BigInt) -> (res: BigInt)
    ensures
        res == *value,
{
    value.clone()
}

/// Clones the instruction.
pub fn clone_instruction(instruction: &Instruction) -> (res: Instruction)
    ensures
        instruction_cloned(*instruction, res),
    decreases *instruction,
{
    match instruction {
        Instruction::CreateInt(value) => Instruction::CreateInt(clone_bigint(value)),
        Instruction::CreateText(text) => Instruction::CreateText(text.clone()),
        Instruction::CreateSymbol(symbol) => Instruction::CreateSymbol(symbol.clone()),
        Instruction::CreateStruct { num_entries } => Instruction::CreateStruct {
            num_entries: *num_entries,
        },
        Instruction::CreateClosure { num_args, body } => {
            let mut cloned_body: Vec<Instruction> = Vec::new();
            let mut i: usize = 0;
            while i < body.len()
                invariant
                    *instruction == (Instruction::CreateClosure { num_args: *num_args, body: *body }),
                    i <= body@.len(),
                    cloned_body@.len() == i,
                    forall|j: int|
                        0 <= j < i ==> instruction_cloned(body@[j], #[trigger] cloned_body@[j]),
                decreases body@.len() - i,
            {
                proof {
                    assert(decreases_to!(*instruction => (*instruction)->body));
                    assert(decreases_to!(*body => body@));
                    assert(decreases_to!(body@ => body@[i as int]));
                }
                let c = clone_instruction(&body[i]);
                cloned_body.push(c);
                i = i + 1;
            }
            Instruction::CreateClosure { num_args: *num_args, body: cloned_body }
        },
        Instruction::CreateBuiltin(function) => Instruction::CreateBuiltin(*function),
        Instruction::PopMultipleBelowTop(n) => Instruction::PopMultipleBelowTop(*n),
        Instruction::PushFromStack(offset) => Instruction::PushFromStack(*offset),
        Instruction::Call { num_args } => Instruction::Call { num_args: *num_args },
        Instruction::Needs => Instruction::Needs,
        Instruction::Return => Instruction::Return,
        Instruction::RegisterFuzzableClosure(id) => Instruction::RegisterFuzzableClosure(id.clone()),
        Instruction::TraceValueEvaluated(id) => Instruction::TraceValueEvaluated(id.clone()),
        Instruction::TraceCallStarts { id, num_args } => Instruction::TraceCallStarts {
            id: id.clone(),
            num_args: *num_args,
        },
        Instruction::TraceCallEnds => Instruction::TraceCallEnds,
        Instruction::TraceNeedsStarts { id } => Instruction::TraceNeedsStarts { id: id.clone() },
        Instruction::TraceNeedsEnds => Instruction::TraceNeedsEnds,
        Instruction::Error(error) => Instruction::Error(error.clone()),
    }
}

impl Clone for Instruction {
    fn clone(&self) -> (res: Self)
        ensures
            instruction_cloned(*self, res),
    {
        clone_instruction(self)
    }
}

/// A module compiled to the low-level intermediate representation.
#[derive(Debug)]
pub struct Lir {
    pub instructions: Vec<Instruction>,
}

#[derive(Debug)]
pub struct Closure {
    pub captured: Vec<Pointer>,
    pub num_args: usize,
    pub body: Vec<Instruction>,
}

#[derive(Debug)]
pub struct Builtin {
    pub function: BuiltinFunction,
}

#[derive(Debug)]
pub struct SendPort {
    pub channel: ChannelId,
}

#[derive(Debug)]
pub struct ReceivePort {
    pub channel: ChannelId,
}

/// The pointers that the data holds.
pub open spec fn data_children(data: Data) -> Seq<Pointer> {
    match data {
        Data::List(list) => list.items@,
        Data::Struct(s) => fields_children(s.fields@),
        Data::Closure(closure) => closure.captured@,
        _ => Seq::empty(),
    }
}

/// The keys and values of the fields, one field after another.
pub open spec fn fields_children(fields: Seq<(u64, Pointer, Pointer)>) -> Seq<Pointer>
    decreases fields.len(),
{
    if fields.len() == 0 {
        Seq::empty()
    } else {
        fields_children(fields.drop_last()) + seq![fields.last().1, fields.last().2]
    }
}

/// Every object refers only to objects at lower addresses.
pub open spec fn heap_wf(objects: Seq<Object>) -> bool {
    forall|a: int, i: int|
        0 <= a < objects.len() && 0 <= i < data_children(objects[a].data).len() ==> (
        #[trigger] data_children(objects[a].data)[i]).0 < a
}

pub proof fn lemma_fields_children_len(fields: Seq<(u64, Pointer, Pointer)>)
    ensures
        fields_children(fields).len() == 2 * fields.len(),
    decreases fields.len(),
{
    if fields.len() > 0 {
        lemma_fields_children_len(fields.drop_last());
    }
}

/// The key and value of the field at index `i` come at `2 * i` and
/// `2 * i + 1` among the fields' children.
pub proof fn lemma_fields_children_at(fields: Seq<(u64, Pointer, Pointer)>, i: int)
    requires
        0 <= i < fields.len(),
    ensures
        fields_children(fields).len() == 2 * fields.len(),
        fields_children(fields)[2 * i] == fields[i].1,
        fields_children(fields)[2 * i + 1] == fields[i].2,
    decreases fields.len(),
{
    lemma_fields_children_len(fields);
    lemma_fields_children_len(fields.drop_last());
    if i < fields.len() - 1 {
        lemma_fields_children_at(fields.drop_last(), i);
    }
}

impl Heap {
    /// The object at the address.
    pub fn get(&self, pointer: Pointer) -> (res: &Object)
        requires
            pointer.0 < self.objects@.len(),
        ensures
            *res == self.objects@[pointer.0 as int],
    {
        &self.objects[pointer.0]
    }
}

// ----------------------------------------------------------------------------
// Constructors and accessors.

impl SendPort {
    pub fn new(channel: ChannelId) -> (res: Self)
        ensures
            res.channel == channel,
    {
        Self { channel }
    }
}

impl ReceivePort {
    pub fn new(channel: ChannelId) -> (res: Self)
        ensures
            res.channel == channel,
    {
        Self { channel }
    }
}

impl Closure {
    /// The closure that runs a module: it captures nothing, takes no
    /// arguments, and its body is the module's code.
    pub fn of_module_lir(lir: Lir) -> (res: Self)
        ensures
            res.captured@.len() == 0,
            res.num_args == 0,
            res.body@ == lir.instructions@,
    {
        Closure { captured: Vec::new(), num_args: 0, body: lir.instructions }
    }
}

impl Default for List {
    fn default() -> (res: Self)
        ensures
            res.items@.len() == 0,
    {
        List { items: Vec::new() }
    }
}

impl Default for Struct {
    fn default() -> (res: Self)
        ensures
            res.fields@.len() == 0,
    {
        Struct { fields: Vec::new() }
    }
}

impl Struct {
    pub fn len(&self) -> (res: usize)
        ensures
            res == self.fields@.len(),
    {
        self.fields.len()
    }

    /// The keys and values of the fields, in the order of the fields.
    pub fn iter(&self) -> (res: Vec<(Pointer, Pointer)>)
        ensures
            res@.len() == self.fields@.len(),
            forall|i: int|
                0 <= i < res@.len() ==> #[trigger] res@[i] == (
                    self.fields@[i].1,
                    self.fields@[i].2,
                ),
    {
        let mut res: Vec<(Pointer, Pointer)> = Vec::new();
        let mut i: usize = 0;
        while i < self.fields.len()
            invariant
                i <= self.fields@.len(),
                res@.len() == i,
                forall|j: int|
                    0 <= j < i ==> #[trigger] res@[j] == (self.fields@[j].1, self.fields@[j].2),
            decreases self.fields@.len() - i,
        {
            let (_, key, value) = self.fields[i];
            res.push((key, value));
            i = i + 1;
        }
        res
    }
}

impl Data {
    /// The pointers that the data holds.
    pub fn children(&self) -> (res: Vec<Pointer>)
        ensures
            res@ == data_children(*self),
    {
        match self {
            Data::List(list) => copy_pointers(&list.items),
            Data::Struct(s) => {
                let mut res: Vec<Pointer> = Vec::new();
                let mut i: usize = 0;
                while i < s.fields.len()
                    invariant
                        i <= s.fields@.len(),
                        res@ == fields_children(s.fields@.take(i as int)),
                    decreases s.fields@.len() - i,
                {
                    proof {
                        assert(s.fields@.take(i + 1).drop_last() =~= s.fields@.take(i as int));
                    }
                    let (_, key, value) = s.fields[i];
                    res.push(key);
                    res.push(value);
                    i = i + 1;
                    proof {
                        assert(res@ =~= fields_children(s.fields@.take(i as int)));
                    }
                }
                proof {
                    assert(s.fields@.take(s.fields@.len() as int) =~= s.fields@);
                }
                res
            },
            Data::Closure(closure) => copy_pointers(&closure.captured),
            _ => Vec::new(),
        }
    }

    /// The closure, if this is one.
    pub fn closure(&self) -> (res: Option<&Closure>)
        ensures
            match *self {
                Data::Closure(c) => res == Some(&c),
                _ => res is None,
            },
    {
        if let Data::Closure(closure) = self {
            Some(closure)
        } else {
            None
        }
    }

    /// The channel, if this is a send or receive port.
    pub fn channel(&self) -> (res: Option<ChannelId>)
        ensures
            res == match *self {
                Data::SendPort(p) => Some(p.channel),
                Data::ReceivePort(p) => Some(p.channel),
                _ => None,
            },
    {
        match self {
            Data::SendPort(SendPort { channel }) | Data::ReceivePort(ReceivePort { channel }) =>
                Some(*channel),
            _ => None,
        }
    }
}

// ----------------------------------------------------------------------------
// Moving pointers.

/// What a map of pointers of rustc-hash holds, by the pointers' addresses.
pub uninterp spec fn pointer_map_entries(map: FxHashMap<Pointer, Pointer>) -> Map<usize, usize>;

/// Calls `HashMap::get`, which returns the pointer mapped to the given one if
/// there is one; pointers are equal and hash alike exactly if their addresses
/// are equal.
#[verifier::external_body]
fn mapped_pointer(map: &FxHashMap<Pointer, Pointer>, pointer: Pointer) -> (res: Option<Pointer>)
    ensures
        match res {
            Some(p) => pointer_map_entries(*map).contains_key(pointer.0) && pointer_map_entries(
                *map,
            )[pointer.0] == p.0,
            None => !pointer_map_entries(*map).contains_key(pointer.0),
        },
{
    map.get(&pointer).copied()
}

/// Creates an empty map with `Default::default`.
#[verifier::external_body]
fn empty_pointer_map() -> (res: FxHashMap<Pointer, Pointer>)
    ensures
        pointer_map_entries(res).dom().is_empty(),
{
    FxHashMap::default()
}

/// Calls `HashMap::insert`, after which the map maps `from` to `to` and is
/// otherwise unchanged.
#[verifier::external_body]
fn map_pointer(map: &mut FxHashMap<Pointer, Pointer>, from: Pointer, to: Pointer)
    ensures
        pointer_map_entries(*final(map)) == pointer_map_entries(*old(map)).insert(from.0, to.0),
{
    map.insert(from, to);
}

/// The map that setting each pair in turn gives: a later pair for the same
/// pointer overrides an earlier one.
pub open spec fn pairs_map(pairs: Seq<(Pointer, Pointer)>) -> Map<usize, usize>
    decreases pairs.len(),
{
    if pairs.len() == 0 {
        Map::empty()
    } else {
        pairs_map(pairs.drop_last()).insert(pairs.last().0.0, pairs.last().1.0)
    }
}

/// A map of pointers that maps the first pointer of each pair to the second;
/// a later pair for the same pointer overrides an earlier one.
pub fn pointer_map_from_pairs(pairs: &Vec<(Pointer, Pointer)>) -> (res: FxHashMap<Pointer, Pointer>)
    ensures
        pointer_map_entries(res) == pairs_map(pairs@),
{
    let mut map = empty_pointer_map();
    assert(pointer_map_entries(map) =~= pairs_map(pairs@.take(0)));
    let mut i: usize = 0;
    while i < pairs.len()
        invariant
            i <= pairs.len(),
            pointer_map_entries(map) == pairs_map(pairs@.take(i as int)),
        decreases pairs.len() - i,
    {
        let (from, to) = pairs[i];
        map_pointer(&mut map, from, to);
        assert(pairs@.take(i + 1).drop_last() =~= pairs@.take(i as int));
        i = i + 1;
    }
    assert(pairs@.take(i as int) =~= pairs@);
    map
}

/// The pointer that the map maps it to, or the pointer itself.
pub open spec fn changed_pointer(map: Map<usize, usize>, pointer: Pointer) -> Pointer {
    if map.contains_key(pointer.0) {
        Pointer(map[pointer.0])
    } else {
        pointer
    }
}

/// The pointers, each changed by the map.
pub open spec fn changed_pointers(map: Map<usize, usize>, pointers: Seq<Pointer>) -> Seq<Pointer> {
    pointers.map_values(|p: Pointer| changed_pointer(map, p))
}

/// `new` is `old` with the pointers it holds changed by the map: list
/// items, struct keys and values (the hashes stay), and what a closure
/// captures. Everything else is unchanged.
pub open spec fn pointers_changed(map: Map<usize, usize>, old: Data, new: Data) -> bool {
    match (old, new) {
        (Data::List(a), Data::List(b)) => b.items@ == changed_pointers(map, a.items@),
        (Data::Struct(a), Data::Struct(b)) => b.fields@ == a.fields@.map_values(
            |f: (u64, Pointer, Pointer)| (f.0, changed_pointer(map, f.1), changed_pointer(map, f.2)),
        ),
        (Data::Closure(a), Data::Closure(b)) => b.captured@ == changed_pointers(map, a.captured@)
            && b.num_args == a.num_args && b.body@ == a.body@,
        (Data::List(_), _) | (Data::Struct(_), _) | (Data::Closure(_), _) => false,
        _ => new == old,
    }
}

/// Changes each pointer by the map.
fn change_each_pointer(pointers: &mut Vec<Pointer>, map: &FxHashMap<Pointer, Pointer>)
    ensures
        final(pointers)@ == changed_pointers(pointer_map_entries(*map), old(pointers)@),
{
    let ghost m = pointer_map_entries(*map);
    let mut i: usize = 0;
    while i < pointers.len()
        invariant
            m == pointer_map_entries(*map),
            i <= pointers@.len(),
            pointers@.len() == old(pointers)@.len(),
            forall|j: int|
                0 <= j < i ==> #[trigger] pointers@[j] == changed_pointer(m, old(pointers)@[j]),
            forall|j: int| i <= j < pointers@.len() ==> #[trigger] pointers@[j] == old(pointers)@[j],
        decreases pointers@.len() - i,
    {
        let item = pointers[i];
        let changed = match mapped_pointer(map, item) {
            Some(p) => p,
            None => item,
        };
        pointers.set(i, changed);
        i = i + 1;
    }
    proof {
        assert(pointers@ =~= changed_pointers(m, old(pointers)@));
    }
}

impl Data {
    /// Changes the pointers the data holds by the map; pointers the map does
    /// not hold stay as they are.
    pub fn change_pointers(&mut self, pointer_map: &FxHashMap<Pointer, Pointer>)
        ensures
            pointers_changed(pointer_map_entries(*pointer_map), *old(self), *final(self)),
    {
        let ghost m = pointer_map_entries(*pointer_map);
        match self {
            Data::List(list) => change_each_pointer(&mut list.items, pointer_map),
            Data::Struct(s) => {
                let ghost before = s.fields@;
                let mut i: usize = 0;
                while i < s.fields.len()
                    invariant
                        m == pointer_map_entries(*pointer_map),
                        i <= s.fields@.len(),
                        s.fields@.len() == before.len(),
                        forall|j: int|
                            0 <= j < i ==> #[trigger] s.fields@[j] == (
                                before[j].0,
                                changed_pointer(m, before[j].1),
                                changed_pointer(m, before[j].2),
                            ),
                        forall|j: int|
                            i <= j < s.fields@.len() ==> #[trigger] s.fields@[j] == before[j],
                    decreases s.fields@.len() - i,
                {
                    let (hash, key, value) = s.fields[i];
                    let key = match mapped_pointer(pointer_map, key) {
                        Some(p) => p,
                        None => key,
                    };
                    let value = match mapped_pointer(pointer_map, value) {
                        Some(p) => p,
                        None => value,
                    };
                    s.fields.set(i, (hash, key, value));
                    i = i + 1;
                }
                proof {
                    assert(s.fields@ =~= before.map_values(
                        |f: (u64, Pointer, Pointer)|
                            (f.0, changed_pointer(m, f.1), changed_pointer(m, f.2)),
                    ));
                }
            },
            Data::Closure(closure) => change_each_pointer(&mut closure.captured, pointer_map),
            _ => {},
        }
    }
}

pub fn copy_pointers(pointers: &Vec<Pointer>) -> (res: Vec<Pointer>)
    ensures
        res@ == pointers@,
{
    let mut res: Vec<Pointer> = Vec::new();
    let mut i: usize = 0;
    while i < pointers.len()
        invariant
            i <= pointers@.len(),
            res@ == pointers@.take(i as int),
        decreases pointers@.len() - i,
    {
        res.push(pointers[i]);
        i = i + 1;
        proof {
            assert(res@ =~= pointers@.take(i as int));
        }
    }
    proof {
        assert(pointers@.take(pointers@.len() as int) =~= pointers@);
    }
    res
}

// ----------------------------------------------------------------------------
// Equality.

/// Two pointers denote equal values: they are the same pointer, or the objects
/// they point to are equal. Ints, texts, symbols, HIR IDs, builtins and ports
/// are equal if what they hold is; lists and structs if they have equal items
/// or fields in the same order; closures never.
pub open spec fn pointers_equal(objects: Seq<Object>, a: Pointer, b: Pointer) -> bool
    decreases a.0 + b.0 + 1, 0nat,
{
    if a == b {
        true
    } else if a.0 < objects.len() && b.0 < objects.len() {
        data_equal(objects, objects[a.0 as int].data, objects[b.0 as int].data, a.0 as int, b.0 as int)
    } else {
        false
    }
}

/// Two data are equal; their children lie below the addresses `a` and `b`.
pub open spec fn data_equal(objects: Seq<Object>, x: Data, y: Data, a: int, b: int) -> bool
    decreases a + b, 2 * data_children(x).len() + 2,
{
    match (x, y) {
        (Data::Int(p), Data::Int(q)) => p.value == q.value,
        (Data::Text(p), Data::Text(q)) => p.value@ == q.value@,
        (Data::Symbol(p), Data::Symbol(q)) => p.value@ == q.value@,
        (Data::List(p), Data::List(q)) => pointer_lists_equal(objects, p.items@, q.items@, a, b),
        (Data::Struct(p), Data::Struct(q)) => {
            proof {
                lemma_fields_children_len(p.fields@);
                lemma_fields_children_len(q.fields@);
            }
            p.fields@.len() == q.fields@.len() && pointer_lists_equal(
                objects,
                fields_children(p.fields@),
                fields_children(q.fields@),
                a,
                b,
            )
        },
        (Data::HirId(p), Data::HirId(q)) => p@ == q@,
        (Data::Closure(_), Data::Closure(_)) => false,
        (Data::Builtin(p), Data::Builtin(q)) => p.function == q.function,
        (Data::SendPort(p), Data::SendPort(q)) => p.channel == q.channel,
        (Data::ReceivePort(p), Data::ReceivePort(q)) => p.channel == q.channel,
        _ => false,
    }
}

/// The pointers denote equal values element by element; all of them lie below
/// the addresses `a` and `b`.
pub open spec fn pointer_lists_equal(
    objects: Seq<Object>,
    p: Seq<Pointer>,
    q: Seq<Pointer>,
    a: int,
    b: int,
) -> bool
    decreases a + b, 2 * p.len() + 1,
{
    if p.len() != q.len() {
        false
    } else if p.len() == 0 {
        true
    } else {
        let (x, y) = (p.last(), q.last());
        pointer_lists_equal(objects, p.drop_last(), q.drop_last(), a, b) && x.0 < a && y.0 < b
            && pointers_equal(objects, x, y)
    }
}

/// Calls num-bigint's `PartialEq` of `BigInt`, which compares the sign and
/// the magnitude; num-bigint keeps both normalized, so two ints are equal
/// exactly if they are the same value.
#[verifier::external_body]
fn bigint_equals(a: &BigInt, b: &BigInt) -> (res: bool)
    ensures
        res == (*a == *b),
{
    *a == *b
}

/// Whether the two texts are the same.
fn strings_equal(a: &String, b: &String) -> (res: bool)
    ensures
        res == (a@ == b@),
{
    *a == *b
}

impl Pointer {
    /// Whether the two pointers denote equal values.
    pub fn equals(&self, heap: &Heap, other: Self) -> (res: bool)
        requires
            heap_wf(heap.objects@),
            *self == other || (self.0 < heap.objects@.len() && other.0 < heap.objects@.len()),
        ensures
            res == pointers_equal(heap.objects@, *self, other),
        decreases self.0 + other.0 + 1, 0nat,
    {
        if *self == other {
            return true;
        }
        let a = heap.get(*self);
        let b = heap.get(other);
        a.data.equals_below(heap, &b.data, Ghost(self.0 as int), Ghost(other.0 as int))
    }
}

impl Data {
    /// Whether the two data are equal values.
    pub fn equals(&self, heap: &Heap, other: &Self) -> (res: bool)
        requires
            heap_wf(heap.objects@),
            forall|i: int|
                0 <= i < data_children(*self).len() ==> (#[trigger] data_children(*self)[i]).0
                    < heap.objects@.len(),
            forall|i: int|
                0 <= i < data_children(*other).len() ==> (#[trigger] data_children(*other)[i]).0
                    < heap.objects@.len(),
        ensures
            res == data_equal(
                heap.objects@,
                *self,
                *other,
                heap.objects@.len() as int,
                heap.objects@.len() as int,
            ),
    {
        self.equals_below(
            heap,
            other,
            Ghost(heap.objects@.len() as int),
            Ghost(heap.objects@.len() as int),
        )
    }

    fn equals_below(&self, heap: &Heap, other: &Self, Ghost(a): Ghost<int>, Ghost(b): Ghost<int>) -> (res:
        bool)
        requires
            heap_wf(heap.objects@),
            0 <= a <= heap.objects@.len(),
            0 <= b <= heap.objects@.len(),
            forall|i: int|
                0 <= i < data_children(*self).len() ==> (#[trigger] data_children(*self)[i]).0 < a,
            forall|i: int|
                0 <= i < data_children(*other).len() ==> (#[trigger] data_children(*other)[i]).0
                    < b,
        ensures
            res == data_equal(heap.objects@, *self, *other, a, b),
        decreases a + b, 2 * data_children(*self).len() + 2,
    {
        match (self, other) {
            (Data::Int(p), Data::Int(q)) => bigint_equals(&p.value, &q.value),
            (Data::Text(p), Data::Text(q)) => strings_equal(&p.value, &q.value),
            (Data::Symbol(p), Data::Symbol(q)) => strings_equal(&p.value, &q.value),
            (Data::List(p), Data::List(q)) => {
                if p.items.len() != q.items.len() {
                    return false;
                }
                proof {
                    assert(data_children(*self) == p.items@);
                    assert(data_children(*other) == q.items@);
                }
                pointer_lists_equal_exec(heap, &p.items, &q.items, Ghost(a), Ghost(b))
            },
            (Data::Struct(p), Data::Struct(q)) => {
                proof {
                    lemma_fields_children_len(p.fields@);
                    lemma_fields_children_len(q.fields@);
                }
                if p.fields.len() != q.fields.len() {
                    return false;
                }
                let ps = self.children();
                let qs = other.children();
                pointer_lists_equal_exec(heap, &ps, &qs, Ghost(a), Ghost(b))
            },
            (Data::HirId(p), Data::HirId(q)) => strings_equal(p, q),
            (Data::Closure(_), Data::Closure(_)) => false,
            (Data::Builtin(p), Data::Builtin(q)) => p.function == q.function,
            (Data::SendPort(p), Data::SendPort(q)) => p.channel == q.channel,
            (Data::ReceivePort(p), Data::ReceivePort(q)) => p.channel == q.channel,
            _ => false,
        }
    }
}

/// Whether the pointers denote equal values element by element.
fn pointer_lists_equal_exec(
    heap: &Heap,
    p: &Vec<Pointer>,
    q: &Vec<Pointer>,
    Ghost(a): Ghost<int>,
    Ghost(b): Ghost<int>,
) -> (res: bool)
    requires
        heap_wf(heap.objects@),
        0 <= a <= heap.objects@.len(),
        0 <= b <= heap.objects@.len(),
        p@.len() == q@.len(),
        forall|i: int| 0 <= i < p@.len() ==> (#[trigger] p@[i]).0 < a,
        forall|i: int| 0 <= i < q@.len() ==> (#[trigger] q@[i]).0 < b,
    ensures
        res == pointer_lists_equal(heap.objects@, p@, q@, a, b),
    decreases a + b, 2 * p@.len() + 1,
{
    let mut i: usize = 0;
    while i < p.len()
        invariant
            heap_wf(heap.objects@),
            0 <= a <= heap.objects@.len(),
            0 <= b <= heap.objects@.len(),
            p@.len() == q@.len(),
            i <= p@.len(),
            forall|j: int| 0 <= j < p@.len() ==> (#[trigger] p@[j]).0 < a,
            forall|j: int| 0 <= j < q@.len() ==> (#[trigger] q@[j]).0 < b,
            pointer_lists_equal(heap.objects@, p@.take(i as int), q@.take(i as int), a, b),
        decreases p@.len() - i,
    {
        let x = p[i];
        let y = q[i];
        proof {
            assert(p@.take(i + 1).drop_last() =~= p@.take(i as int));
            assert(q@.take(i + 1).drop_last() =~= q@.take(i as int));
            assert(x.0 < a && y.0 < b);
        }
        if !x.equals(heap, y) {
            proof {
                if pointer_lists_equal(heap.objects@, p@, q@, a, b) {
                    lemma_pointer_lists_prefix(heap.objects@, p@, q@, a, b, i as int + 1);
                    assert(p@.take(i + 1).last() == x);
                    assert(q@.take(i + 1).last() == y);
                }
            }
            return false;
        }
        i = i + 1;
    }
    proof {
        assert(p@.take(p@.len() as int) =~= p@);
        assert(q@.take(q@.len() as int) =~= q@);
    }
    true
}

/// Element-wise equality of two lists implies that of every pair of equally
/// long prefixes.
proof fn lemma_pointer_lists_prefix(
    objects: Seq<Object>,
    p: Seq<Pointer>,
    q: Seq<Pointer>,
    a: int,
    b: int,
    n: int,
)
    requires
        p.len() == q.len(),
        0 <= n <= p.len(),
        pointer_lists_equal(objects, p, q, a, b),
    ensures
        pointer_lists_equal(objects, p.take(n), q.take(n), a, b),
    decreases p.len(),
{
    if n < p.len() {
        assert(p.drop_last().take(n) =~= p.take(n));
        assert(q.drop_last().take(n) =~= q.take(n));
        lemma_pointer_lists_prefix(objects, p.drop_last(), q.drop_last(), a, b, n);
    } else {
        assert(p.take(n) =~= p);
        assert(q.take(n) =~= q);
    }
}

// ----------------------------------------------------------------------------
// Laws.

/// Equality of values is symmetric.
pub proof fn lemma_pointers_equal_symmetric(objects: Seq<Object>, a: Pointer, b: Pointer)
    ensures
        pointers_equal(objects, a, b) == pointers_equal(objects, b, a),
    decreases a.0 + b.0 + 1, 0nat,
{
    if a != b && a.0 < objects.len() && b.0 < objects.len() {
        lemma_data_equal_symmetric(
            objects,
            objects[a.0 as int].data,
            objects[b.0 as int].data,
            a.0 as int,
            b.0 as int,
        );
    }
}

/// Equality of data is symmetric.
pub proof fn lemma_data_equal_symmetric(objects: Seq<Object>, x: Data, y: Data, a: int, b: int)
    ensures
        data_equal(objects, x, y, a, b) == data_equal(objects, y, x, b, a),
    decreases a + b, 2 * data_children(x).len() + 2,
{
    match (x, y) {
        (Data::List(p), Data::List(q)) => {
            lemma_pointer_lists_equal_symmetric(objects, p.items@, q.items@, a, b);
        },
        (Data::Struct(p), Data::Struct(q)) => {
            lemma_fields_children_len(p.fields@);
            lemma_fields_children_len(q.fields@);
            lemma_pointer_lists_equal_symmetric(
                objects,
                fields_children(p.fields@),
                fields_children(q.fields@),
                a,
                b,
            );
        },
        _ => {},
    }
}

/// Element-wise equality of pointers is symmetric.
pub proof fn lemma_pointer_lists_equal_symmetric(
    objects: Seq<Object>,
    p: Seq<Pointer>,
    q: Seq<Pointer>,
    a: int,
    b: int,
)
    ensures
        pointer_lists_equal(objects, p, q, a, b) == pointer_lists_equal(objects, q, p, b, a),
    decreases a + b, 2 * p.len() + 1,
{
    if p.len() == q.len() && p.len() > 0 {
        lemma_pointer_lists_equal_symmetric(objects, p.drop_last(), q.drop_last(), a, b);
        if p.last().0 < a && q.last().0 < b {
            lemma_pointers_equal_symmetric(objects, p.last(), q.last());
        }
    }
}

/// Equality of values is transitive.
pub proof fn lemma_pointers_equal_transitive(objects: Seq<Object>, a: Pointer, b: Pointer, c: Pointer)
    requires
        pointers_equal(objects, a, b),
        pointers_equal(objects, b, c),
    ensures
        pointers_equal(objects, a, c),
    decreases a.0 + b.0 + c.0 + 1, 0nat,
{
    if a != b && b != c && a != c {
        lemma_data_equal_transitive(
            objects,
            objects[a.0 as int].data,
            objects[b.0 as int].data,
            objects[c.0 as int].data,
            a.0 as int,
            b.0 as int,
            c.0 as int,
        );
    }
}

/// Equality of data is transitive.
pub proof fn lemma_data_equal_transitive(
    objects: Seq<Object>,
    x: Data,
    y: Data,
    z: Data,
    a: int,
    b: int,
    c: int,
)
    requires
        0 <= a && 0 <= b && 0 <= c,
        data_equal(objects, x, y, a, b),
        data_equal(objects, y, z, b, c),
    ensures
        data_equal(objects, x, z, a, c),
    decreases a + b + c, 2 * data_children(x).len() + 2,
{
    match (x, y, z) {
        (Data::List(p), Data::List(q), Data::List(r)) => {
            lemma_pointer_lists_equal_transitive(objects, p.items@, q.items@, r.items@, a, b, c);
        },
        (Data::Struct(p), Data::Struct(q), Data::Struct(r)) => {
            lemma_fields_children_len(p.fields@);
            lemma_fields_children_len(q.fields@);
            lemma_fields_children_len(r.fields@);
            lemma_pointer_lists_equal_transitive(
                objects,
                fields_children(p.fields@),
                fields_children(q.fields@),
                fields_children(r.fields@),
                a,
                b,
                c,
            );
        },
        _ => {},
    }
}

/// Element-wise equality of pointers is transitive.
pub proof fn lemma_pointer_lists_equal_transitive(
    objects: Seq<Object>,
    p: Seq<Pointer>,
    q: Seq<Pointer>,
    r: Seq<Pointer>,
    a: int,
    b: int,
    c: int,
)
    requires
        0 <= a && 0 <= b && 0 <= c,
        pointer_lists_equal(objects, p, q, a, b),
        pointer_lists_equal(objects, q, r, b, c),
    ensures
        pointer_lists_equal(objects, p, r, a, c),
    decreases a + b + c, 2 * p.len() + 1,
{
    if p.len() > 0 {
        lemma_pointer_lists_equal_transitive(
            objects,
            p.drop_last(),
            q.drop_last(),
            r.drop_last(),
            a,
            b,
            c,
        );
        lemma_pointers_equal_transitive(objects, p.last(), q.last(), r.last());
    }
}

/// A pointer denotes a value equal to itself.
pub proof fn lemma_pointers_equal_reflexive(objects: Seq<Object>, a: Pointer)
    ensures
        pointers_equal(objects, a, a),
{
}

/// Pointers below `a`, each equal to itself, make a list equal to itself.
proof fn lemma_pointer_lists_equal_reflexive(objects: Seq<Object>, p: Seq<Pointer>, a: int)
    requires
        forall|i: int| 0 <= i < p.len() ==> (#[trigger] p[i]).0 < a,
    ensures
        pointer_lists_equal(objects, p, p, a, a),
    decreases p.len(),
{
    if p.len() > 0 {
        let init = p.drop_last();
        assert forall|i: int| 0 <= i < init.len() implies (#[trigger] init[i]).0 < a by {
            assert(init[i] == p[i]);
        }
        lemma_pointer_lists_equal_reflexive(objects, init, a);
        assert(p.last() == p[p.len() - 1]);
        lemma_pointers_equal_reflexive(objects, p.last());
    }
}

/// Equality of data is reflexive: every value but a closure equals itself
/// (closures are never equal, as functions cannot be compared).
pub proof fn lemma_data_equal_reflexive(objects: Seq<Object>, x: Data, a: int)
    requires
        !(x is Closure),
        forall|i: int| 0 <= i < data_children(x).len() ==> (#[trigger] data_children(x)[i]).0 < a,
    ensures
        data_equal(objects, x, x, a, a),
{
    match x {
        Data::List(l) => {
            assert(data_children(x) == l.items@);
            lemma_pointer_lists_equal_reflexive(objects, l.items@, a);
        },
        Data::Struct(st) => {
            assert(data_children(x) == fields_children(st.fields@));
            lemma_pointer_lists_equal_reflexive(objects, fields_children(st.fields@), a);
        },
        _ => {},
    }
}

} // verus!
