//! Hashes of heap values.
//!
//! A value is hashed by writing what its object holds into a fresh
//! `DefaultHasher`, as bytes in an encoding fixed here: ints, texts, symbols,
//! builtins and ports directly, lists and closures by the hashes of the
//! values they refer to. So the hash of a
//! value depends on the value alone, not on where its parts lie on the heap.

use crate::builtin_functions::BuiltinFunction;
use crate::object::{
    data_children, data_equal, fields_children, heap_wf, lemma_fields_children_len,
    pointer_lists_equal, pointers_equal, Data, Heap, Instruction, Object, Pointer,
};
use num_bigint::BigInt;
use rustc_hash::FxHashMap;
use std::collections::hash_map::DefaultHasher;
use std::hash::Hasher;
use vstd::prelude::*;
use vstd::std_specs::hash::DefaultHasherAdditionalSpecFns;

verus! {

// ----------------------------------------------------------------------------
// What hashing writes.
//
// Every part of a value is written into the hasher as bytes whose encoding
// is fixed here, the same on every machine: numbers as little-endian bytes of
// a fixed width, texts as their length and their characters' code points.

/// The `n` lowest bytes of the number, least significant first.
pub open spec fn le_bytes(value: nat, n: nat) -> Seq<u8>
    decreases n,
{
    if n == 0 {
        Seq::empty()
    } else {
        seq![(value % 256) as u8] + le_bytes(value / 256, (n - 1) as nat)
    }
}

/// The eight bytes of a 64-bit number, least significant first.
pub open spec fn u64_bytes(value: u64) -> Seq<u8> {
    le_bytes(value as nat, 8)
}

/// The bytes of the characters' code points, four per character.
pub open spec fn chars_bytes(text: Seq<char>) -> Seq<u8>
    decreases text.len(),
{
    if text.len() == 0 {
        Seq::empty()
    } else {
        chars_bytes(text.drop_last()) + le_bytes(text.last() as nat, 4)
    }
}

/// The bytes of a text: its length, then its characters.
pub open spec fn text_bytes(text: Seq<char>) -> Seq<u8> {
    le_bytes(text.len(), 8) + chars_bytes(text)
}

/// The two's-complement bytes of the int, least significant first, as
/// num-bigint's `to_signed_bytes_le` gives them.
pub uninterp spec fn bigint_signed_bytes(value: BigInt) -> Seq<u8>;

/// Calls num-bigint's `BigInt::to_signed_bytes_le`, which returns the
/// two's-complement representation of the value in little-endian byte order
/// (a function of the value alone); the contract names that result.
#[verifier::external_body]
fn bigint_bytes(value: &BigInt) -> (res: Vec<u8>)
    ensures
        res@ == bigint_signed_bytes(*value),
{
    value.to_signed_bytes_le()
}

/// The number of a builtin function: its place among the builtin functions.
pub open spec fn builtin_number(function: BuiltinFunction) -> u64 {
    match function {
        BuiltinFunction::Add => 0,
        BuiltinFunction::Equals => 1,
        BuiltinFunction::GetArgumentCount => 2,
        BuiltinFunction::IfElse => 3,
        BuiltinFunction::Panic => 4,
        BuiltinFunction::Print => 5,
        BuiltinFunction::StructGet => 6,
        BuiltinFunction::StructGetKeys => 7,
        BuiltinFunction::StructHasKey => 8,
        BuiltinFunction::TypeOf => 9,
        BuiltinFunction::Use => 10,
    }
}

fn builtin_number_of(function: &BuiltinFunction) -> (res: u64)
    ensures
        res == builtin_number(*function),
{
    match function {
        BuiltinFunction::Add => 0,
        BuiltinFunction::Equals => 1,
        BuiltinFunction::GetArgumentCount => 2,
        BuiltinFunction::IfElse => 3,
        BuiltinFunction::Panic => 4,
        BuiltinFunction::Print => 5,
        BuiltinFunction::StructGet => 6,
        BuiltinFunction::StructGetKeys => 7,
        BuiltinFunction::StructHasKey => 8,
        BuiltinFunction::TypeOf => 9,
        BuiltinFunction::Use => 10,
    }
}

/// What hashing an instruction writes: the number of its kind, then its
/// operands.
pub open spec fn instruction_writes(instruction: Instruction) -> Seq<Seq<u8>>
    decreases instruction,
{
    match instruction {
        Instruction::CreateInt(value) => seq![u64_bytes(0), bigint_signed_bytes(value)],
        Instruction::CreateText(text) => seq![u64_bytes(1), text_bytes(text@)],
        Instruction::CreateSymbol(symbol) => seq![u64_bytes(2), text_bytes(symbol@)],
        Instruction::CreateStruct { num_entries } => seq![
            u64_bytes(3),
            u64_bytes(num_entries as u64),
        ],
        Instruction::CreateClosure { num_args, body } => seq![
            u64_bytes(4),
            u64_bytes(num_args as u64),
            u64_bytes(body@.len() as u64),
        ] + instruction_list_writes(body@),
        Instruction::CreateBuiltin(function) => seq![
            u64_bytes(5),
            u64_bytes(builtin_number(function)),
        ],
        Instruction::PopMultipleBelowTop(n) => seq![u64_bytes(6), u64_bytes(n as u64)],
        Instruction::PushFromStack(offset) => seq![u64_bytes(7), u64_bytes(offset as u64)],
        Instruction::Call { num_args } => seq![u64_bytes(8), u64_bytes(num_args as u64)],
        Instruction::Needs => seq![u64_bytes(9)],
        Instruction::Return => seq![u64_bytes(10)],
        Instruction::RegisterFuzzableClosure(id) => seq![u64_bytes(11), text_bytes(id@)],
        Instruction::TraceValueEvaluated(id) => seq![u64_bytes(12), text_bytes(id@)],
        Instruction::TraceCallStarts { id, num_args } => seq![
            u64_bytes(13),
            text_bytes(id@),
            u64_bytes(num_args as u64),
        ],
        Instruction::TraceCallEnds => seq![u64_bytes(14)],
        Instruction::TraceNeedsStarts { id } => seq![u64_bytes(15), text_bytes(id@)],
        Instruction::TraceNeedsEnds => seq![u64_bytes(16)],
        Instruction::Error(error) => seq![u64_bytes(17), text_bytes(error@)],
    }
}

/// What hashing the instructions one after another writes.
pub open spec fn instruction_list_writes(body: Seq<Instruction>) -> Seq<Seq<u8>>
    decreases body,
{
    if body.len() == 0 {
        Seq::empty()
    } else {
        instruction_list_writes(body.subrange(0, body.len() - 1)) + instruction_writes(
            body[body.len() - 1],
        )
    }
}

/// What hashing a closure's body writes: its length, then its instructions.
pub open spec fn instructions_writes(body: Seq<Instruction>) -> Seq<Seq<u8>> {
    seq![u64_bytes(body.len() as u64)] + instruction_list_writes(body)
}

/// Appends the `n` lowest bytes of the number, least significant first.
fn push_le_bytes(bytes: &mut Vec<u8>, value: u64, n: usize)
    ensures
        final(bytes)@ == old(bytes)@ + le_bytes(value as nat, n as nat),
{
    let mut x: u64 = value;
    let mut i: usize = 0;
    proof {
        assert(old(bytes)@ + le_bytes(value as nat, n as nat) =~= bytes@ + le_bytes(
            x as nat,
            (n - i) as nat,
        ));
    }
    while i < n
        invariant
            i <= n,
            bytes@ + le_bytes(x as nat, (n - i) as nat) == old(bytes)@ + le_bytes(
                value as nat,
                n as nat,
            ),
        decreases n - i,
    {
        let b: u8 = (x % 256) as u8;
        proof {
            let rest = le_bytes((x / 256) as nat, (n - i - 1) as nat);
            assert(le_bytes(x as nat, (n - i) as nat) == seq![b] + rest);
            assert(bytes@.push(b) + rest =~= bytes@ + (seq![b] + rest));
        }
        bytes.push(b);
        x = x / 256;
        i = i + 1;
    }
}

/// Writes the number's eight bytes into the hasher.
fn feed_u64(value: u64, state: &mut DefaultHasher)
    ensures
        final(state)@ == old(state)@.push(u64_bytes(value)),
{
    let mut bytes: Vec<u8> = Vec::new();
    push_le_bytes(&mut bytes, value, 8);
    proof {
        assert(bytes@ =~= u64_bytes(value));
    }
    state.write(bytes.as_slice());
}

/// Writes the text's bytes into the hasher.
fn feed_text(text: &String, state: &mut DefaultHasher)
    ensures
        final(state)@ == old(state)@.push(text_bytes(text@)),
{
    let mut bytes: Vec<u8> = Vec::new();
    let n: usize = text.as_str().unicode_len();
    push_le_bytes(&mut bytes, n as u64, 8);
    let ghost start = bytes@;
    let mut i: usize = 0;
    proof {
        assert(text@.take(0) =~= Seq::<char>::empty());
        assert(bytes@ =~= start + chars_bytes(text@.take(0)));
    }
    while i < n
        invariant
            n == text@.len(),
            i <= n,
            start == le_bytes(n as nat, 8),
            bytes@ == start + chars_bytes(text@.take(i as int)),
        decreases n - i,
    {
        let c: char = text.as_str().get_char(i);
        proof {
            assert(text@.take(i + 1).drop_last() =~= text@.take(i as int));
            assert(text@.take(i + 1).last() == c);
        }
        push_le_bytes(&mut bytes, c as u32 as u64, 4);
        i = i + 1;
        proof {
            assert(bytes@ =~= start + chars_bytes(text@.take(i as int)));
        }
    }
    proof {
        assert(text@.take(n as int) =~= text@);
        assert(bytes@ =~= text_bytes(text@));
    }
    state.write(bytes.as_slice());
}

/// Writes the int's two's-complement bytes into the hasher.
fn feed_bigint(value: &BigInt, state: &mut DefaultHasher)
    ensures
        final(state)@ == old(state)@.push(bigint_signed_bytes(*value)),
{
    let bytes = bigint_bytes(value);
    state.write(bytes.as_slice());
}

/// Writes what hashing the instruction writes into the hasher.
fn feed_instruction(instruction: &Instruction, state: &mut DefaultHasher)
    ensures
        final(state)@ == old(state)@ + instruction_writes(*instruction),
    decreases *instruction,
{
    let ghost before = state@;
    match instruction {
        Instruction::CreateInt(value) => {
            feed_u64(0, state);
            feed_bigint(value, state);
        },
        Instruction::CreateText(text) => {
            feed_u64(1, state);
            feed_text(text, state);
        },
        Instruction::CreateSymbol(symbol) => {
            feed_u64(2, state);
            feed_text(symbol, state);
        },
        Instruction::CreateStruct { num_entries } => {
            feed_u64(3, state);
            feed_u64(*num_entries as u64, state);
        },
        Instruction::CreateClosure { num_args, body } => {
            feed_u64(4, state);
            feed_u64(*num_args as u64, state);
            feed_instructions(body, state);
        },
        Instruction::CreateBuiltin(function) => {
            feed_u64(5, state);
            feed_u64(builtin_number_of(function), state);
        },
        Instruction::PopMultipleBelowTop(n) => {
            feed_u64(6, state);
            feed_u64(*n as u64, state);
        },
        Instruction::PushFromStack(offset) => {
            feed_u64(7, state);
            feed_u64(*offset as u64, state);
        },
        Instruction::Call { num_args } => {
            feed_u64(8, state);
            feed_u64(*num_args as u64, state);
        },
        Instruction::Needs => feed_u64(9, state),
        Instruction::Return => feed_u64(10, state),
        Instruction::RegisterFuzzableClosure(id) => {
            feed_u64(11, state);
            feed_text(id, state);
        },
        Instruction::TraceValueEvaluated(id) => {
            feed_u64(12, state);
            feed_text(id, state);
        },
        Instruction::TraceCallStarts { id, num_args } => {
            feed_u64(13, state);
            feed_text(id, state);
            feed_u64(*num_args as u64, state);
        },
        Instruction::TraceCallEnds => feed_u64(14, state),
        Instruction::TraceNeedsStarts { id } => {
            feed_u64(15, state);
            feed_text(id, state);
        },
        Instruction::TraceNeedsEnds => feed_u64(16, state),
        Instruction::Error(error) => {
            feed_u64(17, state);
            feed_text(error, state);
        },
    }
    proof {
        assert(state@ =~= before + instruction_writes(*instruction));
    }
}

/// Writes what hashing the closure body writes into the hasher.
fn feed_instructions(body: &Vec<Instruction>, state: &mut DefaultHasher)
    ensures
        final(state)@ == old(state)@ + instructions_writes(body@),
    decreases body,
{
    let ghost before = state@;
    feed_u64(body.len() as u64, state);
    let mut i: usize = 0;
    proof {
        assert(body@.subrange(0, 0) =~= Seq::<Instruction>::empty());
        assert(state@ =~= before + seq![u64_bytes(body@.len() as u64)] + instruction_list_writes(
            body@.subrange(0, 0),
        ));
    }
    while i < body.len()
        invariant
            i <= body@.len(),
            state@ == before + seq![u64_bytes(body@.len() as u64)] + instruction_list_writes(
                body@.subrange(0, i as int),
            ),
        decreases body@.len() - i,
    {
        let ghost mid = state@;
        feed_instruction(&body[i], state);
        proof {
            let t = body@.subrange(0, i + 1);
            assert(t.subrange(0, t.len() - 1) =~= body@.subrange(0, i as int));
            assert(t[t.len() - 1] == body@[i as int]);
            assert(state@ =~= before + seq![u64_bytes(body@.len() as u64)]
                + instruction_list_writes(t));
        }
        i = i + 1;
    }
    proof {
        assert(body@.subrange(0, body@.len() as int) =~= body@);
    }
}

// ----------------------------------------------------------------------------
// The hash of a value.

/// The hash of the value that the pointer denotes.
pub open spec fn pointer_hash(objects: Seq<Object>, p: Pointer) -> u64
    decreases p.0 + 1, 0nat, 0nat,
{
    if p.0 < objects.len() {
        DefaultHasher::spec_finish(data_hash_writes(objects, objects[p.0 as int].data, p.0 as int))
    } else {
        0
    }
}

/// The hash of the data: that of a fresh hasher fed with what it holds.
pub open spec fn data_hash(objects: Seq<Object>, data: Data) -> u64 {
    DefaultHasher::spec_finish(data_hash_writes(objects, data, objects.len() as int))
}

/// What hashing the data feeds into a fresh hasher. The data's children lie
/// below `below`.
pub open spec fn data_hash_writes(objects: Seq<Object>, data: Data, below: int) -> Seq<Seq<u8>>
    decreases below, 2nat, 0nat,
{
    match data {
        Data::Int(number) => seq![bigint_signed_bytes(number.value)],
        Data::Text(text) => seq![text_bytes(text.value@)],
        Data::Symbol(symbol) => seq![text_bytes(symbol.value@)],
        Data::List(list) => pointers_hash_writes(objects, list.items@, below),
        Data::Struct(s) => seq![u64_bytes(fields_hash(objects, s.fields@, below))],
        Data::HirId(id) => seq![text_bytes(id@)],
        Data::Closure(closure) => pointers_hash_writes(objects, closure.captured@, below).push(
            u64_bytes(closure.num_args as u64),
        ) + instructions_writes(closure.body@),
        Data::Builtin(builtin) => seq![u64_bytes(builtin_number(builtin.function))],
        Data::SendPort(port) => seq![u64_bytes(port.channel.0 as u64)],
        Data::ReceivePort(port) => seq![u64_bytes(port.channel.0 as u64)],
    }
}

/// The hashes of the values the pointers denote, fed one after another.
pub open spec fn pointers_hash_writes(objects: Seq<Object>, pointers: Seq<Pointer>, below: int) -> Seq<
    Seq<u8>,
>
    decreases below, 1nat, pointers.len(),
{
    if pointers.len() == 0 {
        Seq::empty()
    } else {
        let p = pointers.last();
        pointers_hash_writes(objects, pointers.drop_last(), below) + if 0 <= p.0 < below {
            seq![u64_bytes(pointer_hash(objects, p))]
        } else {
            Seq::empty()
        }
    }
}

/// The hashes of the fields' keys and values, combined with xor.
pub open spec fn fields_hash(objects: Seq<Object>, fields: Seq<(u64, Pointer, Pointer)>, below: int) -> u64
    decreases below, 1nat, fields.len(),
{
    if fields.len() == 0 {
        0
    } else {
        let (_, key, value) = fields.last();
        let rest = fields_hash(objects, fields.drop_last(), below);
        if 0 <= key.0 < below && 0 <= value.0 < below {
            rest ^ pointer_hash(objects, key) ^ pointer_hash(objects, value)
        } else {
            rest
        }
    }
}

// ----------------------------------------------------------------------------
// A cache of hashes.

/// What a cache of hashes holds, by the pointers' addresses.
pub uninterp spec fn cached_hashes(cache: FxHashMap<Pointer, u64>) -> Map<usize, u64>;

/// Every cached hash is that of the value its pointer denotes.
pub open spec fn cache_wf(objects: Seq<Object>, cache: Map<usize, u64>) -> bool {
    forall|a: usize|
        #[trigger] cache.contains_key(a) ==> a < objects.len() && cache[a] == pointer_hash(
            objects,
            Pointer(a),
        )
}

/// Creates an empty `FxHashMap` with `Default::default`.
#[verifier::external_body]
fn new_hash_cache() -> (res: FxHashMap<Pointer, u64>)
    ensures
        cached_hashes(res).dom().is_empty(),
{
    FxHashMap::default()
}

/// A cache that holds no hash yet, which every heap admits.
pub fn empty_hash_cache() -> (res: FxHashMap<Pointer, u64>)
    ensures
        cached_hashes(res).dom().is_empty(),
        forall|objects: Seq<Object>| cache_wf(objects, #[trigger] cached_hashes(res)),
{
    new_hash_cache()
}

/// Calls `HashMap::get`, which returns the hash cached for the pointer if
/// there is one; pointers are equal and hash alike exactly if their addresses
/// are equal.
#[verifier::external_body]
fn cached_hash(cache: &FxHashMap<Pointer, u64>, pointer: Pointer) -> (res: Option<u64>)
    ensures
        match res {
            Some(hash) => cached_hashes(*cache).contains_key(pointer.0) && cached_hashes(
                *cache,
            )[pointer.0] == hash,
            None => !cached_hashes(*cache).contains_key(pointer.0),
        },
{
    cache.get(&pointer).copied()
}

/// Calls `HashMap::insert`, after which the cache holds the hash for the
/// pointer and is otherwise unchanged.
#[verifier::external_body]
fn cache_hash(cache: &mut FxHashMap<Pointer, u64>, pointer: Pointer, hash: u64)
    ensures
        cached_hashes(*final(cache)) == cached_hashes(*old(cache)).insert(pointer.0, hash),
{
    cache.insert(pointer, hash);
}

// ----------------------------------------------------------------------------
// Hashing.

/// Every child of the data lies below `below`.
pub open spec fn children_below(data: Data, below: int) -> bool {
    forall|i: int|
        0 <= i < data_children(data).len() ==> (#[trigger] data_children(data)[i]).0 < below
}

impl Pointer {
    /// The hash of the value that the pointer denotes.
    pub fn hash(&self, heap: &Heap) -> (res: u64)
        requires
            heap_wf(heap.objects@),
            self.0 < heap.objects@.len(),
        ensures
            res == pointer_hash(heap.objects@, *self),
        decreases self.0 + 1, 1nat, 0nat,
    {
        let mut cache = new_hash_cache();
        self.hash_with_cache(heap, &mut cache)
    }

    /// The hash of the value that the pointer denotes; hashes that the cache
    /// holds are taken from it, and those computed are added to it.
    pub fn hash_with_cache(&self, heap: &Heap, cache: &mut FxHashMap<Pointer, u64>) -> (res: u64)
        requires
            heap_wf(heap.objects@),
            self.0 < heap.objects@.len(),
            cache_wf(heap.objects@, cached_hashes(*old(cache))),
        ensures
            res == pointer_hash(heap.objects@, *self),
            cache_wf(heap.objects@, cached_hashes(*final(cache))),
        decreases self.0 + 1, 0nat, 0nat,
    {
        if let Some(hash) = cached_hash(cache, *self) {
            return hash;
        }
        let data = &heap.get(*self).data;
        proof {
            assert forall|i: int| 0 <= i < data_children(*data).len() implies (
            #[trigger] data_children(*data)[i]).0 < self.0 by {
                assert(data_children(heap.objects@[self.0 as int].data)[i].0 < self.0);
            }
        }
        let hash = data.hash_below(heap, cache, Ghost(self.0 as int));
        cache_hash(cache, *self, hash);
        hash
    }
}

impl Data {
    /// The hash of the data.
    pub fn hash(&self, heap: &Heap) -> (res: u64)
        requires
            heap_wf(heap.objects@),
            children_below(*self, heap.objects@.len() as int),
        ensures
            res == data_hash(heap.objects@, *self),
    {
        let mut cache = new_hash_cache();
        self.hash_with_cache(heap, &mut cache)
    }

    /// The hash of the data; hashes that the cache holds are taken from it,
    /// and those computed are added to it.
    pub fn hash_with_cache(&self, heap: &Heap, cache: &mut FxHashMap<Pointer, u64>) -> (res: u64)
        requires
            heap_wf(heap.objects@),
            children_below(*self, heap.objects@.len() as int),
            cache_wf(heap.objects@, cached_hashes(*old(cache))),
        ensures
            res == data_hash(heap.objects@, *self),
            cache_wf(heap.objects@, cached_hashes(*final(cache))),
    {
        self.hash_below(heap, cache, Ghost(heap.objects@.len() as int))
    }

    fn hash_below(
        &self,
        heap: &Heap,
        cache: &mut FxHashMap<Pointer, u64>,
        Ghost(below): Ghost<int>,
    ) -> (res: u64)
        requires
            heap_wf(heap.objects@),
            0 <= below <= heap.objects@.len(),
            children_below(*self, below),
            cache_wf(heap.objects@, cached_hashes(*old(cache))),
        ensures
            res == DefaultHasher::spec_finish(data_hash_writes(heap.objects@, *self, below)),
            cache_wf(heap.objects@, cached_hashes(*final(cache))),
        decreases below, 2nat, 0nat,
    {
        let mut state = DefaultHasher::new();
        match self {
            Data::Int(number) => feed_bigint(&number.value, &mut state),
            Data::Text(text) => feed_text(&text.value, &mut state),
            Data::Symbol(symbol) => feed_text(&symbol.value, &mut state),
            Data::List(list) => {
                proof {
                    assert(data_children(*self) == list.items@);
                }
                feed_pointer_hashes(&list.items, heap, cache, &mut state, Ghost(below));
            },
            Data::Struct(s) => {
                let mut combined: u64 = 0;
                let mut i: usize = 0;
                while i < s.fields.len()
                    invariant
                        heap_wf(heap.objects@),
                        0 <= below <= heap.objects@.len(),
                        children_below(*self, below),
                        *self == Data::Struct(*s),
                        i <= s.fields@.len(),
                        combined == fields_hash(heap.objects@, s.fields@.take(i as int), below),
                    decreases s.fields@.len() - i,
                {
                    let (_, key, value) = s.fields[i];
                    proof {
                        crate::object::lemma_fields_children_at(s.fields@, i as int);
                        assert(data_children(*self)[2 * i] == key);
                        assert(data_children(*self)[2 * i + 1] == value);
                        assert(s.fields@.take(i + 1).drop_last() =~= s.fields@.take(i as int));
                    }
                    combined = combined ^ key.hash(heap);
                    combined = combined ^ value.hash(heap);
                    i = i + 1;
                }
                proof {
                    assert(s.fields@.take(s.fields@.len() as int) =~= s.fields@);
                }
                feed_u64(combined, &mut state);
            },
            Data::HirId(id) => feed_text(id, &mut state),
            Data::Closure(closure) => {
                proof {
                    assert(data_children(*self) == closure.captured@);
                }
                feed_pointer_hashes(&closure.captured, heap, cache, &mut state, Ghost(below));
                feed_u64(closure.num_args as u64, &mut state);
                feed_instructions(&closure.body, &mut state);
            },
            Data::Builtin(builtin) => feed_u64(builtin_number_of(&builtin.function), &mut state),
            Data::SendPort(port) => feed_u64(port.channel.0 as u64, &mut state),
            Data::ReceivePort(port) => feed_u64(port.channel.0 as u64, &mut state),
        }
        proof {
            assert(state@ =~= data_hash_writes(heap.objects@, *self, below));
        }
        state.finish()
    }
}

/// Feeds the hashes of the values the pointers denote into the hasher.
fn feed_pointer_hashes(
    pointers: &Vec<Pointer>,
    heap: &Heap,
    cache: &mut FxHashMap<Pointer, u64>,
    state: &mut DefaultHasher,
    Ghost(below): Ghost<int>,
)
    requires
        heap_wf(heap.objects@),
        0 <= below <= heap.objects@.len(),
        forall|i: int| 0 <= i < pointers@.len() ==> (#[trigger] pointers@[i]).0 < below,
        cache_wf(heap.objects@, cached_hashes(*old(cache))),
        old(state)@ == Seq::<Seq<u8>>::empty(),
    ensures
        final(state)@ == pointers_hash_writes(heap.objects@, pointers@, below),
        cache_wf(heap.objects@, cached_hashes(*final(cache))),
    decreases below, 1nat, 0nat,
{
    let mut i: usize = 0;
    while i < pointers.len()
        invariant
            heap_wf(heap.objects@),
            0 <= below <= heap.objects@.len(),
            forall|j: int| 0 <= j < pointers@.len() ==> (#[trigger] pointers@[j]).0 < below,
            cache_wf(heap.objects@, cached_hashes(*cache)),
            i <= pointers@.len(),
            state@ == pointers_hash_writes(heap.objects@, pointers@.take(i as int), below),
        decreases pointers@.len() - i,
    {
        let p = pointers[i];
        proof {
            assert(pointers@.take(i + 1).drop_last() =~= pointers@.take(i as int));
            assert(p.0 < below);
        }
        let hash = p.hash_with_cache(heap, cache);
        feed_u64(hash, state);
        i = i + 1;
    }
    proof {
        assert(pointers@.take(pointers@.len() as int) =~= pointers@);
    }
}

// ----------------------------------------------------------------------------
// Laws.

/// Equal values have equal hashes.
pub proof fn lemma_equal_values_hash_alike(objects: Seq<Object>, a: Pointer, b: Pointer)
    requires
        pointers_equal(objects, a, b),
    ensures
        pointer_hash(objects, a) == pointer_hash(objects, b),
    decreases a.0 + b.0 + 1, 0nat,
{
    if a != b {
        lemma_equal_data_hash_alike(
            objects,
            objects[a.0 as int].data,
            objects[b.0 as int].data,
            a.0 as int,
            b.0 as int,
        );
    }
}

/// Equal data feed the same into a hasher.
proof fn lemma_equal_data_hash_alike(objects: Seq<Object>, x: Data, y: Data, a: int, b: int)
    requires
        0 <= a && 0 <= b,
        data_equal(objects, x, y, a, b),
    ensures
        data_hash_writes(objects, x, a) == data_hash_writes(objects, y, b),
    decreases a + b, 2 * data_children(x).len() + 2,
{
    match (x, y) {
        (Data::List(p), Data::List(q)) => {
            lemma_equal_lists_hash_alike(objects, p.items@, q.items@, a, b);
        },
        (Data::Struct(p), Data::Struct(q)) => {
            lemma_fields_children_len(p.fields@);
            lemma_equal_fields_hash_alike(objects, p.fields@, q.fields@, a, b);
        },
        _ => {},
    }
}

/// Element-wise equal pointers feed the same into a hasher.
proof fn lemma_equal_lists_hash_alike(
    objects: Seq<Object>,
    p: Seq<Pointer>,
    q: Seq<Pointer>,
    a: int,
    b: int,
)
    requires
        0 <= a && 0 <= b,
        pointer_lists_equal(objects, p, q, a, b),
    ensures
        pointers_hash_writes(objects, p, a) == pointers_hash_writes(objects, q, b),
    decreases a + b, 2 * p.len() + 1,
{
    if p.len() > 0 {
        lemma_equal_lists_hash_alike(objects, p.drop_last(), q.drop_last(), a, b);
        lemma_equal_values_hash_alike(objects, p.last(), q.last());
    }
}

/// Fields with element-wise equal keys and values have equal combined
/// hashes.
proof fn lemma_equal_fields_hash_alike(
    objects: Seq<Object>,
    f: Seq<(u64, Pointer, Pointer)>,
    g: Seq<(u64, Pointer, Pointer)>,
    a: int,
    b: int,
)
    requires
        0 <= a && 0 <= b,
        f.len() == g.len(),
        pointer_lists_equal(objects, fields_children(f), fields_children(g), a, b),
    ensures
        fields_hash(objects, f, a) == fields_hash(objects, g, b),
    decreases a + b, 2 * fields_children(f).len() + 1,
{
    lemma_fields_children_len(f);
    lemma_fields_children_len(g);
    if f.len() > 0 {
        let cf = fields_children(f);
        let cg = fields_children(g);
        lemma_fields_children_len(f.drop_last());
        assert(cf.drop_last().drop_last() =~= fields_children(f.drop_last()));
        assert(cg.drop_last().drop_last() =~= fields_children(g.drop_last()));
        assert(cf.last() == f.last().2 && cf.drop_last().last() == f.last().1);
        assert(cg.last() == g.last().2 && cg.drop_last().last() == g.last().1);
        assert(pointer_lists_equal(objects, cf.drop_last(), cg.drop_last(), a, b));
        assert(pointer_lists_equal(
            objects,
            cf.drop_last().drop_last(),
            cg.drop_last().drop_last(),
            a,
            b,
        ));
        assert(f.last().1.0 < a && g.last().1.0 < b && f.last().2.0 < a && g.last().2.0 < b);
        lemma_equal_fields_hash_alike(objects, f.drop_last(), g.drop_last(), a, b);
        lemma_equal_values_hash_alike(objects, f.last().1, g.last().1);
        lemma_equal_values_hash_alike(objects, f.last().2, g.last().2);
    }
}

} // verus!
