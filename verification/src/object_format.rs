//! The text of a heap value.
//!
//! Ints show in decimal, texts in quotes, symbols as they are, lists in
//! parentheses (the empty list as `(,)`), and structs in brackets with their
//! fields ordered by the text of their keys. Closures show as `{…}`, or with
//! the pointer to them in the debug form.

use crate::builtin_functions::builtin_name;
use crate::chars::{decimal, decimal_text, lemma_decimal_injective};
use crate::object::{
    data_children, heap_wf, ChannelId, Data, Heap, Object, Pointer, ReceivePort, SendPort,
};
use crate::object_hash::children_below;
use itertools::Itertools;
use num_bigint::BigInt;
use std::cmp::Ordering;
use vstd::prelude::*;

verus! {

// ----------------------------------------------------------------------------
// The texts of ints, channels and pointers.

/// What num-bigint's `Display` of `BigInt` writes for the value.
pub uninterp spec fn bigint_decimal(value: BigInt) -> Seq<char>;

/// The text of a channel: the type's name and the channel's number.
pub open spec fn channel_debug_text(channel: usize) -> Seq<char> {
    "ChannelId("@ + decimal(channel as nat) + ")"@
}

/// The text of a pointer: the type's name and the address.
pub open spec fn pointer_debug_text(address: usize) -> Seq<char> {
    "Pointer("@ + decimal(address as nat) + ")"@
}

/// Formats the int with num-bigint's `Display`, which depends on the value
/// alone.
#[verifier::external_body]
fn bigint_text(value: &BigInt) -> (res: String)
    ensures
        res@ == bigint_decimal(*value),
{
    format!("{}", value)
}

/// The text of the channel, as its `Debug` form writes it.
fn channel_text(channel: ChannelId) -> (res: String)
    ensures
        res@ == channel_debug_text(channel.0),
{
    let mut res = String::from_str("ChannelId(");
    res.append(decimal_text(channel.0).as_str());
    res.append(")");
    res
}

/// The text of the pointer, as its `Debug` form writes it.
fn pointer_debug(pointer: Pointer) -> (res: String)
    ensures
        res@ == pointer_debug_text(pointer.0),
{
    let mut res = String::from_str("Pointer(");
    res.append(decimal_text(pointer.0).as_str());
    res.append(")");
    res
}

// ----------------------------------------------------------------------------
// Joining and ordering texts.

/// The texts with the separator between each two of them.
pub open spec fn joined(texts: Seq<Seq<char>>, separator: Seq<char>) -> Seq<char>
    decreases texts.len(),
{
    if texts.len() == 0 {
        Seq::empty()
    } else if texts.len() == 1 {
        texts[0]
    } else {
        joined(texts.drop_last(), separator) + separator + texts.last()
    }
}

/// Joins the texts with itertools' `join`, which writes the first text and
/// then, for each further one, the separator and the text (a `String`
/// displays as itself).
#[verifier::external_body]
fn itertools_join(texts: &Vec<String>, separator: &str) -> (res: String)
    ensures
        res@ == joined(texts@.map_values(|t: String| t@), separator@),
{
    texts.iter().join(separator)
}

/// Joins the texts with the separator between each two of them.
pub fn join_texts(texts: &Vec<String>, separator: &str) -> (res: String)
    ensures
        res@ == joined(texts@.map_values(|t: String| t@), separator@),
{
    itertools_join(texts, separator)
}

/// The text comes before the other in lexicographic order of code points
/// (the order of `String`s).
pub open spec fn text_less(a: Seq<char>, b: Seq<char>) -> bool
    decreases a.len(),
{
    if a.len() == 0 {
        b.len() > 0
    } else if b.len() == 0 {
        false
    } else if a[0] != b[0] {
        (a[0] as u32) < (b[0] as u32)
    } else {
        text_less(a.drop_first(), b.drop_first())
    }
}

/// Whether the text comes before the other.
fn text_less_exec(a: &str, b: &str) -> (res: bool)
    ensures
        res == text_less(a@, b@),
{
    let n = a.unicode_len();
    let m = b.unicode_len();
    let mut i: usize = 0;
    proof {
        assert(a@.skip(0) =~= a@ && b@.skip(0) =~= b@);
        assert(a@.take(0) =~= b@.take(0));
    }
    while i < n && i < m
        invariant
            n == a@.len(),
            m == b@.len(),
            i <= n && i <= m,
            a@.take(i as int) == b@.take(i as int),
            text_less(a@, b@) == text_less(a@.skip(i as int), b@.skip(i as int)),
        decreases n - i,
    {
        let x = a.get_char(i);
        let y = b.get_char(i);
        proof {
            assert(a@.skip(i as int)[0] == x && b@.skip(i as int)[0] == y);
            assert(a@.skip(i as int).drop_first() =~= a@.skip(i + 1));
            assert(b@.skip(i as int).drop_first() =~= b@.skip(i + 1));
        }
        if x != y {
            return (x as u32) < (y as u32);
        }
        i = i + 1;
        proof {
            assert(a@.take(i as int) =~= a@.take(i - 1).push(x));
            assert(b@.take(i as int) =~= b@.take(i - 1).push(y));
        }
    }
    i < m
}

/// A key's text and its value's text.
pub type EntryText = (Seq<char>, Seq<char>);

/// Puts the entry after the last of the (ordered) entries whose key does
/// not come after its key.
pub open spec fn insert_entry(entry: EntryText, sorted: Seq<EntryText>) -> Seq<EntryText>
    decreases sorted.len(),
{
    if sorted.len() == 0 {
        seq![entry]
    } else if text_less(entry.0, sorted.last().0) {
        insert_entry(entry, sorted.drop_last()).push(sorted.last())
    } else {
        sorted.push(entry)
    }
}

/// The entries ordered by key, entries with equal keys in their order (a
/// stable sort, as itertools' `sorted_by` does).
pub open spec fn sort_entries(entries: Seq<EntryText>) -> Seq<EntryText>
    decreases entries.len(),
{
    if entries.len() == 0 {
        Seq::empty()
    } else {
        insert_entry(entries.last(), sort_entries(entries.drop_last()))
    }
}

/// The texts of the entries.
pub open spec fn entry_views(entries: Seq<(String, String)>) -> Seq<EntryText> {
    entries.map_values(|e: (String, String)| (e.0@, e.1@))
}

/// No text comes before a text that comes before it.
proof fn lemma_text_less_asymmetric(a: Seq<char>, b: Seq<char>)
    ensures
        text_less(a, b) ==> !text_less(b, a),
    decreases a.len(),
{
    if a.len() > 0 && b.len() > 0 && a[0] == b[0] {
        lemma_text_less_asymmetric(a.drop_first(), b.drop_first());
    }
}

/// How the entries' keys compare: by the order of texts.
fn compare_keys(a: &(String, String), b: &(String, String)) -> (res: Ordering)
    ensures
        (res == Ordering::Less) == text_less(a.0@, b.0@),
        (res == Ordering::Greater) == text_less(b.0@, a.0@),
{
    proof {
        lemma_text_less_asymmetric(a.0@, b.0@);
    }
    if text_less_exec(a.0.as_str(), b.0.as_str()) {
        Ordering::Less
    } else if text_less_exec(b.0.as_str(), a.0.as_str()) {
        Ordering::Greater
    } else {
        Ordering::Equal
    }
}

/// Sorts the entries by key with itertools' `sorted_by`, which collects them
/// and sorts them stably with the comparison: entries whose keys compare
/// equal keep their order. The result is thus the stable sort that
/// `sort_entries` describes.
#[verifier::external_body]
fn sort_entries_exec(entries: Vec<(String, String)>) -> (res: Vec<(String, String)>)
    ensures
        entry_views(res@) == sort_entries(entry_views(entries@)),
{
    entries.into_iter().sorted_by(|a, b| compare_keys(a, b)).collect()
}

// ----------------------------------------------------------------------------
// The text of a value.

/// The text of the value that the pointer denotes; `is_debug` selects the
/// debug form.
pub open spec fn pointer_text(objects: Seq<Object>, p: Pointer, is_debug: bool) -> Seq<char>
    decreases p.0 + 1, 0nat, 0nat,
{
    if p.0 < objects.len() {
        data_text(objects, objects[p.0 as int].data, p, is_debug, p.0 as int)
    } else {
        Seq::empty()
    }
}

/// The text of the data of the object at `this`, whose children lie below
/// `below`.
pub open spec fn data_text(
    objects: Seq<Object>,
    data: Data,
    this: Pointer,
    is_debug: bool,
    below: int,
) -> Seq<char>
    decreases below, 2nat, 0nat,
{
    match data {
        Data::Int(number) => bigint_decimal(number.value),
        Data::Text(text) => "\""@ + text.value@ + "\""@,
        Data::Symbol(symbol) => symbol.value@,
        Data::List(list) => "("@ + (if list.items@.len() == 0 {
            ","@
        } else {
            joined(pointer_texts(objects, list.items@, is_debug, below), ", "@)
        }) + ")"@,
        Data::Struct(s) => "["@ + joined(
            entry_lines(sort_entries(field_texts(objects, s.fields@, is_debug, below))),
            ", "@,
        ) + "]"@,
        Data::HirId(id) => id@,
        Data::Closure(_) => if is_debug {
            "{"@ + pointer_debug_text(this.0) + "}"@
        } else {
            "{…}"@
        },
        Data::Builtin(builtin) => "builtin"@ + builtin_name(builtin.function),
        Data::SendPort(port) => "sendPort "@ + channel_debug_text(port.channel.0),
        Data::ReceivePort(port) => "receivePort "@ + channel_debug_text(port.channel.0),
    }
}

/// The texts of the values the pointers denote.
pub open spec fn pointer_texts(
    objects: Seq<Object>,
    pointers: Seq<Pointer>,
    is_debug: bool,
    below: int,
) -> Seq<Seq<char>>
    decreases below, 1nat, pointers.len(),
{
    if pointers.len() == 0 {
        Seq::empty()
    } else {
        let p = pointers.last();
        pointer_texts(objects, pointers.drop_last(), is_debug, below).push(
            if 0 <= p.0 < below {
                pointer_text(objects, p, is_debug)
            } else {
                Seq::empty()
            },
        )
    }
}

/// The texts of the fields' keys and values.
pub open spec fn field_texts(
    objects: Seq<Object>,
    fields: Seq<(u64, Pointer, Pointer)>,
    is_debug: bool,
    below: int,
) -> Seq<EntryText>
    decreases below, 1nat, fields.len(),
{
    if fields.len() == 0 {
        Seq::empty()
    } else {
        let (_, key, value) = fields.last();
        field_texts(objects, fields.drop_last(), is_debug, below).push(
            if 0 <= key.0 < below && 0 <= value.0 < below {
                (pointer_text(objects, key, is_debug), pointer_text(objects, value, is_debug))
            } else {
                (Seq::empty(), Seq::empty())
            },
        )
    }
}

/// Each entry as `key: value`.
pub open spec fn entry_lines(entries: Seq<EntryText>) -> Seq<Seq<char>> {
    entries.map_values(|e: EntryText| e.0 + ": "@ + e.1)
}

/// Each entry as `key: value`.
fn entry_lines_exec(entries: &Vec<(String, String)>) -> (res: Vec<String>)
    ensures
        res@.map_values(|t: String| t@) == entry_lines(entry_views(entries@)),
{
    let mut res: Vec<String> = Vec::new();
    let mut i: usize = 0;
    while i < entries.len()
        invariant
            i <= entries@.len(),
            res@.len() == i,
            forall|t: int|
                0 <= t < i ==> (#[trigger] res@[t])@ == entries@[t].0@ + ": "@ + entries@[t].1@,
        decreases entries@.len() - i,
    {
        let mut line = String::from_str(entries[i].0.as_str());
        line.append(": ");
        line.append(entries[i].1.as_str());
        res.push(line);
        i = i + 1;
    }
    proof {
        assert(res@.map_values(|t: String| t@) =~= entry_lines(entry_views(entries@)));
    }
    res
}

impl Pointer {
    /// The text of the value that the pointer denotes.
    pub fn format(&self, heap: &Heap) -> (res: String)
        requires
            heap_wf(heap.objects@),
            self.0 < heap.objects@.len(),
        ensures
            res@ == pointer_text(heap.objects@, *self, false),
    {
        self.format_helper(heap, false)
    }

    /// The debug text of the value that the pointer denotes: closures show
    /// the pointer to them.
    pub fn format_debug(&self, heap: &Heap) -> (res: String)
        requires
            heap_wf(heap.objects@),
            self.0 < heap.objects@.len(),
        ensures
            res@ == pointer_text(heap.objects@, *self, true),
    {
        self.format_helper(heap, true)
    }

    fn format_helper(&self, heap: &Heap, is_debug: bool) -> (res: String)
        requires
            heap_wf(heap.objects@),
            self.0 < heap.objects@.len(),
        ensures
            res@ == pointer_text(heap.objects@, *self, is_debug),
        decreases self.0 + 1, 0nat, 0nat,
    {
        let data = &heap.get(*self).data;
        proof {
            assert forall|i: int| 0 <= i < data_children(*data).len() implies (
            #[trigger] data_children(*data)[i]).0 < self.0 by {
                assert(data_children(heap.objects@[self.0 as int].data)[i].0 < self.0);
            }
        }
        match data {
            Data::Int(number) => bigint_text(&number.value),
            Data::Text(text) => {
                let mut res = String::from_str("\"");
                res.append(text.value.as_str());
                res.append("\"");
                res
            },
            Data::Symbol(symbol) => String::from_str(symbol.value.as_str()),
            Data::List(list) => {
                let mut res = String::from_str("(");
                if list.items.len() == 0 {
                    res.append(",");
                } else {
                    proof {
                        assert(data_children(*data) == list.items@);
                    }
                    let texts = format_pointers(&list.items, heap, is_debug, Ghost(self.0 as int));
                    let inner = join_texts(&texts, ", ");
                    res.append(inner.as_str());
                }
                res.append(")");
                res
            },
            Data::Struct(s) => {
                let entries = format_fields(&s.fields, heap, is_debug, Ghost(self.0 as int), Ghost(*data));
                let sorted = sort_entries_exec(entries);
                let lines = entry_lines_exec(&sorted);
                let mut res = String::from_str("[");
                let inner = join_texts(&lines, ", ");
                res.append(inner.as_str());
                res.append("]");
                res
            },
            Data::HirId(id) => String::from_str(id.as_str()),
            Data::Closure(_) => {
                if is_debug {
                    let mut res = String::from_str("{");
                    let pointer = pointer_debug(*self);
                    res.append(pointer.as_str());
                    res.append("}");
                    res
                } else {
                    String::from_str("{…}")
                }
            },
            Data::Builtin(builtin) => {
                let mut res = String::from_str("builtin");
                let name = builtin.function.name();
                res.append(name.as_str());
                res
            },
            Data::SendPort(port) => {
                let mut res = String::from_str("sendPort ");
                let channel = channel_text(port.channel);
                res.append(channel.as_str());
                res
            },
            Data::ReceivePort(port) => {
                let mut res = String::from_str("receivePort ");
                let channel = channel_text(port.channel);
                res.append(channel.as_str());
                res
            },
        }
    }
}

/// The texts of the values the pointers denote.
fn format_pointers(
    pointers: &Vec<Pointer>,
    heap: &Heap,
    is_debug: bool,
    Ghost(below): Ghost<int>,
) -> (res: Vec<String>)
    requires
        heap_wf(heap.objects@),
        0 <= below <= heap.objects@.len(),
        forall|i: int| 0 <= i < pointers@.len() ==> (#[trigger] pointers@[i]).0 < below,
    ensures
        res@.map_values(|t: String| t@) == pointer_texts(heap.objects@, pointers@, is_debug, below),
    decreases below, 1nat, 0nat,
{
    let mut res: Vec<String> = Vec::new();
    let mut i: usize = 0;
    while i < pointers.len()
        invariant
            heap_wf(heap.objects@),
            0 <= below <= heap.objects@.len(),
            forall|j: int| 0 <= j < pointers@.len() ==> (#[trigger] pointers@[j]).0 < below,
            i <= pointers@.len(),
            res@.map_values(|t: String| t@) == pointer_texts(
                heap.objects@,
                pointers@.take(i as int),
                is_debug,
                below,
            ),
        decreases pointers@.len() - i,
    {
        let p = pointers[i];
        proof {
            assert(pointers@.take(i + 1).drop_last() =~= pointers@.take(i as int));
            assert(p.0 < below);
        }
        let text = p.format_helper(heap, is_debug);
        let ghost before = res@;
        res.push(text);
        i = i + 1;
        proof {
            assert(res@.map_values(|t: String| t@) =~= before.map_values(|t: String| t@).push(
                text@,
            ));
        }
    }
    proof {
        assert(pointers@.take(pointers@.len() as int) =~= pointers@);
    }
    res
}

/// The texts of the fields' keys and values.
fn format_fields(
    fields: &Vec<(u64, Pointer, Pointer)>,
    heap: &Heap,
    is_debug: bool,
    Ghost(below): Ghost<int>,
    Ghost(data): Ghost<Data>,
) -> (res: Vec<(String, String)>)
    requires
        heap_wf(heap.objects@),
        0 <= below <= heap.objects@.len(),
        data == Data::Struct(crate::object::Struct { fields: *fields }),
        children_below(data, below),
    ensures
        entry_views(res@) == field_texts(heap.objects@, fields@, is_debug, below),
    decreases below, 1nat, 0nat,
{
    let mut res: Vec<(String, String)> = Vec::new();
    let mut i: usize = 0;
    while i < fields.len()
        invariant
            heap_wf(heap.objects@),
            0 <= below <= heap.objects@.len(),
            data == Data::Struct(crate::object::Struct { fields: *fields }),
            children_below(data, below),
            i <= fields@.len(),
            entry_views(res@) == field_texts(heap.objects@, fields@.take(i as int), is_debug, below),
        decreases fields@.len() - i,
    {
        let (_, key, value) = fields[i];
        proof {
            crate::object::lemma_fields_children_at(fields@, i as int);
            assert(data_children(data)[2 * i] == key);
            assert(data_children(data)[2 * i + 1] == value);
            assert(fields@.take(i + 1).drop_last() =~= fields@.take(i as int));
        }
        let key_text = key.format_helper(heap, is_debug);
        let value_text = value.format_helper(heap, is_debug);
        let ghost before = res@;
        res.push((key_text, value_text));
        i = i + 1;
        proof {
            assert(entry_views(res@) =~= entry_views(before).push((key_text@, value_text@)));
        }
    }
    proof {
        assert(fields@.take(fields@.len() as int) =~= fields@);
    }
    res
}

/// Formatting tells ports apart: the text of a receive port starts with
/// `receivePort `, that of a send port with `sendPort `, so no receive port
/// reads like a send port; and ports of different channels read
/// differently.
pub proof fn lemma_port_texts(
    objects: Seq<Object>,
    p: ReceivePort,
    q: SendPort,
    this: Pointer,
    other: Pointer,
    is_debug: bool,
    other_debug: bool,
    below: int,
    other_below: int,
)
    ensures
        data_text(objects, Data::ReceivePort(p), this, is_debug, below).take(12) == "receivePort "@,
        data_text(objects, Data::SendPort(q), this, is_debug, below).take(9) == "sendPort "@,
        data_text(objects, Data::ReceivePort(p), this, is_debug, below) != data_text(
            objects,
            Data::SendPort(q),
            other,
            other_debug,
            other_below,
        ),
        data_text(objects, Data::ReceivePort(p), this, is_debug, below) == data_text(
            objects,
            Data::ReceivePort(ReceivePort { channel: q.channel }),
            other,
            other_debug,
            other_below,
        ) ==> p.channel == q.channel,
        data_text(objects, Data::SendPort(q), this, is_debug, below) == data_text(
            objects,
            Data::SendPort(SendPort { channel: p.channel }),
            other,
            other_debug,
            other_below,
        ) ==> p.channel == q.channel,
{
    reveal_strlit("receivePort ");
    reveal_strlit("sendPort ");
    reveal_strlit("ChannelId(");
    reveal_strlit(")");
    let r = data_text(objects, Data::ReceivePort(p), this, is_debug, below);
    let s = data_text(objects, Data::SendPort(q), other, other_debug, other_below);
    assert(r.take(12) =~= "receivePort "@);
    assert(data_text(objects, Data::SendPort(q), this, is_debug, below).take(9) =~= "sendPort "@);
    assert(r[0] == 'r' && s[0] == 's');
    lemma_channel_text_injective(p.channel.0, q.channel.0, "receivePort "@);
    lemma_channel_text_injective(q.channel.0, p.channel.0, "sendPort "@);
}

/// The prefix followed by the texts of two channels reads alike only for the
/// same channel.
proof fn lemma_channel_text_injective(c: usize, d: usize, prefix: Seq<char>)
    ensures
        prefix + channel_debug_text(c) == prefix + channel_debug_text(d) ==> c == d,
{
    reveal_strlit("ChannelId(");
    reveal_strlit(")");
    if prefix + channel_debug_text(c) == prefix + channel_debug_text(d) {
        let x = decimal(c as nat);
        let y = decimal(d as nat);
        let a = prefix + ("ChannelId("@ + x + ")"@);
        let b = prefix + ("ChannelId("@ + y + ")"@);
        assert(prefix + channel_debug_text(c) =~= a);
        assert(prefix + channel_debug_text(d) =~= b);
        assert(a.len() == b.len());
        let k: int = prefix.len() as int + 10;
        assert(a.subrange(k, a.len() - 1) =~= x);
        assert(b.subrange(k, b.len() - 1) =~= y);
        lemma_decimal_injective(c as nat, d as nat);
    }
}

} // verus!
