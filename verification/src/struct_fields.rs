//! A struct's fields as a map from values to values.
//!
//! A struct keeps its fields ordered by the hashes of their keys. To find a
//! key, it finds the run of fields whose hash is the key's and looks there
//! for a key that denotes a value equal to it.

use crate::object::{
    heap_wf, lemma_pointers_equal_symmetric, lemma_pointers_equal_transitive, pointer_map_entries,
    pointers_equal, Heap, Object, Pointer, Struct,
};
use rustc_hash::FxHashMap;
use crate::object_hash::{lemma_equal_values_hash_alike, pointer_hash};
use vstd::prelude::*;

verus! {

/// A field: the hash of its key, its key, and its value.
pub type Field = (u64, Pointer, Pointer);

/// The fields are ordered by hash, each field's hash is that of its key, and
/// keys and values lie on the heap.
pub open spec fn struct_wf(objects: Seq<Object>, fields: Seq<Field>) -> bool {
    &&& forall|i: int, j: int|
        0 <= i <= j < fields.len() ==> (#[trigger] fields[i]).0 <= (#[trigger] fields[j]).0
    &&& forall|i: int|
        0 <= i < fields.len() ==> {
            &&& (#[trigger] fields[i]).1.0 < objects.len()
            &&& fields[i].2.0 < objects.len()
            &&& fields[i].0 == pointer_hash(objects, fields[i].1)
        }
}

/// The fields before `p` have hashes below `hash`, the others do not.
pub open spec fn is_hash_boundary(fields: Seq<Field>, hash: u64, p: int) -> bool {
    &&& 0 <= p <= fields.len()
    &&& forall|i: int| 0 <= i < p ==> (#[trigger] fields[i]).0 < hash
    &&& forall|i: int| p <= i < fields.len() ==> (#[trigger] fields[i]).0 >= hash
}

/// Where the run of fields with the hash starts (or would start).
pub open spec fn hash_boundary(fields: Seq<Field>, hash: u64) -> int {
    choose|p: int| is_hash_boundary(fields, hash, p)
}

/// The first field from index `i` on, within the run of fields with the
/// hash, whose key denotes a value equal to the key's.
pub open spec fn first_equal_key(
    objects: Seq<Object>,
    fields: Seq<Field>,
    key: Pointer,
    hash: u64,
    i: int,
) -> Option<int>
    decreases fields.len() - i,
{
    if 0 <= i < fields.len() && fields[i].0 == hash {
        if pointers_equal(objects, fields[i].1, key) {
            Some(i)
        } else {
            first_equal_key(objects, fields, key, hash, i + 1)
        }
    } else {
        None
    }
}

/// The index of the key's field if the struct has one (`Ok`), else where a
/// field for it goes (`Err`), when the key hashes to `hash`.
pub open spec fn key_index_for_hash(
    objects: Seq<Object>,
    fields: Seq<Field>,
    key: Pointer,
    hash: u64,
) -> Result<int, int> {
    let start = hash_boundary(fields, hash);
    match first_equal_key(objects, fields, key, hash, start) {
        Some(i) => Ok(i),
        None => Err(start),
    }
}

/// The index of the key's field if the struct has one (`Ok`), else where a
/// field for it goes (`Err`).
pub open spec fn key_index(objects: Seq<Object>, fields: Seq<Field>, key: Pointer) -> Result<
    int,
    int,
> {
    key_index_for_hash(objects, fields, key, pointer_hash(objects, key))
}

/// The value of the key's field, if there is one.
pub open spec fn struct_get(objects: Seq<Object>, fields: Seq<Field>, key: Pointer) -> Option<
    Pointer,
> {
    match key_index(objects, fields, key) {
        Ok(i) => Some(fields[i].2),
        Err(_) => None,
    }
}

/// The fields after setting the key's value: the key's field is replaced if
/// there is one, else a field for it is added where it belongs.
pub open spec fn struct_insert(
    objects: Seq<Object>,
    fields: Seq<Field>,
    key: Pointer,
    value: Pointer,
) -> Seq<Field> {
    let field = (pointer_hash(objects, key), key, value);
    match key_index(objects, fields, key) {
        Ok(i) => fields.update(i, field),
        Err(i) => fields.insert(i, field),
    }
}

// ----------------------------------------------------------------------------
// The boundary of a run of hashes.

/// Fields ordered by hash have exactly one boundary for each hash.
proof fn lemma_hash_boundary(fields: Seq<Field>, hash: u64, p: int)
    requires
        forall|i: int, j: int|
            0 <= i <= j < fields.len() ==> (#[trigger] fields[i]).0 <= (#[trigger] fields[j]).0,
        is_hash_boundary(fields, hash, p),
    ensures
        hash_boundary(fields, hash) == p,
{
    let q = hash_boundary(fields, hash);
    assert(is_hash_boundary(fields, hash, q));
    if q < p {
        assert(fields[q].0 >= hash);
        assert(fields[q].0 < hash);
    } else if p < q {
        assert(fields[p].0 >= hash);
        assert(fields[p].0 < hash);
    }
}

/// Fields ordered by hash have a boundary for every hash.
proof fn lemma_hash_boundary_exists(fields: Seq<Field>, hash: u64)
    requires
        forall|i: int, j: int|
            0 <= i <= j < fields.len() ==> (#[trigger] fields[i]).0 <= (#[trigger] fields[j]).0,
    ensures
        is_hash_boundary(fields, hash, hash_boundary(fields, hash)),
    decreases fields.len(),
{
    if fields.len() == 0 {
        assert(is_hash_boundary(fields, hash, 0));
    } else {
        let rest = fields.drop_last();
        assert forall|i: int, j: int| 0 <= i <= j < rest.len() implies (#[trigger] rest[i]).0
            <= (#[trigger] rest[j]).0 by {
            assert(rest[i] == fields[i] && rest[j] == fields[j]);
        }
        lemma_hash_boundary_exists(rest, hash);
        let p = hash_boundary(rest, hash);
        if fields.last().0 < hash {
            assert forall|i: int| 0 <= i < fields.len() implies (#[trigger] fields[i]).0 < hash by {
                assert(fields[i].0 <= fields[fields.len() - 1].0);
            }
            assert(is_hash_boundary(fields, hash, fields.len() as int));
        } else {
            assert forall|i: int| 0 <= i < p implies (#[trigger] fields[i]).0 < hash by {
                assert(rest[i] == fields[i]);
            }
            assert forall|i: int| p <= i < fields.len() implies (#[trigger] fields[i]).0 >= hash by {
                if i < fields.len() - 1 {
                    assert(rest[i] == fields[i]);
                }
            }
            assert(is_hash_boundary(fields, hash, p));
        }
    }
}

// ----------------------------------------------------------------------------
// Searching and changing the fields.

impl Struct {
    /// If the struct contains the key, returns the index of its field.
    /// Otherwise, returns the index of where the key would be inserted.
    fn index_of_key(&self, heap: &Heap, key: Pointer, key_hash: u64) -> (res: Result<usize, usize>)
        requires
            heap_wf(heap.objects@),
            key.0 < heap.objects@.len(),
            struct_wf(heap.objects@, self.fields@),
        ensures
            match res {
                Ok(i) => i < self.fields@.len() && key_index_for_hash(
                    heap.objects@,
                    self.fields@,
                    key,
                    key_hash,
                ) == Ok::<int, int>(i as int),
                Err(i) => i <= self.fields@.len() && key_index_for_hash(
                    heap.objects@,
                    self.fields@,
                    key,
                    key_hash,
                ) == Err::<int, int>(i as int),
            },
    {
        let ghost fields = self.fields@;
        let mut low: usize = 0;
        let mut high: usize = self.fields.len();
        while low < high
            invariant
                fields == self.fields@,
                0 <= low <= high <= fields.len(),
                forall|i: int| 0 <= i < low ==> (#[trigger] fields[i]).0 < key_hash,
                forall|i: int| high <= i < fields.len() ==> (#[trigger] fields[i]).0 >= key_hash,
                forall|i: int, j: int|
                    0 <= i <= j < fields.len() ==> (#[trigger] fields[i]).0 <= (
                    #[trigger] fields[j]).0,
            decreases high - low,
        {
            let middle = low + (high - low) / 2;
            if self.fields[middle].0 < key_hash {
                proof {
                    assert forall|i: int| 0 <= i < middle + 1 implies (#[trigger] fields[i]).0
                        < key_hash by {
                        if i < low {
                        } else {
                            assert(fields[i].0 <= fields[middle as int].0);
                        }
                    }
                }
                low = middle + 1;
            } else {
                proof {
                    assert forall|i: int| middle <= i < fields.len() implies (
                    #[trigger] fields[i]).0 >= key_hash by {
                        assert(fields[middle as int].0 <= fields[i].0);
                    }
                }
                high = middle;
            }
        }
        let start = low;
        proof {
            assert(is_hash_boundary(fields, key_hash, start as int));
            lemma_hash_boundary(fields, key_hash, start as int);
        }
        let mut i = start;
        while i < self.fields.len() && self.fields[i].0 == key_hash
            invariant
                fields == self.fields@,
                heap_wf(heap.objects@),
                key.0 < heap.objects@.len(),
                struct_wf(heap.objects@, fields),
                start <= i <= fields.len(),
                start == hash_boundary(fields, key_hash),
                first_equal_key(heap.objects@, fields, key, key_hash, start as int)
                    == first_equal_key(heap.objects@, fields, key, key_hash, i as int),
            decreases fields.len() - i,
        {
            if self.fields[i].1.equals(heap, key) {
                return Ok(i);
            }
            i = i + 1;
        }
        Err(start)
    }

    /// Sets the key's value: replaces the key's field if there is one, else
    /// adds a field for it where it belongs.
    pub fn insert(&mut self, heap: &Heap, key: Pointer, value: Pointer)
        requires
            heap_wf(heap.objects@),
            key.0 < heap.objects@.len(),
            value.0 < heap.objects@.len(),
            struct_wf(heap.objects@, old(self).fields@),
        ensures
            final(self).fields@ == struct_insert(heap.objects@, old(self).fields@, key, value),
            struct_wf(heap.objects@, final(self).fields@),
            keys_distinct(heap.objects@, old(self).fields@) ==> keys_distinct(
                heap.objects@,
                final(self).fields@,
            ),
    {
        let hash = key.hash(heap);
        let field = (hash, key, value);
        proof {
            lemma_insert_wf(heap.objects@, self.fields@, key, value);
            if keys_distinct(heap.objects@, self.fields@) {
                lemma_insert_keeps_keys_distinct(heap.objects@, self.fields@, key, value);
            }
        }
        match self.index_of_key(heap, key, hash) {
            Ok(index) => self.fields.set(index, field),
            Err(index) => self.fields.insert(index, field),
        }
    }

    /// The value of the key's field, if there is one.
    pub fn get(&self, heap: &Heap, key: Pointer) -> (res: Option<Pointer>)
        requires
            heap_wf(heap.objects@),
            key.0 < heap.objects@.len(),
            struct_wf(heap.objects@, self.fields@),
        ensures
            res == struct_get(heap.objects@, self.fields@, key),
    {
        match self.index_of_key(heap, key, key.hash(heap)) {
            Ok(index) => Some(self.fields[index].2),
            Err(_) => None,
        }
    }
}

// ----------------------------------------------------------------------------
// Laws.

/// What `first_equal_key` finds lies in the run, has an equal key, and no
/// field before it in the run has one.
proof fn lemma_first_equal_key(
    objects: Seq<Object>,
    fields: Seq<Field>,
    key: Pointer,
    hash: u64,
    i: int,
)
    ensures
        match first_equal_key(objects, fields, key, hash, i) {
            Some(j) => {
                &&& i <= j < fields.len()
                &&& 0 <= i
                &&& fields[j].0 == hash
                &&& pointers_equal(objects, fields[j].1, key)
                &&& forall|t: int|
                    i <= t < j ==> (#[trigger] fields[t]).0 == hash && !pointers_equal(
                        objects,
                        fields[t].1,
                        key,
                    )
            },
            None => true,
        },
    decreases fields.len() - i,
{
    if 0 <= i < fields.len() && fields[i].0 == hash && !pointers_equal(objects, fields[i].1, key) {
        lemma_first_equal_key(objects, fields, key, hash, i + 1);
    }
}

/// Two field lists that agree from `i` up to `j` (exclusive), where the
/// fields before `j` are in the run but have no equal key and the field at
/// `j` is in the run with an equal key, find the same field.
proof fn lemma_first_equal_key_at(
    objects: Seq<Object>,
    fields: Seq<Field>,
    key: Pointer,
    hash: u64,
    i: int,
    j: int,
)
    requires
        0 <= i <= j < fields.len(),
        fields[j].0 == hash,
        pointers_equal(objects, fields[j].1, key),
        forall|t: int|
            i <= t < j ==> (#[trigger] fields[t]).0 == hash && !pointers_equal(
                objects,
                fields[t].1,
                key,
            ),
    ensures
        first_equal_key(objects, fields, key, hash, i) == Some(j),
    decreases j - i,
{
    if i < j {
        lemma_first_equal_key_at(objects, fields, key, hash, i + 1, j);
    }
}

/// No two fields have keys that denote equal values.
pub open spec fn keys_distinct(objects: Seq<Object>, fields: Seq<Field>) -> bool {
    forall|i: int, j: int|
        0 <= i < j < fields.len() ==> !pointers_equal(
            objects,
            (#[trigger] fields[i]).1,
            (#[trigger] fields[j]).1,
        )
}

/// When the search from `i` finds no equal key, no field of the run from `i`
/// up to `j` has one.
proof fn lemma_first_equal_key_none(
    objects: Seq<Object>,
    fields: Seq<Field>,
    key: Pointer,
    hash: u64,
    i: int,
    j: int,
)
    requires
        first_equal_key(objects, fields, key, hash, i) is None,
        0 <= i <= j < fields.len(),
        forall|t: int| i <= t <= j ==> (#[trigger] fields[t]).0 == hash,
    ensures
        !pointers_equal(objects, fields[j].1, key),
    decreases j - i,
{
    assert(fields[i].0 == hash);
    if i < j {
        lemma_first_equal_key_none(objects, fields, key, hash, i + 1, j);
    }
}

/// Setting a key's value never makes two fields with equal keys: where the
/// struct had no two, it has none after.
pub proof fn lemma_insert_keeps_keys_distinct(
    objects: Seq<Object>,
    fields: Seq<Field>,
    key: Pointer,
    value: Pointer,
)
    requires
        struct_wf(objects, fields),
        keys_distinct(objects, fields),
        key.0 < objects.len(),
        value.0 < objects.len(),
    ensures
        keys_distinct(objects, struct_insert(objects, fields, key, value)),
{
    let hash = pointer_hash(objects, key);
    lemma_hash_boundary_exists(fields, hash);
    let start = hash_boundary(fields, hash);
    lemma_first_equal_key(objects, fields, key, hash, start);
    let result = struct_insert(objects, fields, key, value);
    match key_index(objects, fields, key) {
        Ok(k) => {
            assert forall|a: int, b: int| 0 <= a < b < result.len() implies !pointers_equal(
                objects,
                (#[trigger] result[a]).1,
                (#[trigger] result[b]).1,
            ) by {
                if a == k {
                    if pointers_equal(objects, key, fields[b].1) {
                        lemma_pointers_equal_transitive(objects, fields[k].1, key, fields[b].1);
                    }
                } else if b == k {
                    if pointers_equal(objects, fields[a].1, key) {
                        lemma_pointers_equal_symmetric(objects, fields[k].1, key);
                        lemma_pointers_equal_transitive(objects, fields[a].1, key, fields[k].1);
                    }
                } else {
                    assert(result[a] == fields[a] && result[b] == fields[b]);
                }
            }
        },
        Err(s) => {
            assert(s == start);
            assert forall|x: int| 0 <= x < fields.len() implies !pointers_equal(
                objects,
                (#[trigger] fields[x]).1,
                key,
            ) && !pointers_equal(objects, key, fields[x].1) by {
                lemma_pointers_equal_symmetric(objects, fields[x].1, key);
                if pointers_equal(objects, fields[x].1, key) {
                    lemma_equal_values_hash_alike(objects, fields[x].1, key);
                    assert(fields[x].0 == hash);
                    assert forall|t: int| start <= t <= x implies (#[trigger] fields[t]).0 == hash by {
                        assert(fields[t].0 <= fields[x].0);
                    }
                    lemma_first_equal_key_none(objects, fields, key, hash, start, x);
                }
            }
            assert forall|a: int, b: int| 0 <= a < b < result.len() implies !pointers_equal(
                objects,
                (#[trigger] result[a]).1,
                (#[trigger] result[b]).1,
            ) by {
                if a == s {
                    assert(result[b] == fields[b - 1]);
                } else if b == s {
                    assert(result[a] == fields[a]);
                } else if b < s {
                    assert(result[a] == fields[a] && result[b] == fields[b]);
                } else if a < s {
                    assert(result[a] == fields[a] && result[b] == fields[b - 1]);
                } else {
                    assert(result[a] == fields[a - 1] && result[b] == fields[b - 1]);
                }
            }
        },
    }
}

/// Setting a key's value keeps the fields well-formed.
pub proof fn lemma_insert_wf(objects: Seq<Object>, fields: Seq<Field>, key: Pointer, value: Pointer)
    requires
        struct_wf(objects, fields),
        key.0 < objects.len(),
        value.0 < objects.len(),
    ensures
        struct_wf(objects, struct_insert(objects, fields, key, value)),
{
    let hash = pointer_hash(objects, key);
    lemma_hash_boundary_exists(fields, hash);
    let start = hash_boundary(fields, hash);
    lemma_first_equal_key(objects, fields, key, hash, start);
    let result = struct_insert(objects, fields, key, value);
    match key_index(objects, fields, key) {
        Ok(i) => {
            assert(fields[i].0 == hash);
            assert forall|a: int, b: int| 0 <= a <= b < result.len() implies (#[trigger] result[a]).0
                <= (#[trigger] result[b]).0 by {
                assert(fields[a].0 <= fields[b].0);
            }
        },
        Err(i) => {
            assert forall|a: int, b: int| 0 <= a <= b < result.len() implies (#[trigger] result[a]).0
                <= (#[trigger] result[b]).0 by {
                if a < i && b > i {
                    assert(result[b] == fields[b - 1]);
                } else if a > i {
                    assert(result[a] == fields[a - 1] && result[b] == fields[b - 1]);
                    assert(fields[a - 1].0 <= fields[b - 1].0);
                } else if a < i && b < i {
                    assert(fields[a].0 <= fields[b].0);
                } else if a == i && b > i {
                    assert(result[b] == fields[b - 1]);
                }
            }
            assert forall|t: int| 0 <= t < result.len() implies {
                &&& (#[trigger] result[t]).1.0 < objects.len()
                &&& result[t].2.0 < objects.len()
                &&& result[t].0 == pointer_hash(objects, result[t].1)
            } by {
                if t > i {
                    assert(result[t] == fields[t - 1]);
                }
            }
        },
    }
}

/// After setting a key's value, looking the key up gives that value.
pub proof fn lemma_get_after_insert(
    objects: Seq<Object>,
    fields: Seq<Field>,
    key: Pointer,
    value: Pointer,
)
    requires
        struct_wf(objects, fields),
        key.0 < objects.len(),
        value.0 < objects.len(),
    ensures
        struct_get(objects, struct_insert(objects, fields, key, value), key) == Some(value),
{
    let hash = pointer_hash(objects, key);
    lemma_hash_boundary_exists(fields, hash);
    let start = hash_boundary(fields, hash);
    lemma_first_equal_key(objects, fields, key, hash, start);
    lemma_insert_wf(objects, fields, key, value);
    let result = struct_insert(objects, fields, key, value);
    match key_index(objects, fields, key) {
        Ok(i) => {
            assert(is_hash_boundary(result, hash, start)) by {
                assert forall|t: int| 0 <= t < start implies (#[trigger] result[t]).0 < hash by {
                    assert(fields[t].0 < hash);
                }
                assert forall|t: int| start <= t < result.len() implies (#[trigger] result[t]).0
                    >= hash by {
                    assert(fields[t].0 >= hash);
                }
            }
            lemma_hash_boundary(result, hash, start);
            assert forall|t: int| start <= t < i implies (#[trigger] result[t]).0 == hash
                && !pointers_equal(objects, result[t].1, key) by {
                assert(result[t] == fields[t]);
            }
            lemma_first_equal_key_at(objects, result, key, hash, start, i);
        },
        Err(i) => {
            assert(is_hash_boundary(result, hash, start)) by {
                assert forall|t: int| 0 <= t < start implies (#[trigger] result[t]).0 < hash by {
                    assert(result[t] == fields[t]);
                }
                assert forall|t: int| start <= t < result.len() implies (#[trigger] result[t]).0
                    >= hash by {
                    if t > start {
                        assert(result[t] == fields[t - 1]);
                    }
                }
            }
            lemma_hash_boundary(result, hash, start);
            lemma_first_equal_key_at(objects, result, key, hash, start, start);
        },
    }
}

/// Two field lists with the same hashes from `i` up to `j`, whose keys
/// there are equal to the key alike within the run, and whose runs end at
/// `j` at the latest, find the same field.
proof fn lemma_first_equal_key_agree(
    objects: Seq<Object>,
    f: Seq<Field>,
    g: Seq<Field>,
    key: Pointer,
    hash: u64,
    i: int,
    j: int,
)
    requires
        0 <= i <= j,
        j <= f.len(),
        j <= g.len(),
        forall|t: int|
            i <= t < j ==> (#[trigger] f[t]).0 == g[t].0 && (f[t].0 == hash ==> pointers_equal(
                objects,
                f[t].1,
                key,
            ) == pointers_equal(objects, g[t].1, key)),
        j < f.len() ==> f[j].0 != hash,
        j < g.len() ==> g[j].0 != hash,
    ensures
        first_equal_key(objects, f, key, hash, i) == first_equal_key(objects, g, key, hash, i),
    decreases j - i,
{
    if i < j {
        lemma_first_equal_key_agree(objects, f, g, key, hash, i + 1, j);
    }
}

/// Inserting a field at `j` moves what is found from `t >= j` on by one.
proof fn lemma_first_equal_key_shift(
    objects: Seq<Object>,
    fields: Seq<Field>,
    field: Field,
    j: int,
    key: Pointer,
    hash: u64,
    t: int,
)
    requires
        0 <= j <= t <= fields.len(),
    ensures
        first_equal_key(objects, fields.insert(j, field), key, hash, t + 1) == match first_equal_key(
            objects,
            fields,
            key,
            hash,
            t,
        ) {
            Some(x) => Some(x + 1),
            None => None::<int>,
        },
    decreases fields.len() - t,
{
    let result = fields.insert(j, field);
    if t < fields.len() {
        assert(result[t + 1] == fields[t]);
        lemma_first_equal_key_shift(objects, fields, field, j, key, hash, t + 1);
    }
}

/// Setting a key's value leaves the value looked up for any key that is not
/// equal to it as it was.
pub proof fn lemma_get_after_insert_other(
    objects: Seq<Object>,
    fields: Seq<Field>,
    key: Pointer,
    value: Pointer,
    other: Pointer,
)
    requires
        struct_wf(objects, fields),
        key.0 < objects.len(),
        value.0 < objects.len(),
        !pointers_equal(objects, other, key),
    ensures
        struct_get(objects, struct_insert(objects, fields, key, value), other) == struct_get(
            objects,
            fields,
            other,
        ),
{
    let hash = pointer_hash(objects, key);
    let other_hash = pointer_hash(objects, other);
    let field = (hash, key, value);
    lemma_hash_boundary_exists(fields, hash);
    lemma_hash_boundary_exists(fields, other_hash);
    let start = hash_boundary(fields, hash);
    let other_start = hash_boundary(fields, other_hash);
    lemma_first_equal_key(objects, fields, key, hash, start);
    lemma_first_equal_key(objects, fields, other, other_hash, other_start);
    lemma_insert_wf(objects, fields, key, value);
    lemma_pointers_equal_symmetric(objects, other, key);
    let result = struct_insert(objects, fields, key, value);
    match key_index(objects, fields, key) {
        Ok(i) => {
            assert(is_hash_boundary(result, other_hash, other_start)) by {
                assert forall|t: int| 0 <= t < other_start implies (#[trigger] result[t]).0
                    < other_hash by {
                    assert(fields[t].0 < other_hash);
                }
                assert forall|t: int| other_start <= t < result.len() implies (
                #[trigger] result[t]).0 >= other_hash by {
                    assert(fields[t].0 >= other_hash);
                }
            }
            lemma_hash_boundary(result, other_hash, other_start);
            assert(!pointers_equal(objects, fields[i].1, other)) by {
                if pointers_equal(objects, fields[i].1, other) {
                    lemma_pointers_equal_symmetric(objects, fields[i].1, key);
                    lemma_pointers_equal_transitive(objects, key, fields[i].1, other);
                }
            }
            assert forall|t: int| other_start <= t < fields.len() implies (#[trigger] result[t]).0
                == fields[t].0 && (result[t].0 == other_hash ==> pointers_equal(
                objects,
                result[t].1,
                other,
            ) == pointers_equal(objects, fields[t].1, other)) by {}
            lemma_first_equal_key_agree(
                objects,
                result,
                fields,
                other,
                other_hash,
                other_start,
                fields.len() as int,
            );
        },
        Err(j) => {
            if other_hash < hash {
                assert(other_start <= j) by {
                    if other_start > j {
                        assert(fields[j].0 < other_hash);
                        assert(fields[j].0 >= hash);
                    }
                }
                assert(is_hash_boundary(result, other_hash, other_start)) by {
                    assert forall|t: int| 0 <= t < other_start implies (#[trigger] result[t]).0
                        < other_hash by {
                        assert(result[t] == fields[t]);
                    }
                    assert forall|t: int| other_start <= t < result.len() implies (
                    #[trigger] result[t]).0 >= other_hash by {
                        if t < j {
                            assert(result[t] == fields[t]);
                        } else if t > j {
                            assert(result[t] == fields[t - 1]);
                        }
                    }
                }
                lemma_hash_boundary(result, other_hash, other_start);
                assert forall|t: int| other_start <= t < j implies (#[trigger] result[t]).0
                    == fields[t].0 && (result[t].0 == other_hash ==> pointers_equal(
                    objects,
                    result[t].1,
                    other,
                ) == pointers_equal(objects, fields[t].1, other)) by {
                    assert(result[t] == fields[t]);
                }
                lemma_first_equal_key_agree(
                    objects,
                    result,
                    fields,
                    other,
                    other_hash,
                    other_start,
                    j,
                );
                match first_equal_key(objects, fields, other, other_hash, other_start) {
                    Some(x) => {
                        assert(result[x] == fields[x]);
                    },
                    None => {},
                }
            } else if other_hash == hash {
                assert(other_start == start) by {
                    lemma_hash_boundary(fields, hash, other_start);
                }
                assert(is_hash_boundary(result, hash, start)) by {
                    assert forall|t: int| 0 <= t < start implies (#[trigger] result[t]).0 < hash by {
                        assert(result[t] == fields[t]);
                    }
                    assert forall|t: int| start <= t < result.len() implies (#[trigger] result[t]).0
                        >= hash by {
                        if t > start {
                            assert(result[t] == fields[t - 1]);
                        }
                    }
                }
                lemma_hash_boundary(result, hash, start);
                lemma_first_equal_key_shift(objects, fields, field, j, other, hash, j);
                match first_equal_key(objects, fields, other, other_hash, other_start) {
                    Some(x) => {
                        assert(result[x + 1] == fields[x]);
                    },
                    None => {},
                }
            } else {
                assert(other_start >= j) by {
                    if other_start < j {
                        assert(fields[other_start].0 >= other_hash);
                        assert(fields[other_start].0 < hash);
                    }
                }
                assert(is_hash_boundary(result, other_hash, other_start + 1)) by {
                    assert forall|t: int| 0 <= t < other_start + 1 implies (#[trigger] result[t]).0
                        < other_hash by {
                        if t < j {
                            assert(result[t] == fields[t]);
                        } else if t > j {
                            assert(result[t] == fields[t - 1]);
                        }
                    }
                    assert forall|t: int| other_start + 1 <= t < result.len() implies (
                    #[trigger] result[t]).0 >= other_hash by {
                        assert(result[t] == fields[t - 1]);
                    }
                }
                lemma_hash_boundary(result, other_hash, other_start + 1);
                lemma_first_equal_key_shift(
                    objects,
                    fields,
                    field,
                    j,
                    other,
                    other_hash,
                    other_start,
                );
                match first_equal_key(objects, fields, other, other_hash, other_start) {
                    Some(x) => {
                        assert(result[x + 1] == fields[x]);
                    },
                    None => {},
                }
            }
        },
    }
}

// ----------------------------------------------------------------------------
// A struct from a map.

/// The entries list each entry of the map exactly once.
pub open spec fn enumerates(entries: Seq<(Pointer, Pointer)>, map: Map<usize, usize>) -> bool {
    &&& forall|i: int|
        0 <= i < entries.len() ==> map.contains_key((#[trigger] entries[i]).0.0) && map[entries[i].0.0]
            == entries[i].1.0
    &&& forall|i: int, j: int|
        0 <= i < j < entries.len() ==> (#[trigger] entries[i]).0 != (#[trigger] entries[j]).0
    &&& forall|k: usize| #[trigger] map.contains_key(k) ==> exists|i: int| 0 <= i < entries.len() && entries[i].0.0 == k
}

/// The fields after setting each entry's value in turn.
pub open spec fn insert_all(objects: Seq<Object>, fields: Seq<Field>, entries: Seq<(Pointer, Pointer)>) -> Seq<
    Field,
>
    decreases entries.len(),
{
    if entries.len() == 0 {
        fields
    } else {
        let (key, value) = entries.last();
        struct_insert(objects, insert_all(objects, fields, entries.drop_last()), key, value)
    }
}

/// Calls `HashMap::into_iter` and collects the entries: each entry of the
/// map comes once, in an order that the map's layout decides.
#[verifier::external_body]
fn map_entries(map: FxHashMap<Pointer, Pointer>) -> (res: Vec<(Pointer, Pointer)>)
    ensures
        enumerates(res@, pointer_map_entries(map)),
{
    map.into_iter().collect()
}

/// Setting each entry in turn keeps the fields well-formed.
proof fn lemma_insert_all_wf(objects: Seq<Object>, fields: Seq<Field>, entries: Seq<(Pointer, Pointer)>)
    requires
        struct_wf(objects, fields),
        forall|i: int|
            0 <= i < entries.len() ==> (#[trigger] entries[i]).0.0 < objects.len() && entries[i].1.0
                < objects.len(),
    ensures
        struct_wf(objects, insert_all(objects, fields, entries)),
    decreases entries.len(),
{
    if entries.len() > 0 {
        let rest = entries.drop_last();
        assert forall|i: int| 0 <= i < rest.len() implies (#[trigger] rest[i]).0.0 < objects.len()
            && rest[i].1.0 < objects.len() by {
            assert(rest[i] == entries[i]);
        }
        lemma_insert_all_wf(objects, fields, rest);
        lemma_insert_wf(objects, insert_all(objects, fields, rest), entries.last().0, entries.last().1);
    }
}

impl Struct {
    /// The struct with a field for each entry of the map, set in the order
    /// in which the map yields its entries.
    pub fn from_fields(heap: &Heap, fields: FxHashMap<Pointer, Pointer>) -> (res: Self)
        requires
            heap_wf(heap.objects@),
            forall|k: usize|
                #[trigger] pointer_map_entries(fields).contains_key(k) ==> k < heap.objects@.len()
                    && pointer_map_entries(fields)[k] < heap.objects@.len(),
        ensures
            struct_wf(heap.objects@, res.fields@),
            exists|entries: Seq<(Pointer, Pointer)>|
                enumerates(entries, pointer_map_entries(fields)) && res.fields@ == insert_all(
                    heap.objects@,
                    Seq::empty(),
                    entries,
                ),
    {
        let ghost map = pointer_map_entries(fields);
        let entries = map_entries(fields);
        let mut s = Self::default();
        let mut i: usize = 0;
        while i < entries.len()
            invariant
                heap_wf(heap.objects@),
                enumerates(entries@, map),
                forall|k: usize|
                    #[trigger] map.contains_key(k) ==> k < heap.objects@.len() && map[k]
                        < heap.objects@.len(),
                i <= entries@.len(),
                s.fields@ == insert_all(heap.objects@, Seq::empty(), entries@.take(i as int)),
                struct_wf(heap.objects@, s.fields@),
            decreases entries@.len() - i,
        {
            let (key, value) = entries[i];
            proof {
                assert(map.contains_key(entries@[i as int].0.0));
                assert(entries@.take(i + 1).drop_last() =~= entries@.take(i as int));
                assert(entries@.take(i + 1).last() == (key, value));
            }
            s.insert(heap, key, value);
            i = i + 1;
        }
        proof {
            assert(entries@.take(entries@.len() as int) =~= entries@);
        }
        s
    }
}

/// After setting each entry in turn, a key that no other entry's key
/// equals has the value of its entry.
pub proof fn lemma_get_after_insert_all(
    objects: Seq<Object>,
    entries: Seq<(Pointer, Pointer)>,
    i: int,
)
    requires
        0 <= i < entries.len(),
        forall|t: int|
            0 <= t < entries.len() ==> (#[trigger] entries[t]).0.0 < objects.len() && entries[t].1.0
                < objects.len(),
        forall|t: int| 0 <= t < entries.len() && t != i ==> !pointers_equal(objects, entries[i].0, (#[trigger] entries[t]).0),
    ensures
        struct_get(objects, insert_all(objects, Seq::empty(), entries), entries[i].0) == Some(
            entries[i].1,
        ),
    decreases entries.len(),
{
    let rest = entries.drop_last();
    let (key, value) = entries.last();
    assert forall|t: int| 0 <= t < rest.len() implies (#[trigger] rest[t]).0.0 < objects.len()
        && rest[t].1.0 < objects.len() by {
        assert(rest[t] == entries[t]);
    }
    assert(struct_wf(objects, Seq::<Field>::empty()));
    lemma_insert_all_wf(objects, Seq::empty(), rest);
    if i == entries.len() - 1 {
        lemma_get_after_insert(objects, insert_all(objects, Seq::empty(), rest), key, value);
    } else {
        assert forall|t: int| 0 <= t < rest.len() && t != i implies !pointers_equal(
            objects,
            rest[i].0,
            (#[trigger] rest[t]).0,
        ) by {
            assert(rest[t] == entries[t] && rest[i] == entries[i]);
        }
        lemma_get_after_insert_all(objects, rest, i);
        assert(!pointers_equal(objects, entries[i].0, entries[entries.len() - 1].0));
        lemma_get_after_insert_other(
            objects,
            insert_all(objects, Seq::empty(), rest),
            key,
            value,
            entries[i].0,
        );
    }
}

/// Keys that denote equal values find the same field.
proof fn lemma_first_equal_key_equal_keys(
    objects: Seq<Object>,
    fields: Seq<Field>,
    a: Pointer,
    b: Pointer,
    hash: u64,
    i: int,
)
    requires
        pointers_equal(objects, a, b),
    ensures
        first_equal_key(objects, fields, a, hash, i) == first_equal_key(objects, fields, b, hash, i),
    decreases fields.len() - i,
{
    if 0 <= i < fields.len() && fields[i].0 == hash {
        let key = fields[i].1;
        lemma_pointers_equal_symmetric(objects, a, b);
        if pointers_equal(objects, key, a) {
            lemma_pointers_equal_transitive(objects, key, a, b);
        }
        if pointers_equal(objects, key, b) {
            lemma_pointers_equal_transitive(objects, key, b, a);
        }
        lemma_first_equal_key_equal_keys(objects, fields, a, b, hash, i + 1);
    }
}

/// A struct maps values to values: keys that denote equal values look up
/// the same value.
pub proof fn lemma_get_equal_keys(objects: Seq<Object>, fields: Seq<Field>, a: Pointer, b: Pointer)
    requires
        pointers_equal(objects, a, b),
    ensures
        struct_get(objects, fields, a) == struct_get(objects, fields, b),
{
    lemma_equal_values_hash_alike(objects, a, b);
    let hash = pointer_hash(objects, a);
    lemma_first_equal_key_equal_keys(objects, fields, a, b, hash, hash_boundary(fields, hash));
}

} // verus!
