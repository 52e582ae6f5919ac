use candy::object_format::join_texts;
use candy::builtin_functions::BuiltinFunction;
use num_bigint::BigInt;
use candy::object::{
    Builtin, ChannelId, Closure, Data, Heap, Instruction, Int, Lir, List, Object, Pointer,
    ReceivePort, SendPort, Struct, Symbol, Text,
};

fn object(data: Data) -> Object {
    Object { reference_count: 1, data }
}

fn text(s: &str) -> Data {
    Data::Text(Text { value: s.to_string() })
}

/// 0: "a", 1: "a", 2: "b", 3: (0, 2), 4: (1, 2), 5: (2, 0), 6: [0: 2],
/// 7: [1: 2], 8: a closure, 9: another closure.
fn heap() -> Heap {
    Heap {
        objects: vec![
            object(text("a")),
            object(text("a")),
            object(text("b")),
            object(Data::List(List { items: vec![Pointer(0), Pointer(2)] })),
            object(Data::List(List { items: vec![Pointer(1), Pointer(2)] })),
            object(Data::List(List { items: vec![Pointer(2), Pointer(0)] })),
            object(Data::Struct(Struct { fields: vec![(7, Pointer(0), Pointer(2))] })),
            object(Data::Struct(Struct { fields: vec![(7, Pointer(1), Pointer(2))] })),
            object(Data::Closure(Closure { captured: vec![], num_args: 0, body: vec![] })),
            object(Data::Closure(Closure { captured: vec![], num_args: 0, body: vec![] })),
        ],
    }
}

#[test]
fn equal_values_on_the_heap() {
    let heap = heap();
    assert!(Pointer(0).equals(&heap, Pointer(1)));
    assert!(!Pointer(0).equals(&heap, Pointer(2)));
    assert!(Pointer(3).equals(&heap, Pointer(4)));
    assert!(Pointer(4).equals(&heap, Pointer(3)));
    assert!(!Pointer(3).equals(&heap, Pointer(5)));
    assert!(Pointer(6).equals(&heap, Pointer(7)));
    assert!(!Pointer(3).equals(&heap, Pointer(6)));
    // Closures are only equal to themselves.
    assert!(Pointer(8).equals(&heap, Pointer(8)));
    assert!(!Pointer(8).equals(&heap, Pointer(9)));
    assert!(heap.get(Pointer(3)).data.equals(&heap, &heap.get(Pointer(4)).data));
    let symbol = Data::Symbol(Symbol { value: "True".to_string() });
    assert!(symbol.equals(&heap, &Data::Symbol(Symbol { value: "True".to_string() })));
    assert!(!symbol.equals(&heap, &text("True")));
    let print = Data::Builtin(Builtin { function: BuiltinFunction::Print });
    assert!(print.equals(&heap, &Data::Builtin(Builtin { function: BuiltinFunction::Print })));
}

#[test]
fn structs_children_and_ports() {
    let heap = heap();
    if let Data::Struct(s) = &heap.get(Pointer(6)).data {
        assert_eq!(s.len(), 1);
        assert_eq!(s.iter(), vec![(Pointer(0), Pointer(2))]);
    } else {
        panic!("a struct");
    }
    assert_eq!(heap.get(Pointer(6)).data.children(), vec![Pointer(0), Pointer(2)]);
    assert_eq!(heap.get(Pointer(3)).data.children(), vec![Pointer(0), Pointer(2)]);
    assert_eq!(heap.get(Pointer(0)).data.children(), vec![]);
    assert!(heap.get(Pointer(8)).data.closure().is_some());
    assert!(heap.get(Pointer(0)).data.closure().is_none());
    let send = Data::SendPort(SendPort::new(ChannelId(3)));
    let receive = Data::ReceivePort(ReceivePort::new(ChannelId(4)));
    assert_eq!(send.channel(), Some(ChannelId(3)));
    assert_eq!(receive.channel(), Some(ChannelId(4)));
    assert_eq!(text("x").channel(), None);
}

#[test]
fn the_closure_of_a_module() {
    let lir = Lir { instructions: vec![Instruction::CreateText("hi".to_string())] };
    let closure = Closure::of_module_lir(lir);
    assert!(closure.captured.is_empty());
    assert_eq!(closure.num_args, 0);
    assert_eq!(closure.body.len(), 1);
    assert!(matches!(&closure.body[0], Instruction::CreateText(t) if t == "hi"));
}

#[test]
fn ints_are_equal_by_value() {
    let heap = heap();
    let five = Data::Int(Int { value: BigInt::from(5) });
    assert!(five.equals(&heap, &Data::Int(Int { value: BigInt::from(5) })));
    assert!(!five.equals(&heap, &Data::Int(Int { value: BigInt::from(6) })));
    let big = "123456789012345678901234567890".parse::<BigInt>().unwrap();
    assert!(Data::Int(Int { value: big.clone() }).equals(&heap, &Data::Int(Int { value: big })));
}

/// 0: "a", 1: "a", 2: "b", 3: (0, 2), 4: (1, 2), 5: 5.
fn value_heap() -> Heap {
    Heap {
        objects: vec![
            object(text("a")),
            object(text("a")),
            object(text("b")),
            object(Data::List(List { items: vec![Pointer(0), Pointer(2)] })),
            object(Data::List(List { items: vec![Pointer(1), Pointer(2)] })),
            object(Data::Int(Int { value: BigInt::from(5) })),
        ],
    }
}

#[test]
fn equal_values_hash_alike() {
    let heap = value_heap();
    assert_eq!(Pointer(0).hash(&heap), Pointer(1).hash(&heap));
    assert_ne!(Pointer(0).hash(&heap), Pointer(2).hash(&heap));
    assert_eq!(Pointer(3).hash(&heap), Pointer(4).hash(&heap));
    assert_ne!(Pointer(3).hash(&heap), Pointer(0).hash(&heap));
    assert_eq!(heap.get(Pointer(3)).data.hash(&heap), Pointer(3).hash(&heap));
    let five = Data::Int(Int { value: BigInt::from(5) });
    assert_eq!(five.hash(&heap), Pointer(5).hash(&heap));
    assert_ne!(Data::Int(Int { value: BigInt::from(6) }).hash(&heap), Pointer(5).hash(&heap));
}

#[test]
fn struct_fields_map_values_to_values() {
    let heap = value_heap();
    let mut s = Struct { fields: vec![] };
    assert_eq!(s.get(&heap, Pointer(0)), None);
    s.insert(&heap, Pointer(0), Pointer(2));
    assert_eq!(s.len(), 1);
    // The key "a" is found through another pointer to "a".
    assert_eq!(s.get(&heap, Pointer(1)), Some(Pointer(2)));
    assert_eq!(s.get(&heap, Pointer(2)), None);
    s.insert(&heap, Pointer(1), Pointer(5));
    assert_eq!(s.len(), 1);
    assert_eq!(s.get(&heap, Pointer(0)), Some(Pointer(5)));
    s.insert(&heap, Pointer(3), Pointer(0));
    s.insert(&heap, Pointer(2), Pointer(3));
    assert_eq!(s.len(), 3);
    assert_eq!(s.get(&heap, Pointer(2)), Some(Pointer(3)));
    assert_eq!(s.get(&heap, Pointer(4)), Some(Pointer(0)));
    assert_eq!(s.get(&heap, Pointer(0)), Some(Pointer(5)));
    assert_eq!(s.get(&heap, Pointer(5)), None);
    // The fields are ordered by hash.
    assert!(s.fields.windows(2).all(|w| w[0].0 <= w[1].0));
    assert_eq!(s.fields.iter().filter(|f| f.0 == Pointer(0).hash(&heap)).count(), 1);
}

#[test]
fn changing_pointers_by_a_map() {
    let mut map = rustc_hash::FxHashMap::default();
    map.insert(Pointer(0), Pointer(10));
    map.insert(Pointer(2), Pointer(12));
    let mut list = Data::List(List { items: vec![Pointer(0), Pointer(1), Pointer(2)] });
    list.change_pointers(&map);
    assert_eq!(list.children(), vec![Pointer(10), Pointer(1), Pointer(12)]);
    let mut s = Data::Struct(Struct { fields: vec![(7, Pointer(2), Pointer(3)), (9, Pointer(1), Pointer(0))] });
    s.change_pointers(&map);
    if let Data::Struct(s) = &s {
        assert_eq!(s.fields, vec![(7, Pointer(12), Pointer(3)), (9, Pointer(1), Pointer(10))]);
    } else {
        panic!("a struct");
    }
    let mut closure = Data::Closure(Closure { captured: vec![Pointer(2)], num_args: 1, body: vec![] });
    closure.change_pointers(&map);
    assert_eq!(closure.children(), vec![Pointer(12)]);
    let mut t = text("a");
    t.change_pointers(&map);
    assert_eq!(t.children(), vec![]);
}

#[test]
fn the_texts_of_values() {
    let mut objects = value_heap().objects;
    // 6: (), 7: [(0, 2): "a", "b": 5], 8: a closure, 9: True, 10: print, 11: a send port.
    objects.push(object(Data::List(List { items: vec![] })));
    objects.push(object(Data::Struct(Struct { fields: vec![] })));
    objects.push(object(Data::Closure(Closure { captured: vec![], num_args: 0, body: vec![] })));
    objects.push(object(Data::Symbol(Symbol { value: "True".to_string() })));
    objects.push(object(Data::Builtin(Builtin { function: BuiltinFunction::Print })));
    objects.push(object(Data::SendPort(SendPort::new(ChannelId(3)))));
    let heap = Heap { objects };
    let mut s = Struct { fields: vec![] };
    s.insert(&heap, Pointer(2), Pointer(5));
    s.insert(&heap, Pointer(0), Pointer(1));
    let mut heap = heap;
    heap.objects[7] = object(Data::Struct(s));
    assert_eq!(Pointer(0).format(&heap), "\"a\"");
    assert_eq!(Pointer(3).format(&heap), "(\"a\", \"b\")");
    assert_eq!(Pointer(5).format(&heap), "5");
    assert_eq!(Pointer(6).format(&heap), "(,)");
    assert_eq!(Pointer(7).format(&heap), "[\"a\": \"a\", \"b\": 5]");
    assert_eq!(Pointer(8).format(&heap), "{…}");
    assert_eq!(Pointer(8).format_debug(&heap), "{Pointer(8)}");
    assert_eq!(Pointer(9).format(&heap), "True");
    assert_eq!(Pointer(10).format(&heap), "builtinPrint");
    assert_eq!(Pointer(11).format(&heap), "sendPort ChannelId(3)");
    assert_eq!(Pointer(3).format_debug(&heap), Pointer(3).format(&heap));
}

#[test]
fn joining_texts() {
    assert_eq!(join_texts(&vec![], ", "), "");
    assert_eq!(join_texts(&vec!["a".to_string()], ", "), "a");
    assert_eq!(join_texts(&vec!["a".to_string(), "b".to_string(), "c".to_string()], ", "), "a, b, c");
}

#[test]
fn a_struct_from_a_map() {
    let heap = value_heap();
    let mut map = rustc_hash::FxHashMap::default();
    map.insert(Pointer(0), Pointer(2));
    map.insert(Pointer(2), Pointer(5));
    map.insert(Pointer(3), Pointer(0));
    let s = Struct::from_fields(&heap, map);
    assert_eq!(s.len(), 3);
    assert_eq!(s.get(&heap, Pointer(1)), Some(Pointer(2)));
    assert_eq!(s.get(&heap, Pointer(2)), Some(Pointer(5)));
    assert_eq!(s.get(&heap, Pointer(4)), Some(Pointer(0)));
    assert_eq!(s.get(&heap, Pointer(5)), None);
    let empty = Struct::default();
    assert_eq!(empty.len(), 0);
    assert!(List::default().items.is_empty());
}

#[test]
fn equality_of_values_is_transitive() {
    let heap = Heap {
        objects: vec![
            object(text("a")),
            object(text("a")),
            object(text("a")),
            object(Data::List(List { items: vec![Pointer(0)] })),
            object(Data::List(List { items: vec![Pointer(1)] })),
            object(Data::List(List { items: vec![Pointer(2)] })),
        ],
    };
    assert!(Pointer(3).equals(&heap, Pointer(4)));
    assert!(Pointer(4).equals(&heap, Pointer(5)));
    assert!(Pointer(3).equals(&heap, Pointer(5)));
    assert_eq!(Pointer(3).hash(&heap), Pointer(5).hash(&heap));
}

#[test]
fn a_struct_from_pairs_of_pointers() {
    let heap = value_heap();
    let map = candy::object::pointer_map_from_pairs(&vec![
        (Pointer(0), Pointer(1)),
        (Pointer(2), Pointer(5)),
        (Pointer(0), Pointer(2)),
    ]);
    assert_eq!(map.len(), 2);
    assert_eq!(map.get(&Pointer(0)), Some(&Pointer(2)));
    let s = Struct::from_fields(&heap, map);
    assert_eq!(s.len(), 2);
    assert_eq!(s.get(&heap, Pointer(1)), Some(Pointer(2)));
    assert_eq!(s.get(&heap, Pointer(2)), Some(Pointer(5)));
}

#[test]
fn hashing_with_a_fresh_cache() {
    let heap = value_heap();
    let mut cache = candy::object_hash::empty_hash_cache();
    assert!(cache.is_empty());
    let h = Pointer(3).hash_with_cache(&heap, &mut cache);
    assert_eq!(h, Pointer(3).hash(&heap));
    assert_eq!(cache.get(&Pointer(3)), Some(&h));
    assert_eq!(Pointer(3).hash_with_cache(&heap, &mut cache), h);
}
