use candy::builtin_functions::{values, BuiltinFunction};

#[test]
fn values_lists_every_builtin_function_once_in_order() {
    let all = values();
    assert_eq!(all.len(), 11);
    assert_eq!(all[0], BuiltinFunction::Add);
    assert_eq!(all[6], BuiltinFunction::StructGet);
    assert_eq!(all[10], BuiltinFunction::Use);
    for (i, a) in all.iter().enumerate() {
        for b in &all[i + 1..] {
            assert_ne!(a, b);
        }
    }
}
