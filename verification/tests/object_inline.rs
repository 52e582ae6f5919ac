use candy::object_inline::{InlineData, InlineObject, KIND_BUILTIN, KIND_INT, KIND_MASK};

fn kind(word: u64) -> &'static str {
    match InlineData::from(InlineObject::new(word)) {
        InlineData::Pointer(_) => "pointer",
        InlineData::Int(_) => "int",
        InlineData::SendPort(_) => "send port",
        InlineData::ReceivePort(_) => "receive port",
        InlineData::Builtin(_) => "builtin",
    }
}

#[test]
fn the_tag_bits_tell_what_a_word_holds() {
    assert_eq!(kind(0b1000), "pointer");
    assert_eq!(kind(0b1001), "int");
    assert_eq!(kind(0b1010), "send port");
    assert_eq!(kind(0b1110), "receive port");
    assert_eq!(kind(0b1011), "builtin");
    assert_eq!(kind(0b1111), "builtin");
    assert_eq!(0b1001 & KIND_MASK, KIND_INT);
    assert_eq!(0b1111 & KIND_MASK, KIND_BUILTIN);
}

#[test]
fn the_data_holds_the_object_itself() {
    let object = InlineObject::new(0b1101);
    assert_eq!(object.raw_word(), 0b1101);
    assert_eq!(InlineData::from(object).object().raw_word(), 0b1101);
}
