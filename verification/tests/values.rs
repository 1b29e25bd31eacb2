use solstice::json::{JsonObject, JsonValue};
use solstice::memory::resolve_memory_assignment;
use solstice::storage::{StateReference, StoragePosition};
use solstice::types::{Type, TypeArray, TypeMapping, TypeTuple};

fn text(s: &str) -> JsonValue {
    JsonValue::String(s.to_string())
}

fn word(n: u64) -> [u8; 32] {
    let mut w = [0u8; 32];
    w[24..].copy_from_slice(&n.to_be_bytes());
    w
}

fn hex_word(digits: &str) -> [u8; 32] {
    let mut w = [0u8; 32];
    for i in 0..32 {
        w[i] = u8::from_str_radix(&digits[2 * i..2 * i + 2], 16).unwrap();
    }
    w
}

const FIRST_DATA_SLOT: &str = "290decd9548b62a8d60345a988386fc84ba6bc95484008f6362f93160ef3e563";

fn array(ty: Type, size: Option<u16>) -> Type {
    Type::Array(TypeArray { ty: Box::new(ty), size })
}

fn tuple(types: Vec<(&str, Type)>) -> Type {
    Type::Tuple(TypeTuple { types: named(types) })
}

fn named(types: Vec<(&str, Type)>) -> Vec<(String, Type)> {
    types.into_iter().map(|(n, t)| (n.to_string(), t)).collect()
}

#[test]
fn bytes_of_each_type() {
    assert_eq!(Type::Address.get_bytes(), 20);
    assert_eq!(Type::Bool.get_bytes(), 1);
    assert_eq!(Type::String.get_bytes(), 32);
    assert_eq!(Type::Bytes.get_bytes(), 32);
    assert_eq!(Type::FixedBytes(7).get_bytes(), 7);
    assert_eq!(Type::Int(Some(16)).get_bytes(), 2);
    assert_eq!(Type::Int(None).get_bytes(), 32);
    assert_eq!(Type::Uint(Some(128)).get_bytes(), 16);
    assert_eq!(Type::Uint(None).get_bytes(), 32);
    assert_eq!(array(Type::Bool, Some(3)).get_bytes(), 32);
    assert_eq!(tuple(vec![]).get_bytes(), 32);
}

#[test]
fn dynamic_types() {
    assert!(array(Type::Bool, None).is_dynamic());
    assert!(!array(Type::Bool, Some(2)).is_dynamic());
    assert!(tuple(vec![]).is_dynamic());
    assert!(Type::String.is_dynamic());
    assert!(Type::Bytes.is_dynamic());
    assert!(!Type::Address.is_dynamic());
}

#[test]
fn decodes_addresses_with_their_checksum() {
    let bytes: Vec<u8> = vec![
        0x5a, 0xae, 0xb6, 0x05, 0x3f, 0x3e, 0x94, 0xc9, 0xb9, 0xa0, 0x9f, 0x33, 0x66, 0x94, 0x35, 0xe7,
        0xef, 0x1b, 0xea, 0xed,
    ];
    assert_eq!(
        Type::Address.decode_bytes(&bytes),
        Ok(text("0x5aAeb6053F3E94C9b9A09f33669435E7Ef1BeAed"))
    );
}

#[test]
fn decodes_elementary_values() {
    assert_eq!(Type::Bool.decode_bytes(&[0]), Ok(JsonValue::Bool(false)));
    assert_eq!(Type::Bool.decode_bytes(&[2]), Ok(JsonValue::Bool(true)));
    assert_eq!(Type::Uint(Some(16)).decode_bytes(&[1, 2]), Ok(text("258")));
    assert_eq!(
        Type::Uint(None).decode_bytes(&[0xff; 32]),
        Ok(text(
            "115792089237316195423570985008687907853269984665640564039457584007913129639935"
        ))
    );
    assert_eq!(Type::Int(Some(8)).decode_bytes(&[0xff]), Ok(text("-1")));
    assert_eq!(Type::Int(Some(16)).decode_bytes(&[0x80, 0]), Ok(text("-32768")));
    assert_eq!(Type::Int(Some(32)).decode_bytes(&[0, 0, 1, 0]), Ok(text("256")));
    assert_eq!(Type::Int(Some(64)).decode_bytes(&[0xff; 8]), Ok(text("-1")));
    assert_eq!(
        Type::Int(Some(128)).decode_bytes(&i128::MIN.to_be_bytes()),
        Ok(text("-170141183460469231731687303715884105728"))
    );
    assert_eq!(Type::Int(Some(256)).decode_bytes(&[0xff; 32]), Ok(text("-1")));
    assert_eq!(Type::String.decode_bytes("h\u{e9}".as_bytes()), Ok(text("h\u{e9}")));
    assert_eq!(Type::FixedBytes(2).decode_bytes(&[0xab, 1]), Ok(text("0xab01")));
    assert_eq!(Type::Bytes.decode_bytes(&[]), Ok(text("0x")));
}

#[test]
fn refuses_what_it_cannot_decode() {
    assert_eq!(
        Type::Int(Some(24)).decode_bytes(&[0, 0, 0]),
        Err("Unsupported int size".to_string())
    );
    assert_eq!(
        Type::Int(None).decode_bytes(&[0; 32]),
        Err("Unsupported int size".to_string())
    );
    assert_eq!(
        Type::String.decode_bytes(&[0xff]),
        Err("Failed to convert bytes to string".to_string())
    );
    assert_eq!(
        array(Type::Bool, None).decode_bytes(&[1]),
        Err("Unsupported type".to_string())
    );
}

#[test]
fn slots_of_each_type() {
    assert_eq!(Type::Bool.num_storage_slots(), 1);
    assert_eq!(array(Type::Uint(None), None).num_storage_slots(), 1);
    // two sixteen-byte numbers go into a slot
    assert_eq!(array(Type::Uint(Some(128)), Some(3)).num_storage_slots(), 2);
    assert_eq!(array(Type::Address, Some(3)).num_storage_slots(), 3);
    assert_eq!(array(Type::Uint(None), Some(4)).num_storage_slots(), 4);
    assert_eq!(array(array(Type::Bool, Some(33)), Some(2)).num_storage_slots(), 4);
    assert_eq!(
        tuple(vec![("a", Type::Bool), ("b", Type::Uint(None)), ("c", Type::Bool)]).num_storage_slots(),
        3
    );
    let mapping = Type::Mapping(TypeMapping {
        key: Box::new(Type::Address),
        value: Box::new(Type::Bool),
    });
    assert_eq!(mapping.checked_num_storage_slots(), None);
    assert_eq!(array(Type::FixedBytes(0), Some(1)).checked_num_storage_slots(), None);
}

#[test]
fn variables_share_a_slot_where_they_fit() {
    let vars = named(vec![
        ("a", Type::Uint(Some(128))),
        ("b", Type::Uint(Some(64))),
        ("c", Type::Address),
        ("d", Type::Bool),
        ("e", Type::String),
        ("f", Type::Bool),
    ]);
    let (offsets, last) = StateReference::compute_offsets(&vars);
    let places: Vec<(String, u32, u32)> = offsets
        .iter()
        .map(|(n, p)| (n.clone(), p.slot_as_u32(), p.index_in_slot))
        .collect();
    assert_eq!(
        places,
        vec![
            ("a".to_string(), 0, 0),
            ("b".to_string(), 0, 16),
            ("c".to_string(), 1, 0),
            ("d".to_string(), 1, 20),
            ("e".to_string(), 2, 0),
            ("f".to_string(), 3, 0),
        ]
    );
    assert_eq!((last.slot_as_u32(), last.index_in_slot), (4, 0));
}

#[test]
fn positions_move() {
    let mut p = StoragePosition::default();
    p.set_slot(7);
    p.move_index(3);
    assert_eq!((p.slot_as_u32(), p.index_in_slot), (7, 3));
    p.advance_slot();
    assert_eq!((p.slot_as_u32(), p.index_in_slot), (8, 0));
    p.advance_slot_num(10);
    assert_eq!(p.slot_as_u32(), 18);
    let mut top = StoragePosition { slot: [0xff; 32], index_in_slot: 4 };
    top.advance_slot();
    assert_eq!((top.slot, top.index_in_slot), ([0u8; 32], 0));
}

#[test]
fn reads_packed_variables() {
    let mut slot = [0u8; 32];
    slot[31] = 5; // the first variable stands at the low end
    slot[30] = 1;
    slot[29] = 0xfe;
    let state = StateReference::new(vec![(word(0), slot)]);
    let vars = named(vec![
        ("a", Type::Uint(Some(8))),
        ("b", Type::Bool),
        ("c", Type::Int(Some(8))),
        ("d", Type::Uint(None)),
    ]);
    let mut expected = JsonObject::new();
    expected.insert("a".to_string(), text("5"));
    expected.insert("b".to_string(), JsonValue::Bool(true));
    expected.insert("c".to_string(), text("-2"));
    expected.insert("d".to_string(), text("0"));
    assert_eq!(state.resolve_vars(&vars), Some(JsonValue::Object(expected)));
}

#[test]
fn the_later_of_two_words_counts() {
    let state = StateReference::new(vec![(word(0), word(1)), (word(0), word(2))]);
    let p = StoragePosition::default();
    assert_eq!(state.resolve_type(&Type::Uint(None), p), Some(text("2")));
}

#[test]
fn reads_short_texts_from_their_head() {
    let mut head = [0u8; 32];
    head[..3].copy_from_slice(b"abc");
    head[31] = 6;
    let state = StateReference::new(vec![(word(0), head)]);
    let p = StoragePosition::default();
    assert_eq!(state.resolve_type(&Type::String, p), Some(text("abc")));
    assert_eq!(state.resolve_type(&Type::Bytes, p), Some(text("0x616263")));
    let empty = StateReference::new(vec![]);
    assert_eq!(empty.resolve_type(&Type::String, p), Some(text("")));
    assert_eq!(empty.resolve_type(&Type::Bytes, p), Some(text("0x")));
}

#[test]
fn reads_long_texts_from_their_data_slots() {
    let content = "The quick brown fox jumps over the lazy dog";
    let first = hex_word(FIRST_DATA_SLOT);
    let mut second = first;
    second[31] += 1;
    let mut a = [0u8; 32];
    a.copy_from_slice(&content.as_bytes()[..32]);
    let mut b = [0u8; 32];
    b[..content.len() - 32].copy_from_slice(&content.as_bytes()[32..]);
    let head = word(2 * content.len() as u64 + 1);
    let p = StoragePosition::default();
    let state = StateReference::new(vec![(word(0), head), (first, a), (second, b)]);
    assert_eq!(state.resolve_type(&Type::String, p), Some(text(content)));
    // what was never written is zero
    let cut = StateReference::new(vec![(word(0), word(2 * 33 + 1)), (first, a)]);
    let mut expected = content[..32].to_string();
    expected.push('\0');
    assert_eq!(cut.resolve_type(&Type::String, p), Some(text(&expected)));
}

#[test]
fn reads_arrays() {
    let mut packed = [0u8; 32];
    packed[31] = 1;
    packed[15] = 2;
    let p = StoragePosition::default();
    let fixed = StateReference::new(vec![(word(0), packed), (word(1), word(3))]);
    assert_eq!(
        fixed.resolve_type(&array(Type::Uint(Some(128)), Some(3)), p),
        Some(JsonValue::Array(vec![text("1"), text("2"), text("3")]))
    );
    let data = hex_word(FIRST_DATA_SLOT);
    let dynamic = StateReference::new(vec![(word(0), word(2)), (data, packed)]);
    assert_eq!(
        dynamic.resolve_type(&array(Type::Uint(Some(128)), None), p),
        Some(JsonValue::Array(vec![text("1"), text("2")]))
    );
    // without a length there is no array
    let empty = StateReference::new(vec![]);
    assert_eq!(empty.resolve_type(&array(Type::Bool, None), p), None);
}

#[test]
fn reads_structs_and_skips_mappings() {
    let state = StateReference::new(vec![(word(3), word(4)), (word(4), word(1))]);
    let ty = tuple(vec![("x", Type::Uint(None)), ("y", Type::Bool)]);
    let mut p = StoragePosition::default();
    p.set_slot(3);
    let mut expected = JsonObject::new();
    expected.insert("x".to_string(), text("4"));
    expected.insert("y".to_string(), JsonValue::Bool(true));
    assert_eq!(state.resolve_type(&ty, p), Some(JsonValue::Object(expected)));
    let mapping = Type::Mapping(TypeMapping {
        key: Box::new(Type::Address),
        value: Box::new(Type::Bool),
    });
    assert_eq!(state.resolve_type(&mapping, p), Some(JsonValue::Null));
}

#[test]
fn reads_values_from_memory() {
    let mut memory = vec![0u8; 64];
    memory[31] = 9;
    memory[32] = 0xab;
    assert_eq!(
        resolve_memory_assignment(&Type::Uint(Some(8)), 0, &memory),
        Some(text("9"))
    );
    assert_eq!(
        resolve_memory_assignment(&Type::FixedBytes(1), 32, &memory),
        Some(text("0xab"))
    );
    assert_eq!(resolve_memory_assignment(&Type::Uint(None), 40, &memory), None);
}

#[test]
fn reads_texts_from_memory() {
    let mut memory = vec![0u8; 64];
    memory[31] = 2;
    memory[32] = b'h';
    memory[33] = b'i';
    assert_eq!(resolve_memory_assignment(&Type::String, 0, &memory), Some(text("hi")));
    assert_eq!(resolve_memory_assignment(&Type::Bytes, 0, &memory), Some(text("0x6869")));
    // no room for the length, and none for the data
    assert_eq!(resolve_memory_assignment(&Type::String, 40, &memory), Some(JsonValue::Null));
    memory[31] = 33;
    assert_eq!(resolve_memory_assignment(&Type::String, 0, &memory), Some(JsonValue::Null));
}

#[test]
fn reads_arrays_and_structs_from_memory() {
    // two numbers behind their count
    let mut memory = vec![0u8; 96];
    memory[31] = 2;
    memory[63] = 7;
    memory[95] = 8;
    assert_eq!(
        resolve_memory_assignment(&array(Type::Uint(None), None), 0, &memory),
        Some(JsonValue::Array(vec![text("7"), text("8")]))
    );
    assert_eq!(
        resolve_memory_assignment(&array(Type::Uint(None), Some(2)), 32, &memory),
        Some(JsonValue::Array(vec![text("7"), text("8")]))
    );
    // a struct of a flag and a text that stands elsewhere
    let mut memory = vec![0u8; 128];
    memory[31] = 1;
    memory[63] = 64;
    memory[95] = 1;
    memory[96] = b'z';
    let ty = tuple(vec![("f", Type::Bool), ("t", Type::String)]);
    let mut expected = JsonObject::new();
    expected.insert("f".to_string(), JsonValue::Bool(true));
    expected.insert("t".to_string(), text("z"));
    assert_eq!(
        resolve_memory_assignment(&ty, 0, &memory),
        Some(JsonValue::Object(expected))
    );
}

#[test]
fn objects_keep_one_value_for_a_key() {
    let mut o = JsonObject::new();
    o.insert("a".to_string(), JsonValue::Null);
    o.insert("b".to_string(), JsonValue::Bool(true));
    o.insert("a".to_string(), text("x"));
    assert_eq!(o.get("a"), Some(&text("x")));
    assert_eq!(o.get("c"), None);
    assert_eq!(o.keys(), vec!["a".to_string(), "b".to_string()]);
}

#[test]
fn objects_are_equal_in_whatever_order_they_were_filled() {
    let mut a = JsonObject::new();
    let mut b = JsonObject::new();
    for (object, keys) in [(&mut a, ["x", "ab", "", "a"]), (&mut b, ["a", "", "x", "ab"])] {
        for key in keys {
            object.insert(key.to_string(), text(key));
        }
    }
    assert_eq!(a, b);
    assert_eq!(a.keys(), ["", "a", "ab", "x"]);
    b.insert("ab".to_string(), JsonValue::Null);
    assert_ne!(a, b);
    a.insert("ab".to_string(), JsonValue::Null);
    assert_eq!(a, b);
}

#[test]
fn reads_nested_values_from_the_places_of_the_layout() {
    // `uint8 n; S[] list;` where `struct S { uint128 a; uint128 b; string c; }`
    let data = hex_word("b10e2d527612073b26eecdfd717e6a320cf44b4afac2b0732d9fcbe2b7fa0cf6");
    let after = |n: u8| {
        let mut slot = data;
        slot[31] += n;
        slot
    };
    let pair = |a: u8, b: u8| {
        let mut packed = [0u8; 32];
        packed[31] = a;
        packed[15] = b;
        packed
    };
    let short = |c: u8| {
        let mut head = [0u8; 32];
        head[0] = c;
        head[31] = 2;
        head
    };
    let state = StateReference::new(vec![
        (word(0), word(9)),
        (word(1), word(2)),
        (data, pair(1, 2)),
        (after(1), short(b'p')),
        (after(2), pair(3, 4)),
        (after(3), short(b'q')),
    ]);
    let element = |a: &str, b: &str, c: &str| {
        let mut members = JsonObject::new();
        members.insert("a".to_string(), text(a));
        members.insert("b".to_string(), text(b));
        members.insert("c".to_string(), text(c));
        JsonValue::Object(members)
    };
    let s = tuple(vec![
        ("a", Type::Uint(Some(128))),
        ("b", Type::Uint(Some(128))),
        ("c", Type::String),
    ]);
    let vars = named(vec![("n", Type::Uint(Some(8))), ("list", array(s, None))]);
    let mut expected = JsonObject::new();
    expected.insert("n".to_string(), text("9"));
    expected.insert(
        "list".to_string(),
        JsonValue::Array(vec![element("1", "2", "p"), element("3", "4", "q")]),
    );
    assert_eq!(state.resolve_vars(&vars), Some(JsonValue::Object(expected)));
}

#[test]
fn reads_nested_values_from_memory() {
    // an array of two arrays, each behind the word that points to it
    let mut memory = vec![0u8; 256];
    memory[31] = 2;
    memory[63] = 96;
    memory[95] = 160;
    memory[127] = 1;
    memory[159] = 5;
    memory[191] = 2;
    memory[223] = 6;
    memory[255] = 7;
    let ty = array(array(Type::Uint(Some(16)), None), None);
    assert_eq!(
        resolve_memory_assignment(&ty, 0, &memory),
        Some(JsonValue::Array(vec![
            JsonValue::Array(vec![text("5")]),
            JsonValue::Array(vec![text("6"), text("7")]),
        ]))
    );
}

#[test]
fn reads_data_from_a_given_slot() {
    let mut a = [0u8; 32];
    a[0] = 7;
    let state = StateReference::new(vec![(word(5), a), (word(6), word(1))]);
    let mut expected = a.to_vec();
    expected.push(0);
    assert_eq!(state.read_long(word(5), 33), expected);
    assert_eq!(state.read_long(word(9), 2), vec![0, 0]);
    assert_eq!(
        state.resolve_elements(&Type::Uint(None), word(6), 2),
        Some(vec![text("1"), text("0")])
    );
    assert_eq!(state.resolve_elements(&Type::Uint(None), word(6), 0), Some(vec![]));
}
