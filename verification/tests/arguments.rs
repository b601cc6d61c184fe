use oberst::argument::ArgumentValue;
use oberst::arguments::CommandArgs;
use oberst::chars::digit_to_number;
use oberst::chars::is_ascii_digit;
use oberst::encoding::same_text;
use oberst::argument::Stored;

#[test]
fn an_empty_store_holds_nothing() {
    let args = CommandArgs::new();
    assert_eq!(args.get::<u32>("arg"), None);
    assert_eq!(args.value("arg"), None);
}

#[test]
fn a_value_is_found_under_its_name_and_type() {
    let mut args = CommandArgs::new();
    args.insert("count", ArgumentValue::U32(42));
    args.insert("name", ArgumentValue::Text("bob".to_string()));
    args.insert("none", ArgumentValue::Unit);
    assert_eq!(args.get::<u32>("count"), Some(&42u32));
    assert_eq!(args.get::<String>("name"), Some(&"bob".to_string()));
    assert_eq!(args.get::<()>("none"), Some(&()));
    assert_eq!(args.value("count"), Some(&ArgumentValue::U32(42)));
}

#[test]
fn a_value_of_another_type_is_not_found() {
    let mut args = CommandArgs::new();
    args.insert("count", ArgumentValue::U32(42));
    assert_eq!(args.get::<u64>("count"), None);
    assert_eq!(args.get::<i32>("count"), None);
    assert_eq!(args.get::<String>("count"), None);
    assert_eq!(args.get::<()>("count"), None);
    assert_eq!(args.get::<u32>("Count"), None);
    assert_eq!(args.get::<u32>("coun"), None);
}

#[test]
fn a_later_value_replaces_an_earlier_one() {
    let mut args = CommandArgs::new();
    args.insert("x", ArgumentValue::U8(1));
    args.insert("y", ArgumentValue::U8(2));
    args.insert("x", ArgumentValue::I64(-3));
    assert_eq!(args.get::<u8>("x"), None);
    assert_eq!(args.get::<i64>("x"), Some(&-3i64));
    assert_eq!(args.get::<u8>("y"), Some(&2u8));
}

#[test]
fn a_copy_of_a_store_holds_the_same_values() {
    let mut args = CommandArgs::new();
    args.insert("x", ArgumentValue::U8(1));
    args.insert("s", ArgumentValue::Text("t".to_string()));
    let mut copy = args.duplicate();
    assert_eq!(copy.get::<u8>("x"), Some(&1u8));
    assert_eq!(copy.get::<String>("s"), Some(&"t".to_string()));
    copy.insert("x", ArgumentValue::U8(9));
    assert_eq!(args.get::<u8>("x"), Some(&1u8));
    assert_eq!(copy.get::<u8>("x"), Some(&9u8));
}

#[test]
fn every_integer_type_is_tagged_and_untagged() {
    assert_eq!(7u8.tagged(), ArgumentValue::U8(7));
    assert_eq!(7u16.tagged(), ArgumentValue::U16(7));
    assert_eq!(7u32.tagged(), ArgumentValue::U32(7));
    assert_eq!(7u64.tagged(), ArgumentValue::U64(7));
    assert_eq!(7u128.tagged(), ArgumentValue::U128(7));
    assert_eq!(7usize.tagged(), ArgumentValue::Usize(7));
    assert_eq!((-7i8).tagged(), ArgumentValue::I8(-7));
    assert_eq!((-7i16).tagged(), ArgumentValue::I16(-7));
    assert_eq!((-7i32).tagged(), ArgumentValue::I32(-7));
    assert_eq!((-7i64).tagged(), ArgumentValue::I64(-7));
    assert_eq!((-7i128).tagged(), ArgumentValue::I128(-7));
    assert_eq!((-7isize).tagged(), ArgumentValue::Isize(-7));
    assert_eq!("s".to_string().tagged(), ArgumentValue::Text("s".to_string()));
    assert_eq!(().tagged(), ArgumentValue::Unit);
    assert_eq!(u8::untagged(&ArgumentValue::U8(7)), Some(&7u8));
    assert_eq!(u8::untagged(&ArgumentValue::U16(7)), None);
    assert_eq!(i128::untagged(&ArgumentValue::I128(-7)), Some(&-7i128));
    assert_eq!(isize::untagged(&ArgumentValue::I64(-7)), None);
    assert_eq!(String::untagged(&ArgumentValue::Text("s".to_string())), Some(&"s".to_string()));
    assert_eq!(String::untagged(&ArgumentValue::Decimal(false, "1".to_string())), None);
    assert_eq!(<()>::untagged(&ArgumentValue::Unit), Some(&()));
}

#[test]
fn texts_are_the_same_when_their_characters_are() {
    assert!(same_text("", ""));
    assert!(same_text("abc", "abc"));
    assert!(same_text("häß", "häß"));
    assert!(!same_text("abc", "abd"));
    assert!(!same_text("abc", "ab"));
    assert!(!same_text("", "a"));
    assert!(!same_text("é", "e\u{301}"));
}

#[test]
fn digits_are_the_ten_ascii_digits() {
    for (number, c) in "0123456789".chars().enumerate() {
        assert!(is_ascii_digit(c));
        assert_eq!(digit_to_number(c) as usize, number);
    }
    for c in ['/', ':', 'a', ' ', '-', '٣', '３'] {
        assert!(!is_ascii_digit(c));
    }
}

#[test]
fn the_width_of_a_character_is_the_number_of_its_bytes() {
    for c in ['\0', 'a', '\u{7f}', '\u{80}', 'é', '\u{7ff}', '\u{800}', '€', '\u{d7ff}', '\u{e000}', '\u{ffff}', '\u{10000}', '🙂', '\u{10ffff}'] {
        assert_eq!(oberst::encoding::char_width(c), c.len_utf8());
    }
}
