use twot::object::{Dictado, Object};

#[test]
fn test_string_dict_key() {
    let hello1 = Object::StringObject("Hello World".to_string());
    let hello2 = Object::StringObject("Hello World".to_string());
    let some_other = Object::StringObject("Some Other".to_string());

    assert_eq!(
        hello1.dict_key(),
        hello2.dict_key(),
        "Entered String with same content, have diffrent Dictionary key"
    );

    assert_ne!(
        hello1.dict_key(),
        some_other.dict_key(),
        "Entered String with different content, have same Dictionary key"
    );
}

#[test]
fn test_dict_key_tags() {
    let int_key = Object::Integer(42).dict_key().unwrap();
    assert_eq!(int_key.object_type, "INTEGER");
    assert_eq!(int_key.value, 42);

    let true_key = Object::Boolean(true).dict_key().unwrap();
    assert_eq!(true_key.object_type, "BOOLEAN");
    assert_eq!(true_key.value, 1);

    let false_key = Object::Boolean(false).dict_key().unwrap();
    assert_eq!(false_key.value, 0);

    let rejected = Object::Null.dict_key();
    assert_eq!(rejected, Err("unusable as Dictionary key: NULL".to_string()));
}

#[test]
fn test_object_type_names() {
    assert_eq!(Object::Integer(1).object_type(), "INTEGER");
    assert_eq!(Object::Boolean(true).object_type(), "BOOLEAN");
    assert_eq!(Object::StringObject(String::new()).object_type(), "STRING");
    assert_eq!(Object::Array(vec![]).object_type(), "ARRAY");
    assert_eq!(Object::Null.object_type(), "NULL");
    assert_eq!(Object::Error(String::new()).object_type(), "ERROR");
}

#[test]
fn test_inspect_renders_values() {
    assert_eq!(Object::Integer(-45).inspect(), "-45");
    assert_eq!(Object::Integer(9000).inspect(), "9000");
    assert_eq!(Object::Boolean(true).inspect(), "true");
    assert_eq!(Object::StringObject("hey".to_string()).inspect(), "hey");
    assert_eq!(Object::Null.inspect(), "");
    assert_eq!(Object::Error("boom".to_string()).inspect(), "ERROR: boom");
    let arr = Object::Array(vec![Object::Integer(1), Object::Integer(2)]);
    assert_eq!(arr.inspect(), "[1, 2]");
}
