use ts3::{CommandBuilder, List};

#[test]
fn test_list_to_string() {
    let mut list = List::new();
    assert_eq!(list.to_string(), "");
    list.push(1);
    assert_eq!(list.to_string(), "1");
    list.push(2);
    assert_eq!(list.to_string(), "1|2");
}

#[test]
fn test_list_from_str() {
    let string = "1|2|3|4";
    assert_eq!(List::from_str(&string).unwrap(), List::from_vec(vec![1, 2, 3, 4]));
}

#[test]
fn test_command_builder() {
    let cmd = CommandBuilder::new("testcmd");
    assert_eq!(cmd.clone().into_inner(), "testcmd");

    let cmd = cmd.arg("hello", "world");
    assert_eq!(cmd.clone().into_inner(), "testcmd hello=world");

    let cmd = cmd.arg("test", "1234");
    assert_eq!(cmd.clone().into_inner(), "testcmd hello=world test=1234");

    let cmd = cmd.arg_opt("opt", Some("arg"));
    assert_eq!(
        cmd.clone().into_inner(),
        "testcmd hello=world test=1234 opt=arg"
    );

    let cmd = cmd.arg_opt::<&str>("opt2", None);
    assert_eq!(cmd.into_inner(), "testcmd hello=world test=1234 opt=arg");
}

#[test]
fn list_text_roundtrip() {
    let list = List::from_vec(vec![-3i32, 0, 42, i32::MIN]);
    let text = list.to_string();
    assert_eq!(text, "-3|0|42|-2147483648");
    assert_eq!(List::<i32>::from_str(&text).unwrap(), list);
}

#[test]
fn list_from_str_errors() {
    assert_eq!(List::<u8>::from_str("1|x|2").unwrap_err(), ts3::ParseIntError::InvalidDigit);
    assert_eq!(List::<u8>::from_str("300x").unwrap_err(), ts3::ParseIntError::PosOverflow);
    assert_eq!(List::<u8>::from_str("").unwrap_err(), ts3::ParseIntError::Empty);
    assert_eq!(List::<i8>::from_str("-").unwrap_err(), ts3::ParseIntError::InvalidDigit);
    assert_eq!(List::<u8>::from_str("+7|-7").unwrap_err(), ts3::ParseIntError::InvalidDigit);
    assert_eq!(List::<String>::from_str("a b|c").unwrap().into_vec(), vec!["a b".to_owned(), "c".to_owned()]);
}

#[test]
fn list_into_vec_keeps_items() {
    let mut list = List::new();
    list.push("a".to_owned());
    list.push("b".to_owned());
    assert_eq!(list.into_vec(), vec!["a".to_owned(), "b".to_owned()]);
}

#[test]
fn command_builder_serializes_values() {
    let cmd = CommandBuilder::new("clientmove")
        .arg("clid", 5u16)
        .arg("cpw", "pass word|1")
        .arg("flag", true)
        .arg_opt::<u8>("none", None)
        .arg_opt("some", Some(-1i32));
    assert_eq!(
        cmd.into_inner(),
        "clientmove clid=5 cpw=pass\\sword\\p1 flag=49 some=-1"
    );
    let named = CommandBuilder::new(17u32);
    assert_eq!(named.into_inner(), "17");
}

#[test]
fn command_builder_default_is_empty() {
    assert_eq!(CommandBuilder::default().into_inner(), "");
}
