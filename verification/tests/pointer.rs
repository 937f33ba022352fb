use tt::pointer::{parse_index, pointer_tokens};
use tt::value::{Object, Value};

fn text(s: &str) -> Value {
    Value::String(s.to_string())
}

fn whole(n: u64) -> Value {
    Value::Number(serde_json::Number::from(n))
}

fn object(fields: Vec<(&str, Value)>) -> Value {
    let mut made = Object::new();
    for (key, value) in fields {
        made.insert(key.to_string(), value);
    }
    Value::Object(made)
}

fn to_json(value: &Value) -> serde_json::Value {
    match value {
        Value::Null => serde_json::Value::Null,
        Value::Bool(b) => serde_json::Value::Bool(*b),
        Value::Number(n) => serde_json::Value::Number(n.clone()),
        Value::String(s) => serde_json::Value::String(s.clone()),
        Value::Array(items) => serde_json::Value::Array(items.iter().map(to_json).collect()),
        Value::Object(fields) => {
            let mut map = serde_json::Map::new();
            for (key, value) in fields.entries() {
                map.insert(key.clone(), to_json(value));
            }
            serde_json::Value::Object(map)
        }
    }
}

fn sample() -> Value {
    object(vec![
        ("name", text("root")),
        ("", text("empty key")),
        ("a/b", text("slash")),
        ("m~n", text("tilde")),
        ("~1", text("tilde one")),
        ("0", text("zero key")),
        (
            "servers",
            Value::Array(vec![
                object(vec![("host", text("alpha")), ("port", whole(80))]),
                object(vec![("host", text("beta")), ("ports", Value::Array(vec![whole(1), whole(2)]))]),
                text("plain"),
            ]),
        ),
        ("nested", object(vec![("deep", object(vec![("leaf", Value::Bool(true))]))])),
        ("nothing", Value::Null),
    ])
}

#[test]
fn empty_pointer_is_the_whole_tree() {
    let tree = sample();
    assert_eq!(tree.pointer(""), Some(&tree));
}

#[test]
fn pointer_needs_a_leading_separator() {
    let tree = sample();
    assert_eq!(tree.pointer("name"), None);
    assert_eq!(tree.pointer("servers/0"), None);
    assert_eq!(pointer_tokens("name"), None);
}

#[test]
fn pointer_finds_a_field() {
    let tree = sample();
    assert_eq!(tree.pointer("/name"), Some(&text("root")));
    assert_eq!(tree.pointer("/nested/deep/leaf"), Some(&Value::Bool(true)));
    assert_eq!(tree.pointer("/nothing"), Some(&Value::Null));
}

#[test]
fn pointer_misses_a_field() {
    let tree = sample();
    assert_eq!(tree.pointer("/absent"), None);
    assert_eq!(tree.pointer("/nested/absent/leaf"), None);
}

#[test]
fn pointer_does_not_go_through_a_leaf() {
    let tree = sample();
    assert_eq!(tree.pointer("/name/x"), None);
    assert_eq!(tree.pointer("/nothing/x"), None);
    assert_eq!(tree.pointer("/name/"), None);
}

#[test]
fn pointer_finds_an_item() {
    let tree = sample();
    assert_eq!(tree.pointer("/servers/0/host"), Some(&text("alpha")));
    assert_eq!(tree.pointer("/servers/1/ports/1"), Some(&whole(2)));
    assert_eq!(tree.pointer("/servers/2"), Some(&text("plain")));
}

#[test]
fn pointer_misses_an_item() {
    let tree = sample();
    assert_eq!(tree.pointer("/servers/3"), None);
    assert_eq!(tree.pointer("/servers/host"), None);
    assert_eq!(tree.pointer("/servers/"), None);
    assert_eq!(tree.pointer("/servers/-1"), None);
}

#[test]
fn an_index_has_no_sign_and_no_leading_zero() {
    let tree = sample();
    assert_eq!(tree.pointer("/servers/+1"), None);
    assert_eq!(tree.pointer("/servers/01"), None);
    assert_eq!(tree.pointer("/servers/00"), None);
    assert_eq!(tree.pointer("/servers/0"), tree.pointer("/servers/0"));
    assert!(tree.pointer("/servers/0").is_some());
}

#[test]
fn an_index_too_large_for_the_machine_is_no_index() {
    let tree = sample();
    assert_eq!(tree.pointer("/servers/18446744073709551616"), None);
    assert_eq!(tree.pointer("/servers/99999999999999999999999999999999999999999"), None);
}

#[test]
fn digits_are_a_key_in_an_object() {
    let tree = sample();
    assert_eq!(tree.pointer("/0"), Some(&text("zero key")));
}

#[test]
fn empty_token_is_the_empty_key() {
    let tree = sample();
    assert_eq!(tree.pointer("/"), Some(&text("empty key")));
}

#[test]
fn tokens_are_unescaped() {
    let tree = sample();
    assert_eq!(tree.pointer("/a~1b"), Some(&text("slash")));
    assert_eq!(tree.pointer("/m~0n"), Some(&text("tilde")));
    assert_eq!(tree.pointer("/~01"), Some(&text("tilde one")));
    assert_eq!(tree.pointer("/a/b"), None);
}

#[test]
fn tokens_of_a_pointer() {
    assert_eq!(pointer_tokens(""), Some(vec![]));
    assert_eq!(pointer_tokens("/"), Some(vec!["".to_string()]));
    assert_eq!(pointer_tokens("/a/b"), Some(vec!["a".to_string(), "b".to_string()]));
    assert_eq!(pointer_tokens("/a//b/"), Some(vec!["a".to_string(), "".to_string(), "b".to_string(), "".to_string()]));
    assert_eq!(pointer_tokens("/~1~0/~01/~/~2"), Some(vec!["/~".to_string(), "~1".to_string(), "~".to_string(), "~2".to_string()]));
    assert_eq!(pointer_tokens("/~~1~00"), Some(vec!["~/~0".to_string()]));
}

#[test]
fn index_below_the_length() {
    assert_eq!(parse_index("0", 1), Some(0));
    assert_eq!(parse_index("7", 8), Some(7));
    assert_eq!(parse_index("120", 121), Some(120));
    assert_eq!(parse_index("18446744073709551614", usize::MAX), Some(18446744073709551614));
}

#[test]
fn index_at_or_above_the_length() {
    assert_eq!(parse_index("0", 0), None);
    assert_eq!(parse_index("8", 8), None);
    assert_eq!(parse_index("120", 12), None);
    assert_eq!(parse_index("18446744073709551615", usize::MAX), None);
    assert_eq!(parse_index("184467440737095516150", usize::MAX), None);
}

#[test]
fn what_is_no_index() {
    assert_eq!(parse_index("", 10), None);
    assert_eq!(parse_index("+1", 10), None);
    assert_eq!(parse_index("-1", 10), None);
    assert_eq!(parse_index("01", 10), None);
    assert_eq!(parse_index("1a", 10), None);
    assert_eq!(parse_index("a1", 10), None);
    assert_eq!(parse_index(" 1", 10), None);
    assert_eq!(parse_index("١", 10), None);
}

#[test]
fn child_of_an_object_and_of_an_array() {
    let tree = sample();
    assert_eq!(tree.child("name"), Some(&text("root")));
    assert_eq!(tree.child("absent"), None);
    let servers = tree.child("servers").unwrap();
    assert_eq!(servers.child("2"), Some(&text("plain")));
    assert_eq!(servers.child("3"), None);
    assert_eq!(text("leaf").child("0"), None);
}

#[test]
fn pointer_agrees_with_serde_json() {
    let tree = sample();
    let json = to_json(&tree);
    let pointers = [
        "", "/", "//", "name", "/name", "/name/", "/absent", "/a~1b", "/m~0n", "/~01", "/~1", "/~0",
        "/~", "/~2", "/a/b", "/0", "/00", "/servers", "/servers/", "/servers/0", "/servers/1",
        "/servers/2", "/servers/3", "/servers/00", "/servers/01", "/servers/+0", "/servers/-0",
        "/servers/0/host", "/servers/0/port", "/servers/1/ports", "/servers/1/ports/0",
        "/servers/1/ports/1", "/servers/1/ports/2", "/servers/1/ports/1/x", "/servers/2/x",
        "/servers/18446744073709551615", "/servers/18446744073709551616", "/servers/0x1",
        "/servers/1 ", "/nested", "/nested/deep", "/nested/deep/leaf", "/nested/deep/leaf/x",
        "/nested//deep", "/nothing", "/nothing/0", "servers/0", "~", "/servers/~01",
    ];
    for pointer in pointers.iter() {
        let ours = tree.pointer(pointer).map(to_json);
        let theirs = json.pointer(pointer).cloned();
        assert_eq!(ours, theirs, "pointer {:?}", pointer);
    }
}
