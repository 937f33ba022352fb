use tt::error::Error;
use tt::apply::apply_includes;
use tt::merge::{insert_data, merge_fragment, merge_named};
use tt::value::{Object, Value};

fn text(s: &str) -> Value {
    Value::String(s.to_string())
}

fn whole(n: u64) -> Value {
    Value::Number(serde_json::Number::from(n))
}

fn fields(pairs: Vec<(&str, Value)>) -> Object {
    let mut made = Object::new();
    for (key, value) in pairs {
        made.insert(key.to_string(), value);
    }
    made
}

fn object(pairs: Vec<(&str, Value)>) -> Value {
    Value::Object(fields(pairs))
}

fn names(list: &[&str]) -> Vec<String> {
    list.iter().map(|name| name.to_string()).collect()
}

#[test]
fn absent_key_takes_the_value_as_it_is() {
    let mut target = fields(vec![("host", text("alpha"))]);
    let value = object(vec![("deep", object(vec![("leaf", whole(1))]))]);
    assert_eq!(insert_data(&mut target, "limits", &value), Ok(()));
    assert_eq!(target.get("limits"), Some(&value));
    assert_eq!(target.get("host"), Some(&text("alpha")));
    assert_eq!(target.len(), 2);
}

#[test]
fn absent_key_takes_a_scalar() {
    let mut target = Object::new();
    assert_eq!(insert_data(&mut target, "port", &whole(80)), Ok(()));
    assert_eq!(target, fields(vec![("port", whole(80))]));
}

#[test]
fn changing_the_merged_copy_leaves_the_registry_alone() {
    let root = object(vec![
        ("include", object(vec![("base", object(vec![("limits", object(vec![("cpu", whole(2))]))]))])),
        ("web", object(vec![("host", text("alpha"))])),
    ]);
    let before = root.clone();
    let mut context = root.clone();
    assert_eq!(apply_includes(&root, &mut context, "/web", &names(&["base"])), Ok(()));
    assert_eq!(context.pointer("/web/limits/cpu"), Some(&whole(2)));
    let mut web = match context.get("web") {
        Some(Value::Object(web)) => web.clone(),
        _ => panic!("web is an object"),
    };
    web.insert("limits".to_string(), text("changed"));
    let mut taken = match context {
        Value::Object(taken) => taken,
        _ => panic!("the context is an object"),
    };
    taken.insert("web".to_string(), Value::Object(web));
    let context = Value::Object(taken);
    assert_eq!(context.pointer("/web/limits"), Some(&text("changed")));
    assert_eq!(root, before);
    assert_eq!(root.pointer("/include/base/limits/cpu"), Some(&whole(2)));
    assert_eq!(context.pointer("/include/base/limits/cpu"), Some(&whole(2)));
}

#[test]
fn object_into_object_overwrites_only_what_overlaps() {
    let mut target = fields(vec![
        ("limits", object(vec![("cpu", whole(1)), ("memory", whole(512))])),
        ("host", text("alpha")),
    ]);
    let value = object(vec![("cpu", whole(4)), ("disk", whole(10))]);
    assert_eq!(insert_data(&mut target, "limits", &value), Ok(()));
    assert_eq!(
        target,
        fields(vec![
            ("limits", object(vec![("cpu", whole(4)), ("memory", whole(512)), ("disk", whole(10))])),
            ("host", text("alpha")),
        ])
    );
}

#[test]
fn merge_goes_one_level_deep_only() {
    let mut target = fields(vec![(
        "limits",
        object(vec![("cpu", object(vec![("min", whole(1)), ("max", whole(2))]))]),
    )]);
    let value = object(vec![("cpu", object(vec![("max", whole(8))]))]);
    assert_eq!(insert_data(&mut target, "limits", &value), Ok(()));
    assert_eq!(
        target,
        fields(vec![("limits", object(vec![("cpu", object(vec![("max", whole(8))]))]))])
    );
}

#[test]
fn object_into_scalar_is_a_mismatch() {
    let mut target = fields(vec![("limits", text("none")), ("host", text("alpha"))]);
    let before = target.clone();
    let value = object(vec![("cpu", whole(4))]);
    assert_eq!(
        insert_data(&mut target, "limits", &value),
        Err(Error::MergeTypeMismatch("limits".to_string()))
    );
    assert_eq!(target, before);
}

#[test]
fn scalar_into_object_is_a_mismatch() {
    let mut target = fields(vec![("limits", object(vec![("cpu", whole(1))]))]);
    let before = target.clone();
    assert_eq!(
        insert_data(&mut target, "limits", &whole(3)),
        Err(Error::MergeTypeMismatch("limits".to_string()))
    );
    assert_eq!(target, before);
}

#[test]
fn scalar_into_scalar_is_a_mismatch() {
    let mut target = fields(vec![("port", whole(80))]);
    assert_eq!(
        insert_data(&mut target, "port", &whole(80)),
        Err(Error::MergeTypeMismatch("port".to_string()))
    );
    assert_eq!(target, fields(vec![("port", whole(80))]));
}

#[test]
fn array_into_array_is_a_mismatch() {
    let mut target = fields(vec![("ports", Value::Array(vec![whole(1)]))]);
    assert_eq!(
        insert_data(&mut target, "ports", &Value::Array(vec![whole(2)])),
        Err(Error::MergeTypeMismatch("ports".to_string()))
    );
}

#[test]
fn fragment_merges_each_field() {
    let mut target = fields(vec![("host", text("alpha")), ("limits", object(vec![("cpu", whole(1))]))]);
    let fragment = fields(vec![
        ("port", whole(80)),
        ("limits", object(vec![("memory", whole(256))])),
    ]);
    assert_eq!(merge_fragment(&mut target, &fragment), Ok(()));
    assert_eq!(
        target,
        fields(vec![
            ("host", text("alpha")),
            ("limits", object(vec![("cpu", whole(1)), ("memory", whole(256))])),
            ("port", whole(80)),
        ])
    );
}

#[test]
fn fragment_stops_at_the_first_field_that_clashes() {
    let mut target = fields(vec![("b", whole(1)), ("c", whole(2))]);
    let fragment = fields(vec![("a", whole(10)), ("b", whole(20)), ("c", whole(30)), ("d", whole(40))]);
    assert_eq!(
        merge_fragment(&mut target, &fragment),
        Err(Error::MergeTypeMismatch("b".to_string()))
    );
    assert_eq!(target, fields(vec![("b", whole(1)), ("c", whole(2)), ("a", whole(10))]));
}

#[test]
fn empty_fragment_changes_nothing() {
    let mut target = fields(vec![("host", text("alpha"))]);
    assert_eq!(merge_fragment(&mut target, &Object::new()), Ok(()));
    assert_eq!(target, fields(vec![("host", text("alpha"))]));
}

#[test]
fn later_fragment_wins_field_by_field() {
    let registry = fields(vec![
        ("a", object(vec![("x", object(vec![("one", whole(1)), ("both", text("from a"))]))])),
        ("b", object(vec![("x", object(vec![("both", text("from b")), ("two", whole(2))]))])),
    ]);
    let mut target = Object::new();
    assert_eq!(merge_named(&mut target, &registry, &names(&["a", "b"])), Ok(()));
    assert_eq!(
        target,
        fields(vec![(
            "x",
            object(vec![("one", whole(1)), ("both", text("from b")), ("two", whole(2))])
        )])
    );
}

#[test]
fn order_of_the_names_decides() {
    let registry = fields(vec![
        ("a", object(vec![("x", object(vec![("both", text("from a"))]))])),
        ("b", object(vec![("x", object(vec![("both", text("from b"))]))])),
    ]);
    let mut target = Object::new();
    assert_eq!(merge_named(&mut target, &registry, &names(&["b", "a"])), Ok(()));
    assert_eq!(target.get("x"), Some(&object(vec![("both", text("from a"))])));
}

#[test]
fn same_fragment_twice_clashes_on_its_scalars() {
    let registry = fields(vec![("a", object(vec![("port", whole(80))]))]);
    let mut target = Object::new();
    assert_eq!(
        merge_named(&mut target, &registry, &names(&["a", "a"])),
        Err(Error::MergeTypeMismatch("port".to_string()))
    );
    assert_eq!(target, fields(vec![("port", whole(80))]));
}

#[test]
fn unknown_fragment_is_reported_by_name() {
    let registry = fields(vec![("a", object(vec![("port", whole(80))]))]);
    let mut target = Object::new();
    assert_eq!(
        merge_named(&mut target, &registry, &names(&["a", "missing", "a"])),
        Err(Error::FragmentNotFound("missing".to_string()))
    );
    assert_eq!(target, fields(vec![("port", whole(80))]));
}

#[test]
fn fragment_that_is_no_object_is_reported_by_name() {
    let registry = fields(vec![("a", text("not a table")), ("b", object(vec![]))]);
    let mut target = Object::new();
    assert_eq!(
        merge_named(&mut target, &registry, &names(&["b", "a"])),
        Err(Error::FragmentNotAnObject("a".to_string()))
    );
}

fn document() -> Value {
    object(vec![
        (
            "include",
            object(vec![
                ("base", object(vec![("port", whole(80)), ("limits", object(vec![("cpu", whole(1))]))])),
                ("big", object(vec![("limits", object(vec![("cpu", whole(8)), ("memory", whole(64))]))])),
                ("broken", whole(3)),
            ]),
        ),
        ("web", object(vec![("host", text("alpha"))])),
        ("title", text("sample")),
        (
            "servers",
            Value::Array(vec![
                object(vec![("host", text("one"))]),
                object(vec![("host", text("two")), ("port", whole(22))]),
            ]),
        ),
    ])
}

#[test]
fn fragments_are_merged_at_the_pointer() {
    let root = document();
    let mut context = root.clone();
    assert_eq!(apply_includes(&root, &mut context, "/web", &names(&["base", "big"])), Ok(()));
    assert_eq!(
        context.get("web"),
        Some(&object(vec![
            ("host", text("alpha")),
            ("port", whole(80)),
            ("limits", object(vec![("cpu", whole(8)), ("memory", whole(64))])),
        ]))
    );
    assert_eq!(context.get("title"), root.get("title"));
    assert_eq!(context.get("include"), root.get("include"));
    assert_eq!(context.get("servers"), root.get("servers"));
}

#[test]
fn fragments_are_merged_into_an_item_of_an_array() {
    let root = document();
    let mut context = root.clone();
    assert_eq!(apply_includes(&root, &mut context, "/servers/0", &names(&["base"])), Ok(()));
    assert_eq!(
        context.pointer("/servers/0"),
        Some(&object(vec![
            ("host", text("one")),
            ("port", whole(80)),
            ("limits", object(vec![("cpu", whole(1))])),
        ]))
    );
    assert_eq!(context.pointer("/servers/1"), root.pointer("/servers/1"));
    assert_eq!(context.get("web"), root.get("web"));
}

#[test]
fn fragments_are_merged_into_the_root() {
    let root = document();
    let mut context = root.clone();
    assert_eq!(apply_includes(&root, &mut context, "", &names(&["big"])), Ok(()));
    assert_eq!(
        context.get("limits"),
        Some(&object(vec![("cpu", whole(8)), ("memory", whole(64))]))
    );
    assert_eq!(context.get("web"), root.get("web"));
}

#[test]
fn no_names_is_a_no_op() {
    let root = text("no registry here");
    let mut context = document();
    assert_eq!(apply_includes(&root, &mut context, "not a pointer", &names(&[])), Ok(()));
    assert_eq!(context, document());
    assert_eq!(apply_includes(&root, &mut context, "/title", &names(&[])), Ok(()));
    assert_eq!(context, document());
}

#[test]
fn pointer_that_leads_nowhere() {
    let root = document();
    let mut context = root.clone();
    assert_eq!(
        apply_includes(&root, &mut context, "/absent", &names(&["base"])),
        Err(Error::PointerNotFound)
    );
    assert_eq!(
        apply_includes(&root, &mut context, "/servers/2", &names(&["base"])),
        Err(Error::PointerNotFound)
    );
    assert_eq!(
        apply_includes(&root, &mut context, "/title/x", &names(&["base"])),
        Err(Error::PointerNotFound)
    );
    assert_eq!(
        apply_includes(&root, &mut context, "web", &names(&["base"])),
        Err(Error::PointerNotFound)
    );
    assert_eq!(context, root);
}

#[test]
fn scope_that_is_no_object() {
    let root = document();
    let mut context = root.clone();
    assert_eq!(
        apply_includes(&root, &mut context, "/title", &names(&["base"])),
        Err(Error::NotAnObject)
    );
    assert_eq!(
        apply_includes(&root, &mut context, "/servers", &names(&["base"])),
        Err(Error::NotAnObject)
    );
    assert_eq!(context, root);
}

#[test]
fn document_without_a_registry() {
    let root = object(vec![("web", object(vec![("host", text("alpha"))]))]);
    let mut context = root.clone();
    assert_eq!(
        apply_includes(&root, &mut context, "/web", &names(&["base"])),
        Err(Error::RegistryMissing)
    );
    assert_eq!(context, root);
}

#[test]
fn registry_that_is_no_object() {
    let root = object(vec![
        ("include", Value::Array(vec![text("base")])),
        ("web", object(vec![("host", text("alpha"))])),
    ]);
    let mut context = root.clone();
    assert_eq!(
        apply_includes(&root, &mut context, "/web", &names(&["base"])),
        Err(Error::RegistryMissing)
    );
    assert_eq!(apply_includes(&text("scalar"), &mut context, "/web", &names(&["base"])), Err(Error::RegistryMissing));
    assert_eq!(context, root);
}

#[test]
fn pointer_is_checked_before_scope_and_registry() {
    let root = object(vec![("title", text("sample"))]);
    let mut context = root.clone();
    assert_eq!(
        apply_includes(&root, &mut context, "/absent", &names(&["base"])),
        Err(Error::PointerNotFound)
    );
    assert_eq!(
        apply_includes(&root, &mut context, "/title", &names(&["base"])),
        Err(Error::NotAnObject)
    );
}

#[test]
fn fragment_failures_at_the_pointer() {
    let root = document();
    let mut context = root.clone();
    assert_eq!(
        apply_includes(&root, &mut context, "/web", &names(&["nowhere"])),
        Err(Error::FragmentNotFound("nowhere".to_string()))
    );
    assert_eq!(
        apply_includes(&root, &mut context, "/web", &names(&["broken"])),
        Err(Error::FragmentNotAnObject("broken".to_string()))
    );
    assert_eq!(context, root);
    assert_eq!(
        apply_includes(&root, &mut context, "/servers/1", &names(&["base"])),
        Err(Error::MergeTypeMismatch("port".to_string()))
    );
}

#[test]
fn failure_leaves_what_was_merged_before_it() {
    let root = document();
    let mut context = root.clone();
    assert_eq!(
        apply_includes(&root, &mut context, "/web", &names(&["big", "nowhere"])),
        Err(Error::FragmentNotFound("nowhere".to_string()))
    );
    assert_eq!(
        context.get("web"),
        Some(&object(vec![
            ("host", text("alpha")),
            ("limits", object(vec![("cpu", whole(8)), ("memory", whole(64))])),
        ]))
    );
    assert_eq!(context.get("servers"), root.get("servers"));
}

#[test]
fn registry_is_read_from_the_document_not_from_the_target() {
    let root = document();
    let mut context = object(vec![("web", object(vec![]))]);
    assert_eq!(apply_includes(&root, &mut context, "/web", &names(&["base"])), Ok(()));
    assert_eq!(context.pointer("/web/port"), Some(&whole(80)));
}
