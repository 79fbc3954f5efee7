use benchpress_sys::paths::{iter_element, relative, resolve, split};

fn strings(v: &[&str]) -> Vec<String> {
    v.iter().map(|s| s.to_string()).collect()
}

#[test]
fn split_test() {
    assert_eq!(
        split("../../thing".to_string()),
        vec!["../".to_string(), "../".to_string(), "thing".to_string()]
    );
}

#[test]
fn rel_test() {
    assert_eq!(
        relative(&vec![], vec!["../".to_string(), "../".to_string(), "thing".to_string()]),
        vec!["thing".to_string()]
    );
}

#[test]
fn split_fields_and_markers() {
    assert_eq!(split("a.b.c".to_string()), strings(&["a", "b", "c"]));
    assert_eq!(split("./a".to_string()), strings(&["./", "a"]));
    assert_eq!(split("".to_string()), strings(&[""]));
}

#[test]
fn relative_walks_from_the_base() {
    let base = strings(&["a", "b", "c"]);
    assert_eq!(relative(&base, strings(&["../", "../", "x"])), strings(&["a", "b", "x"]));
    assert_eq!(relative(&base, strings(&["./", "x"])), strings(&["a", "b", "c", "x"]));
    assert_eq!(relative(&strings(&["a"]), strings(&["../", "../", "../"])), Vec::<String>::new());
}

#[test]
fn resolve_prefers_the_nested_scope() {
    let base = strings(&["people", "name[1]"]);
    assert_eq!(resolve(&base, split("people.name".to_string())), strings(&["people", "name[1]"]));
}

#[test]
fn resolve_longest_then_deepest() {
    let base = strings(&["a[1]", "b[2]", "a[3]"]);
    assert_eq!(resolve(&base, strings(&["a", "x"])), strings(&["a[1]", "b[2]", "a[3]", "x"]));
    assert_eq!(resolve(&base, strings(&["a", "b", "y"])), strings(&["a[1]", "b[2]", "y"]));
    assert_eq!(resolve(&base, strings(&["z", "w"])), strings(&["z", "w"]));
    assert_eq!(resolve(&strings(&["items[12]"]), strings(&["items", "id"])), strings(&["items[12]", "id"]));
    assert_eq!(resolve(&base, strings(&["../", "q"])), strings(&["a[1]", "b[2]", "a[3]", "q"]));
}

#[test]
fn iter_element_decorates_the_last_segment() {
    assert_eq!(iter_element(&strings(&["a", "b"]), 3), strings(&["a", "b[3]"]));
    assert_eq!(iter_element(&strings(&[]), 12), strings(&["[12]"]));
}

#[test]
fn relative_with_empty_base_strips_only_leading_markers() {
    assert_eq!(relative(&vec![], strings(&["./", "a", "../", "b"])), strings(&["a", "../", "b"]));
}

#[test]
fn only_numeric_suffixes_are_ignored() {
    assert_eq!(resolve(&strings(&["a[]"]), strings(&["a"])), strings(&["a"]));
    assert_eq!(resolve(&strings(&["a[x]"]), strings(&["a"])), strings(&["a"]));
    assert_eq!(resolve(&strings(&["a[1]"]), strings(&["a"])), strings(&["a[1]"]));
    assert_eq!(resolve(&strings(&["[7]"]), strings(&[""])), strings(&["[7]"]));
}
