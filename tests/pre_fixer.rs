use benchpress_sys::pre_fixer::{legacy_token_replacement, pre_fix, rewrite_legacy_loop};

#[test]
fn loop_helpers() {
    let source = "
        {function.foo_bar}
        ";
    let expected = "
        {function.foo_bar, @value}
        ";

    assert_eq!(pre_fix(source), expected);
}

#[test]
fn outside_tokens() {
    let source = "
        @key : @value
        @index : @value
        {@key} : {@value}
        {@index} : {@value}
        ";
    let expected = "
        {@key} : {@value}
        {@index} : {@value}
        {@key} : {@value}
        {@index} : {@value}
        ";

    assert_eq!(pre_fix(source), expected);
}

#[test]
fn helpers_root() {
    let source = "
        <!-- IF function.foo_bar -->
        asdf ghjk
        <!-- END -->

        <!-- IF function.hello_world, one, two -->
        qwer tyui
        <!-- END -->
        ";
    let expected = "
        <!-- IF function.foo_bar, @root -->
        asdf ghjk
        <!-- END -->

        <!-- IF function.hello_world, @root, one, two -->
        qwer tyui
        <!-- END -->
        ";

    assert_eq!(pre_fix(source), expected);
}

#[test]
fn legacy_if_helper_gets_root() {
    assert_eq!(
        pre_fix("<!-- IF function.is_admin -->X<!-- END -->"),
        "<!-- IF function.is_admin, @root -->X<!-- END -->"
    );
}

#[test]
fn nested_legacy_loop_tries_relative_path_first() {
    assert_eq!(
        pre_fix("<!-- BEGIN outer --><!-- BEGIN items -->x<!-- END items --><!-- END outer -->"),
        "<!-- BEGIN outer --><!-- IF ../items --><!-- BEGIN ../items -->x<!-- END ../items -->\
         <!-- ELSE --><!-- BEGIN items -->x<!-- END items --><!-- ENDIF ../items --><!-- END outer -->"
    );
}

#[test]
fn outermost_legacy_loop_stays() {
    let source = "<!-- BEGIN items -->{items.name}<!-- END items -->";
    assert_eq!(pre_fix(source), source);
}

#[test]
fn token_replacement_cases() {
    let s = |x: &str| x.to_string();
    assert_eq!(
        legacy_token_replacement(Some(s("f")), s(""), None, None, s("w")),
        "<!-- IF function.f, @root -->"
    );
    assert_eq!(
        legacy_token_replacement(Some(s("f")), s("a, b"), None, None, s("w")),
        "<!-- IF function.f, @root, a, b -->"
    );
    assert_eq!(legacy_token_replacement(None, s(""), Some(s("g")), None, s("w")), "{function.g, @value}");
    assert_eq!(legacy_token_replacement(None, s(""), None, Some(s("@key")), s("w")), "{@key}");
    assert_eq!(legacy_token_replacement(None, s(""), None, None, s("{a}")), "{a}");
}

#[test]
fn single_character_subject_is_no_legacy_loop() {
    let source = "<!-- BEGIN o --><!-- BEGIN i -->x<!-- END i --><!-- END o -->";
    assert_eq!(pre_fix(source), source);
}

#[test]
fn unclosed_legacy_loop_stays_as_it_is() {
    let mut source = String::from("<!-- BEGIN a -->");
    source.push_str(&"<".repeat(200_000));
    assert_eq!(pre_fix(&source), source);
}

#[test]
fn first_matching_closer_ends_a_loop() {
    assert_eq!(
        pre_fix("<!-- BEGIN outer --><!-- BEGIN it -->x<!-- END it -->y<!-- END it --><!-- END outer -->"),
        "<!-- BEGIN outer --><!-- IF ../it --><!-- BEGIN ../it -->x<!-- END ../it --><!-- ELSE -->\
         <!-- BEGIN it -->x<!-- END it --><!-- ENDIF ../it -->y<!-- END it --><!-- END outer -->"
    );
}

#[test]
fn loop_replacement_text() {
    let s = |x: &str| x.to_string();
    assert_eq!(rewrite_legacy_loop(&s("a"), &s("b"), true), "<!-- BEGIN a -->b<!-- END a -->");
    assert_eq!(
        rewrite_legacy_loop(&s("a"), &s("b"), false),
        "<!-- IF ../a --><!-- BEGIN ../a -->b<!-- END ../a --><!-- ELSE --><!-- BEGIN a -->b<!-- END a --><!-- ENDIF ../a -->"
    );
}

#[test]
fn sibling_nested_loops_are_each_rewritten() {
    let out = pre_fix("<!-- BEGIN outer --><!-- BEGIN ab -->1<!-- END ab --><!-- BEGIN cd -->2<!-- END cd --><!-- END outer -->");
    assert_eq!(
        out,
        "<!-- BEGIN outer -->\
         <!-- IF ../ab --><!-- BEGIN ../ab -->1<!-- END ../ab --><!-- ELSE --><!-- BEGIN ab -->1<!-- END ab --><!-- ENDIF ../ab -->\
         <!-- IF ../cd --><!-- BEGIN ../cd -->2<!-- END ../cd --><!-- ELSE --><!-- BEGIN cd -->2<!-- END cd --><!-- ENDIF ../cd -->\
         <!-- END outer -->"
    );
}
