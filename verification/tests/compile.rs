use url_pattern::{regexp_for_pattern, Options, ParseError};

fn slash_opts() -> Options {
    Options { delimiter: Some('/'), prefix: Some('/'), ignore_case: false }
}

#[test]
fn smoke_test() {
    let opts = slash_opts();

    let result = regexp_for_pattern("abc", &opts).unwrap();
    assert_eq!(result, "^abc$");

    let result = regexp_for_pattern("{foo}", &opts).unwrap();
    assert_eq!(result, "^foo$");

    let result = regexp_for_pattern("{bar}?", &opts).unwrap();
    assert_eq!(result, "^(?:bar)?$");

    let result = regexp_for_pattern("/:bar", &opts).unwrap();
    assert_eq!(result, r"^(?:\/([^\/]+?))$");

    let result = regexp_for_pattern("/:foo/:bar", &opts).unwrap();
    assert_eq!(result, r"^(?:\/([^\/]+?))(?:\/([^\/]+?))$");

    let result = regexp_for_pattern("/:foo/:bar?", &opts).unwrap();
    assert_eq!(result, r"^(?:\/([^\/]+?))(?:\/([^\/]+?))?$");

    let result = regexp_for_pattern("/:foo?/:bar?", &opts).unwrap();
    assert_eq!(result, r"^(?:\/([^\/]+?))?(?:\/([^\/]+?))?$");

    let result = regexp_for_pattern("/:foo?/:bar", &opts).unwrap();
    assert_eq!(result, r"^(?:\/([^\/]+?))?(?:\/([^\/]+?))$");
}

#[test]
fn parse_example_1() {
    let opts = slash_opts();

    assert_eq!(regexp_for_pattern("/", &opts).unwrap(), r"^\/$");
    assert_eq!(regexp_for_pattern(":foo", &opts).unwrap(), r"^([^\/]+?)$");
    assert_eq!(regexp_for_pattern("/:foo", &opts).unwrap(), r"^(?:\/([^\/]+?))$");
    assert_eq!(regexp_for_pattern("/:foo?", &opts).unwrap(), r"^(?:\/([^\/]+?))?$");
}

#[test]
fn parse_example_2() {
    let opts = slash_opts();

    assert_eq!(regexp_for_pattern("{:foo}?", &opts).unwrap(), r"^([^\/]+?)?$");
    assert_eq!(regexp_for_pattern("{ab}?", &opts).unwrap(), "^(?:ab)?$");
}

#[test]
fn custom_regexp_groups() {
    let opts = slash_opts();

    assert_eq!(regexp_for_pattern("/:foo(bar)?", &opts).unwrap(), r"^(?:\/(bar))?$");
    assert_eq!(regexp_for_pattern("{a:foo(bar)b}?", &opts).unwrap(), "^(?:a(bar)b)?$");
    assert_eq!(regexp_for_pattern("(bar)", &opts).unwrap(), "^(bar)$");
    assert_eq!(regexp_for_pattern("(bar)?", &opts).unwrap(), "^(bar)?$");
}

#[test]
fn nested_parentheses_stay_in_the_group() {
    let opts = slash_opts();
    assert_eq!(regexp_for_pattern("(a(b)c)", &opts).unwrap(), "^(a(b)c)$");
}

#[test]
fn identifiers_stop_at_the_first_non_letter() {
    let opts = slash_opts();
    assert_eq!(regexp_for_pattern(":foo9", &opts).unwrap(), r"^([^\/]+?)9$");
}

#[test]
fn repeated_braced_literals() {
    let opts = slash_opts();
    assert_eq!(regexp_for_pattern("{x}*", &opts).unwrap(), "^(?:x)*$");
    assert_eq!(regexp_for_pattern("{x}+", &opts).unwrap(), "^(?:x)+$");
}

#[test]
fn asterisk_after_name_in_group_is_no_wildcard() {
    let opts = slash_opts();
    assert_eq!(regexp_for_pattern("{:foo*}", &opts), Err(ParseError::MissingClosingCurly));
}

#[test]
fn unterminated_regexp_group_is_rejected() {
    let opts = slash_opts();
    assert_eq!(regexp_for_pattern("(abc", &opts), Err(ParseError::ParenthesesMismatch));
}

#[test]
fn unterminated_brace_group_is_rejected() {
    let opts = slash_opts();
    assert_eq!(regexp_for_pattern("{abc", &opts), Err(ParseError::MissingClosingCurly));
}

#[test]
fn trailing_backslash_is_rejected() {
    let opts = slash_opts();
    assert_eq!(regexp_for_pattern("\\", &opts), Err(ParseError::UnexpectedEnd));
}

#[test]
fn stray_close_brace_is_rejected() {
    let opts = slash_opts();
    assert_eq!(regexp_for_pattern("abc}", &opts), Err(ParseError::UnexpectedEnd));
}

#[test]
fn duplicate_names_are_rejected() {
    let opts = slash_opts();
    assert_eq!(regexp_for_pattern("/:foo/:foo", &opts), Err(ParseError::DuplicateName));
    assert_eq!(regexp_for_pattern(":a:a", &opts), Err(ParseError::DuplicateName));
}

#[test]
fn escaped_characters_become_literals() {
    let opts = slash_opts();

    assert_eq!(regexp_for_pattern("\\*", &opts).unwrap(), r"^\*$");
    assert_eq!(regexp_for_pattern("a\\{b\\}c", &opts).unwrap(), r"^a\{b\}c$");
}

#[test]
fn literal_metacharacters_are_escaped() {
    let opts = slash_opts();

    assert_eq!(regexp_for_pattern("a.b", &opts).unwrap(), r"^a\.b$");
    assert_eq!(regexp_for_pattern("a|b", &opts).unwrap(), r"^a\|b$");
    assert_eq!(regexp_for_pattern("{/}?", &opts).unwrap(), r"^(?:\/)?$");
}

#[test]
fn unnamed_placeholders_get_ordinals() {
    let opts = slash_opts();

    assert_eq!(regexp_for_pattern("*", &opts).unwrap(), "^(.*)$");
    assert_eq!(regexp_for_pattern("*/*", &opts).unwrap(), r"^(.*)(?:\/(.*))$");
    assert_eq!(regexp_for_pattern("(a)(b)", &opts).unwrap(), "^(a)(b)$");
}

#[test]
fn repeat_modifiers_bind_affixes() {
    let opts = slash_opts();

    assert_eq!(
        regexp_for_pattern("/:foo*", &opts).unwrap(),
        r"^(?:\/((?:[^\/]+?)(?:\/(?:[^\/]+?))*))?$"
    );
    assert_eq!(
        regexp_for_pattern("/:foo+", &opts).unwrap(),
        r"^(?:\/((?:[^\/]+?)(?:\/(?:[^\/]+?))*))$"
    );
    assert_eq!(regexp_for_pattern(":foo*", &opts).unwrap(), r"^((?:[^\/]+?)*)$");
    assert_eq!(regexp_for_pattern(":foo+", &opts).unwrap(), r"^((?:[^\/]+?)+)$");
}

#[test]
fn brace_groups_of_pure_literals_merge() {
    let opts = slash_opts();
    assert_eq!(regexp_for_pattern("x{ab}y", &opts).unwrap(), "^xaby$");
}

#[test]
fn unset_delimiter_gives_empty_class() {
    let opts = Options::default();
    assert_eq!(regexp_for_pattern(":foo", &opts).unwrap(), "^([^]+?)$");
}

#[test]
fn unconfigured_prefix_reclassifies_candidate() {
    // With no prefix character configured, a character before a placeholder
    // is ordinary literal text and the placeholder's prefix stays empty.
    let opts = Options { delimiter: Some('/'), prefix: None, ignore_case: false };
    assert_eq!(regexp_for_pattern("x:foo", &opts).unwrap(), r"^x([^\/]+?)$");
    assert_eq!(regexp_for_pattern("x:foo", &Options::default()).unwrap(), "^x([^]+?)$");
}

#[test]
fn prefix_only_absorbed_when_it_matches() {
    let opts = Options { delimiter: Some('/'), prefix: Some('.'), ignore_case: false };
    // '/' is not the configured prefix, so it stays literal text.
    assert_eq!(regexp_for_pattern("/:foo", &opts).unwrap(), r"^\/([^\/]+?)$");
}

#[test]
fn ignore_case_is_accepted_unchanged() {
    let mut opts = slash_opts();
    opts.ignore_case = true;
    assert_eq!(regexp_for_pattern("abc", &opts).unwrap(), "^abc$");
}

#[test]
fn compilation_is_deterministic() {
    let opts = slash_opts();
    let first = regexp_for_pattern("/:foo/(bar)*", &opts);
    let second = regexp_for_pattern("/:foo/(bar)*", &opts);
    assert_eq!(first, second);
}
