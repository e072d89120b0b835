use tempel::{Bindings, TempelError, TempelVar, Template};

fn one(k: &str, v: TempelVar) -> Bindings {
    let mut b = Bindings::new();
    b.insert(k, v);
    b
}

fn list(xs: &[&str]) -> TempelVar {
    TempelVar::List(xs.iter().map(|x| x.to_string()).collect())
}

#[test]
fn normalizing_twice_changes_nothing() {
    let once = Template::new("a {{ \t x\t }} b {{\t y}}")
        .unwrap()
        .render(Bindings::new())
        .unwrap();
    assert_eq!(once, "a {{x}} b {{y}}");
    let twice = Template::new(&once).unwrap().render(Bindings::new()).unwrap();
    assert_eq!(twice, once);
}

#[test]
fn padding_does_not_change_rendering() {
    let plain = Template::new("{{who}}").unwrap();
    let padded = Template::new("{{ \t\t  who\t \t}}").unwrap();
    let a = plain.render(one("who", TempelVar::String("me".to_string()))).unwrap();
    let b = padded.render(one("who", TempelVar::String("me".to_string()))).unwrap();
    assert_eq!(a, "me");
    assert_eq!(a, b);
}

#[test]
fn empty_bindings_keep_placeholders() {
    let t = Template::new("Hello {{name}} and {{ other }}!").unwrap();
    assert_eq!(t.render(Bindings::new()).unwrap(), "Hello {{name}} and {{other}}!");
}

#[test]
fn unrelated_binding_is_ignored() {
    let t = Template::new("Hello {{name}}").unwrap();
    let out = t.render(one("foo", TempelVar::String("bar".to_string()))).unwrap();
    assert_eq!(out, "Hello {{name}}");
}

#[test]
fn list_renders_bracketed() {
    let t = Template::new("{{names}}").unwrap();
    let out = t.render(one("names", list(&["foo", "bar", "baz"]))).unwrap();
    assert_eq!(out, "[foo, bar, baz]");
}

#[test]
fn list_of_one_and_of_none() {
    assert_eq!(list(&["x"]).as_string(), "[x]");
    assert_eq!(list(&[]).as_string(), "[]");
    assert_eq!(TempelVar::String("plain".to_string()).as_string(), "plain");
}

#[test]
fn name_that_is_a_prefix_of_another() {
    let t = Template::new("{{na}} {{name}}").unwrap();
    let mut b = Bindings::new();
    b.insert("na", TempelVar::String("1".to_string()));
    b.insert("name", TempelVar::String("2".to_string()));
    assert_eq!(t.render(b).unwrap(), "1 2");
}

#[test]
fn later_insert_replaces_earlier() {
    let t = Template::new("{{x}}").unwrap();
    let mut b = Bindings::new();
    b.insert("x", TempelVar::String("old".to_string()));
    b.insert("x", TempelVar::String("new".to_string()));
    assert_eq!(t.render(b).unwrap(), "new");
}

#[test]
fn nested_braces_unbalanced() {
    assert!(matches!(
        Template::new("{{ {{ test }}"),
        Err(TempelError::UnbalancedBraces)
    ));
}

#[test]
fn crossed_pairs_rejected() {
    assert!(matches!(
        Template::new("{{ {{ }} }}"),
        Err(TempelError::FormatError { start: 0, end: 4 })
    ));
    assert!(matches!(
        Template::new("}} {{ }} {{"),
        Err(TempelError::FormatError { start: 3, end: 0 })
    ));
}

#[test]
fn format_error_offsets_are_bytes() {
    assert!(matches!(
        Template::new("é}} {{"),
        Err(TempelError::FormatError { start: 5, end: 2 })
    ));
}

#[test]
fn missing_list_is_an_error() {
    let t = Template::new("A{% for x in xs %}{{x}}{% endfor %}B").unwrap();
    match t.render(Bindings::new()) {
        Err(TempelError::NoSuchList(name)) => assert_eq!(name, "xs"),
        other => panic!("unexpected {:?}", other),
    }
}

#[test]
fn scalar_in_place_of_list_is_an_error() {
    let t = Template::new("{% for x in xs %}{{x}}{% endfor %}").unwrap();
    match t.render(one("xs", TempelVar::String("no".to_string()))) {
        Err(TempelError::NoSuchList(name)) => assert_eq!(name, "xs"),
        other => panic!("unexpected {:?}", other),
    }
}

#[test]
fn empty_list_renders_nothing() {
    let t = Template::new("before[{% for x in xs %}{{x}},{% endfor %}]after").unwrap();
    let out = t.render(one("xs", list(&[]))).unwrap();
    assert_eq!(out, "before[]after");
}

#[test]
fn padded_loop_keywords() {
    let t = Template::new("{%  for x in xs \t%}<{{x}}>{%\tendfor  %}").unwrap();
    let out = t.render(one("xs", list(&["a", "b"]))).unwrap();
    assert_eq!(out, "<a><b>");
}

#[test]
fn two_loops() {
    let t = Template::new("{% for a in xs %}{{a}}{% endfor %}|{% for b in ys %}{{b}}{% endfor %}")
        .unwrap();
    let mut v = Bindings::new();
    v.insert("xs", list(&["1", "2"]));
    v.insert("ys", list(&["3"]));
    assert_eq!(t.render(v).unwrap(), "12|3");
}

#[test]
fn unclosed_loop_stays_as_text() {
    let t = Template::new("{% for x in xs %}{{x}}").unwrap();
    let out = t.render(one("xs", list(&["a"]))).unwrap();
    assert_eq!(out, "{% for x in xs %}{{x}}");
}

#[test]
fn replace_vars_directly() {
    let v = one("n", TempelVar::String("v".to_string()));
    assert_eq!(Template::replace_vars("<{{n}}>".to_string(), &v), "<v>");
}

#[test]
fn parse_loops_directly() {
    let v = one("xs", list(&["p", "q"]));
    let out = Template::parse_loops("{% for x in xs %}{{x}}{% endfor %}".to_string(), &v).unwrap();
    assert_eq!(out, "pq");
}

#[test]
fn declared_names_skip_spaced_interiors() {
    let t = Template::new("{{a}} {{b c}} {{ d }} {% for x in xs %}{% endfor %}").unwrap();
    assert_eq!(t.variables(), &vec!["a".to_string(), "d".to_string()]);
}

#[test]
fn loop_variable_wins_over_outer_binding() {
    let t = Template::new("{% for x in xs %}{{x}}{{y}}{% endfor %}").unwrap();
    let mut v = Bindings::new();
    v.insert("xs", list(&["a"]));
    v.insert("x", TempelVar::String("o".to_string()));
    v.insert("y", TempelVar::String("v".to_string()));
    assert_eq!(t.render(v).unwrap(), "av");
}

#[test]
fn outer_value_cannot_break_a_block() {
    let t = Template::new("{% for x in xs %}{{y}}{% endfor %}").unwrap();
    match t.render(one("y", TempelVar::String("a\nb{% endfor %}".to_string()))) {
        Err(TempelError::NoSuchList(name)) => assert_eq!(name, "xs"),
        other => panic!("unexpected {:?}", other),
    }
}

#[test]
fn outer_placeholder_inside_body_is_substituted() {
    let t = Template::new("{{g}}:{% for x in xs %}{{g}}{{x}};{% endfor %}").unwrap();
    let mut v = Bindings::new();
    v.insert("xs", list(&["1", "2"]));
    v.insert("g", TempelVar::String("G".to_string()));
    assert_eq!(t.render(v).unwrap(), "G:G1;G2;");
}

#[test]
fn unicode_space_interior_not_declared() {
    let t = Template::new("{{a\u{3000}b}} {{c\u{b}d}} {{e}}").unwrap();
    assert_eq!(t.variables(), &vec!["e".to_string()]);
}
