use simpermut::template::{Template, TemplateError};

#[test]
fn template_finds_its_variables() {
    let template = Template::new("a.tpl", "x #[[var=one]] y #[[var=two_2]] #[[var=one]]", Vec::new());
    assert!(template.var_exist("one"));
    assert!(template.var_exist("two_2"));
    assert!(!template.var_exist("three"));
    assert!(!template.var_exist(""));
    assert!(!template.var_exist("x"));
}

#[test]
fn marker_with_a_capital_names_no_variable() {
    let template = Template::new("a.tpl", "#[[var=One]] #[[var=]] #[var=two]", Vec::new());
    assert!(!template.var_exist("One"));
    assert!(!template.var_exist("two"));
    assert_eq!(template.compile().unwrap(), "#[[var=One]] #[[var=]] #[var=two]");
}

#[test]
fn set_var_refuses_unknown_variables() {
    let mut template = Template::new("a.tpl", "#[[var=one]]", Vec::new());
    assert_eq!(template.set_var("two", "2"), Err(TemplateError::UnknownVariable));
    assert_eq!(template.set_var("one", "1"), Ok(()));
    assert_eq!(template.compile().unwrap(), "1");
    assert!(!template.var_exist("two"));
}

#[test]
fn compile_replaces_every_marker() {
    let mut template =
        Template::new("a.tpl", "#[[var=a]]-#[[var=b]]-#[[var=a]] #[[var=a]]#[[var=b]]", Vec::new());
    assert_eq!(template.compile().unwrap(), "-- ");
    template.set_var("a", "x").unwrap();
    template.set_var("b", "yy").unwrap();
    assert_eq!(template.compile().unwrap(), "x-yy-x xyy");
    template.set_var("a", "").unwrap();
    assert_eq!(template.compile().unwrap(), "-yy- yy");
    assert_eq!(template._compile().unwrap(), "#[[var=a]]-#[[var=b]]-#[[var=a]] #[[var=a]]#[[var=b]]");
}

#[test]
fn variables_are_filled_in_in_the_order_they_were_met() {
    let mut template = Template::new("a.tpl", "#[[var=first]] #[[var=second]]", Vec::new());
    template.set_var("first", "#[[var=second]]").unwrap();
    template.set_var("second", "#[[var=first]]").unwrap();
    assert_eq!(template.compile().unwrap(), "#[[var=first]] #[[var=first]]");
}

#[test]
fn imports_are_put_in_and_bring_their_variables() {
    let inner = Template::new("inner.tpl", "[#[[var=deep]]]", Vec::new());
    let middle = Template::new(
        "middle.tpl",
        "<#[[import=inner.tpl]] #[[var=mid]]>",
        vec![inner],
    );
    let mut outer = Template::new(
        "outer.tpl",
        "#[[var=top]] #[[import=middle.tpl]] #[[import=other.tpl]]",
        vec![middle],
    );
    assert!(outer.var_exist("top"));
    assert!(outer.var_exist("mid"));
    assert!(outer.var_exist("deep"));
    assert_eq!(
        outer._compile().unwrap(),
        "#[[var=top]] <[#[[var=deep]]] #[[var=mid]]> #[[import=other.tpl]]"
    );
    outer.set_var("top", "T").unwrap();
    outer.set_var("mid", "M").unwrap();
    outer.set_var("deep", "D").unwrap();
    assert_eq!(outer.compile().unwrap(), "T <[D] M> #[[import=other.tpl]]");
}

#[test]
fn import_paths_lists_the_imports_of_a_text() {
    assert_eq!(
        Template::import_paths("a #[[import=x/y.tpl]] b #[[import=z.tpl]] #[[var=v]]"),
        vec![String::from("x/y.tpl"), String::from("z.tpl")]
    );
    assert!(Template::import_paths("nothing here").is_empty());
}

#[test]
fn declare_adds_variables_with_empty_values() {
    let mut template = Template::new("a.tpl", "#[[var=a]]#[[var=b]]", Vec::new());
    template.set_var("a", "1").unwrap();
    template.declare(&vec![String::from("b"), String::from("a")]);
    assert_eq!(template.compile().unwrap(), "");
    template.declare(&vec![String::from("c")]);
    assert!(template.var_exist("c"));
}

#[test]
fn default_template_is_empty() {
    let template = Template::default();
    assert_eq!(template.compile().unwrap(), "");
    assert!(!template.var_exist("a"));
}
