use kdl::layout::preprocess::preprocess;
use kdl::layout::template::{deftemplate, expand, Template, Templates};
use kdl::layout::unwrap::unwrap;
use kdl::sexpr::{from_str, Expr};
use kdl::Error;

fn templates_of(source: &str) -> Result<Templates, Error> {
    let expr = from_str(source).unwrap();
    let list = expr.list().unwrap();
    deftemplate(list.clone())
}

fn expanded(input: &str, templates: &Templates) -> String {
    let input = from_str(input).unwrap();
    expand(&input, templates).unwrap().to_string()
}

fn printed(source: &str) -> String {
    from_str(source).unwrap().to_string()
}

#[test]
fn preprocess_aliases() {
    let input = from_str(
        r#"(
                (deftemplate app ($x) (multi meta $x))
                (defalias
                    a0 (app 0)
                    a1 (app 1)
                    a2 (app 2)
                )
            )"#,
    )
    .unwrap();
    let output = from_str(
        r#"(
                (defalias
                    a0 (multi meta 0)
                    a1 (multi meta 1)
                    a2 (multi meta 2)
                )
            )"#,
    )
    .unwrap();
    assert_eq!(preprocess(&input).unwrap().to_string(), output.to_string());
}

#[test]
fn parse() {
    let templates = templates_of("(a ($b $c) $c)").unwrap();
    assert_eq!(templates.len(), 1);
    let (name, Template(params, body)) = &templates[0];
    assert_eq!(name, "a");
    assert_eq!(params, &vec!["$b".to_string(), "$c".to_string()]);
    assert!(matches!(body, Expr::Atom(a) if a == "$c"));
}

#[test]
fn apply_test() {
    let templates = templates_of("(a ($b $c) $c)").unwrap();
    assert_eq!(expanded("(a 1 1)", &templates), printed("1"));
}

#[test]
fn apply_template_args() {
    let templates = templates_of("(a ($b $c) $c)").unwrap();
    assert_eq!(expanded("(a b c d)", &templates), printed("(c d)"));
}

#[test]
fn args_duplicates() {
    assert!(templates_of("(a ($a $a) $a)").is_err());
}

#[test]
fn args_should_be_list() {
    assert!(templates_of("(a arg a)").is_err());
}

#[test]
fn unwrap_list() {
    let expr = from_str("(outer (unwrap (arg a)))").unwrap();
    assert_eq!(unwrap(&expr, None).to_string(), "(outer arg a)".to_string())
}

#[test]
fn unwrap_atoms() {
    let expr = from_str("(outer (unwrap a b c d))").unwrap();
    assert_eq!(unwrap(&expr, None).to_string(), "(outer a b c d)".to_string())
}

#[test]
fn unwrap_ignore() {
    let expr = from_str("(outer (unwrap a b c d) (ignore some))").unwrap();
    assert_eq!(
        unwrap(&expr, Some(&vec!["ignore".to_string()])).to_string(),
        "(outer a b c d)".to_string()
    )
}

#[test]
fn unwrap_ignore2() {
    let expr = from_str("(ignore (unwrap a b c d))").unwrap();
    assert_eq!(
        unwrap(&expr, Some(&vec!["ignore".to_string()])).to_string(),
        "()".to_string()
    )
}

#[test]
fn template_errors_are_told_apart() {
    assert_eq!(templates_of("(a ($a $a) $a)").err(), Some(Error::DuplicateArgument));
    assert_eq!(templates_of("(a (b) b)").err(), Some(Error::BadArgument));
    assert_eq!(templates_of("(a arg a)").err(), Some(Error::Shape));
    assert_eq!(templates_of("(a ($x))").err(), Some(Error::Shape));
    assert_eq!(templates_of("(a (($x)) b)").err(), Some(Error::Shape));
}

#[test]
fn template_without_parameters_gives_its_body() {
    let templates = templates_of("(home () (tap-hold a lctl))").unwrap();
    assert_eq!(expanded("(x (home) y)", &templates), "(x (tap-hold a lctl) y)");
}

#[test]
fn last_parameter_takes_what_is_left() {
    let templates = templates_of("(t ($a $rest) (f $a $rest))").unwrap();
    assert_eq!(expanded("(t 1 2)", &templates), "(f 1 2)");
    assert_eq!(expanded("(t 1 2 3)", &templates), "(f 1 (2 3))");
    assert_eq!(expanded("(t 1)", &templates), "(f 1 ())");
}

#[test]
fn undefined_template_is_an_ordinary_list() {
    let templates = templates_of("(t ($a) (f $a))").unwrap();
    assert_eq!(expanded("(u (t 1))", &templates), "(u (f 1))");
}

#[test]
fn later_template_of_a_name_counts() {
    let templates = templates_of("(t ($a) (f $a) t ($a) (g $a))").unwrap();
    assert_eq!(expanded("(t 1)", &templates), "(g 1)");
}

#[test]
fn templates_nest_through_the_body() {
    let templates = templates_of("(inner ($a) (i $a) outer ($b) (o (inner $b)))").unwrap();
    assert_eq!(expanded("(outer 7)", &templates), "(o (i 7))");
}

#[test]
fn recursive_template_stops() {
    let templates = templates_of("(loop ($a) (x (loop $a)))").unwrap();
    let input = from_str("(loop 1)").unwrap();
    assert_eq!(expand(&input, &templates).err(), Some(Error::TemplateDepth));
}

#[test]
fn preprocess_wants_forms_at_the_top() {
    assert_eq!(preprocess(&from_str("a").unwrap()).err(), Some(Error::Shape));
    assert_eq!(preprocess(&from_str("(a)").unwrap()).err(), Some(Error::Shape));
    assert_eq!(preprocess(&from_str("(())").unwrap()).err(), Some(Error::Shape));
    assert_eq!(preprocess(&from_str("(((a)))").unwrap()).err(), Some(Error::Shape));
}

#[test]
fn preprocess_twice_is_preprocess_once() {
    let input = from_str(
        "((deftemplate app ($x) (multi meta $x)) (defalias a0 (app 0)) (deflayer default (unwrap a b)))",
    )
    .unwrap();
    let once = preprocess(&input).unwrap();
    let twice = preprocess(&once).unwrap();
    assert_eq!(once.to_string(), "((defalias a0 (multi meta 0)) (deflayer default a b))");
    assert_eq!(twice.to_string(), once.to_string());
}

#[test]
fn no_unwrap_and_no_deftemplate_is_left() {
    let input = from_str(
        "((deftemplate t ($x) (unwrap $x $x)) (deflayer l (t a) (unwrap (unwrap b) c)))",
    )
    .unwrap();
    let out = preprocess(&input).unwrap().to_string();
    assert_eq!(out, "((deflayer l a a unwrap b c))");
    assert!(!out.contains("(unwrap"));
    assert!(!out.contains("deftemplate"));
}

#[test]
fn list_that_begins_with_an_unwrap_form_gets_a_new_head() {
    let input = from_str("((deflayer x ((unwrap unwrap a) b)))").unwrap();
    let once = preprocess(&input).unwrap();
    assert_eq!(once.to_string(), "((deflayer x (unwrap a b)))");
    let twice = preprocess(&once).unwrap();
    assert_eq!(twice.to_string(), "((deflayer x a b))");
}

#[test]
fn unwrap_inside_unwrap_and_ignored_arguments() {
    let ignore = vec!["ignore".to_string()];
    let expr = from_str("(outer (unwrap (unwrap a) (ignore b) c (d (ignore e) f)))").unwrap();
    assert_eq!(unwrap(&expr, Some(&ignore)).to_string(), "(outer unwrap a c d f)");
    let kept = from_str("(outer (keep (unwrap a b) (ignore c)) ())").unwrap();
    assert_eq!(unwrap(&kept, Some(&ignore)).to_string(), "(outer (keep a b) ())");
    assert_eq!(unwrap(&kept, None).to_string(), "(outer (keep a b (ignore c)) ())");
    let atom = from_str("unwrap").unwrap();
    assert_eq!(unwrap(&atom, Some(&ignore)).to_string(), "unwrap");
    let top = from_str("(unwrap a b)").unwrap();
    assert_eq!(unwrap(&top, None).to_string(), "(unwrap a b)");
}

#[test]
fn arguments_are_expanded_before_they_are_bound() {
    let templates = templates_of("(twice ($x) (p $x $x) inc ($n) (s $n))").unwrap();
    assert_eq!(expanded("(twice (inc 1))", &templates), "(p (s 1) (s 1))");
    assert_eq!(expanded("(twice)", &templates), "(p () ())");
    assert_eq!(expanded("twice", &templates), "twice");
}
