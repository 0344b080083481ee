use kdl::sexpr::{from_str, parse, tokenize, Expr};
use kdl::Error;

fn tokens(s: &str) -> Vec<String> {
    tokenize(s)
}

#[test]
fn tokens_of_a_form() {
    assert_eq!(tokens("(a (b c))"), vec!["(", "a", "(", "b", "c", ")", ")"]);
}

#[test]
fn comment_runs_to_the_end_of_its_line() {
    assert_eq!(tokens("a ;; b c\nd"), vec!["a", "d"]);
    assert_eq!(tokens("a;;b"), vec!["a"]);
    assert_eq!(tokens(";; only"), Vec::<String>::new());
}

#[test]
fn lone_semicolon_is_an_atom_character() {
    assert_eq!(tokens("a ; b"), vec!["a", ";", "b"]);
    assert_eq!(tokens("a;b"), vec!["a;b"]);
    assert_eq!(tokens("(;)"), vec!["(", ";", ")"]);
    assert_eq!(tokens("a;;;b"), vec!["a"]);
}

#[test]
fn white_space_of_any_kind_separates() {
    assert_eq!(tokens("a\tb\nc\u{a0}d\u{3000}e"), vec!["a", "b", "c", "d", "e"]);
}

#[test]
fn atoms_keep_their_characters() {
    assert_eq!(tokens("C-S-a .я @x"), vec!["C-S-a", ".я", "@x"]);
}

#[test]
fn reader_reads_the_first_expression() {
    assert_eq!(from_str("a b").unwrap().to_string(), "a");
    assert_eq!(from_str("(a) b").unwrap().to_string(), "(a)");
    assert_eq!(from_str("()").unwrap().to_string(), "()");
}

#[test]
fn reader_errors() {
    assert_eq!(from_str("").err(), Some(Error::Reader));
    assert_eq!(from_str("   ;; nothing").err(), Some(Error::Reader));
    assert_eq!(from_str("(a").err(), Some(Error::Reader));
    assert_eq!(from_str("(a (b)").err(), Some(Error::Reader));
    assert_eq!(from_str(")").err(), Some(Error::Reader));
    assert_eq!(from_str("(a))").unwrap().to_string(), "(a)");
}

#[test]
fn parse_takes_the_tokens_of_one_expression() {
    let mut ts = tokens("(a b) c");
    let e = parse(&mut ts).unwrap();
    assert_eq!(e.to_string(), "(a b)");
    assert_eq!(ts, vec!["c"]);
    let mut bad = tokens("(a b");
    assert_eq!(parse(&mut bad).err(), Some(Error::Reader));
    assert_eq!(bad, vec!["(", "a", "b"]);
}

#[test]
fn printed_form_reads_as_the_same_tree() {
    for source in ["(a (b  c)\n ;; note\n (d))", "x", "(() (()) a;b)", "(a ; b)"] {
        let tree = from_str(source).unwrap();
        let again = from_str(&tree.to_string()).unwrap();
        assert_eq!(again.to_string(), tree.to_string());
    }
    assert_eq!(from_str("( a  ( b\tc ) )").unwrap().to_string(), "(a (b c))");
}

#[test]
fn list_and_atom_tell_the_shape() {
    let list = from_str("(a b)").unwrap();
    let atom = from_str("a").unwrap();
    assert_eq!(list.list().unwrap().len(), 2);
    assert_eq!(list.atom().err(), Some(Error::Shape));
    assert_eq!(atom.atom().unwrap(), "a");
    assert_eq!(atom.list().err(), Some(Error::Shape));
    assert!(matches!(Expr::default(), Expr::List(v) if v.is_empty()));
}

#[test]
fn comments_and_line_ends() {
    assert_eq!(tokens("a ;; end without line feed"), vec!["a"]);
    assert_eq!(tokens("a ;; one\r\nb ;; two\n;; three\nc"), vec!["a", "b", "c"]);
    assert_eq!(tokens("(a;;)\n)"), vec!["(", "a", ")"]);
    assert_eq!(tokens("; ;"), vec![";", ";"]);
    assert_eq!(tokens(""), Vec::<String>::new());
}
