use nodes::pattern::{parse_condition, tosql, CondNode, CondNodeType, Node};

fn is_match(n: &CondNode, text: &str) -> bool {
    n.children.is_empty() && matches!(&n.data, CondNodeType::Match(s) if s == text)
}

#[test]
fn precedence_or_loosest() {
    // parse("a|b&c") yields Or(Match(a), And(Match(b), Match(c))).
    let n = parse_condition("a|b&c").unwrap();
    assert!(matches!(n.data, CondNodeType::Or));
    assert_eq!(n.children.len(), 2);
    assert!(is_match(&n.children[0], "a"));
    let and = &n.children[1];
    assert!(matches!(and.data, CondNodeType::And));
    assert_eq!(and.children.len(), 2);
    assert!(is_match(&and.children[0], "b"));
    assert!(is_match(&and.children[1], "c"));
}

#[test]
fn negation_binds_tighter_than_and() {
    // parse("!a&b") yields And(Not(Match(a)), Match(b)).
    let n = parse_condition("!a&b").unwrap();
    assert!(matches!(n.data, CondNodeType::And));
    assert_eq!(n.children.len(), 2);
    let not = &n.children[0];
    assert!(matches!(not.data, CondNodeType::Not));
    assert_eq!(not.children.len(), 1);
    assert!(is_match(&not.children[0], "a"));
    assert!(is_match(&n.children[1], "b"));
}

#[test]
fn atom_tag_bracket() {
    let n = parse_condition("[urgent]").unwrap();
    assert!(n.children.is_empty());
    assert!(matches!(&n.data, CondNodeType::Tag(s) if s == "urgent"));
}

#[test]
fn atom_tagmatch_angle() {
    let n = parse_condition("<urg>").unwrap();
    assert!(matches!(&n.data, CondNodeType::TagMatch(s) if s == "urg"));
}

#[test]
fn atom_contentmatch() {
    let n = parse_condition("c(todo)").unwrap();
    assert!(matches!(&n.data, CondNodeType::ContentMatch(s) if s == "todo"));
}

#[test]
fn atom_quoted_match() {
    let n = parse_condition("\"a b\"").unwrap();
    assert!(matches!(&n.data, CondNodeType::Match(s) if s == "a b"));
}

#[test]
fn atom_tag_paren_form() {
    let n = parse_condition("t(work)").unwrap();
    assert!(matches!(&n.data, CondNodeType::Tag(s) if s == "work"));
}

#[test]
fn atom_tagmatch_slash_form() {
    let n = parse_condition("t/wo/").unwrap();
    assert!(matches!(&n.data, CondNodeType::TagMatch(s) if s == "wo"));
}

#[test]
fn unbalanced_open_paren_fails() {
    let r = parse_condition("(a");
    assert_eq!(r.err().unwrap(), "Invalid pattern");
}

#[test]
fn unbalanced_close_paren_fails() {
    let r = parse_condition("a)");
    assert_eq!(r.err().unwrap(), "Unexpected character )");
}

#[test]
fn parens_regroup() {
    // (a|b)&c binds the disjunction first.
    let n = parse_condition("(a|b)&c").unwrap();
    assert!(matches!(n.data, CondNodeType::And));
    assert!(matches!(n.children[0].data, CondNodeType::Or));
    assert!(is_match(&n.children[1], "c"));
}

#[test]
fn whitespace_between_tokens_ignored() {
    let n = parse_condition("  a  |  b  ").unwrap();
    assert!(matches!(n.data, CondNodeType::Or));
    assert!(is_match(&n.children[0], "a"));
    assert!(is_match(&n.children[1], "b"));
}

#[test]
fn flat_or_of_three() {
    let n = parse_condition("a|b|c").unwrap();
    assert!(matches!(n.data, CondNodeType::Or));
    assert_eq!(n.children.len(), 3);
}

#[test]
fn unclosed_tag_form_falls_back_to_bare() {
    // "t(" with no closing parenthesis leaves "t" as a bare match and
    // the parenthesis unconsumed, which fails the full parse.
    let r = parse_condition("t(");
    assert_eq!(r.err().unwrap(), "Unexpected character (");
}

#[test]
fn empty_input_fails() {
    assert!(parse_condition("").is_err());
}

#[test]
fn negation_of_negation() {
    // A second `!` is an ordinary bare character; parentheses make it
    // an operator again.
    let n = parse_condition("!!a").unwrap();
    assert!(matches!(n.data, CondNodeType::Not));
    assert!(is_match(&n.children[0], "!a"));
    let m = parse_condition("!(!a)").unwrap();
    assert!(matches!(m.data, CondNodeType::Not));
    assert!(matches!(m.children[0].data, CondNodeType::Not));
}

#[test]
fn trailing_operator_reports_leftover() {
    let r = parse_condition("a|");
    assert_eq!(r.err().unwrap(), "Unexpected character |");
}

#[test]
fn parse_is_deterministic() {
    // The same input always yields the same tree.
    let a = tosql(&parse_condition("x|[t]&!c(y)").unwrap());
    let b = tosql(&parse_condition("x|[t]&!c(y)").unwrap());
    assert_eq!(a.0, b.0);
    assert_eq!(a.1, b.1);
}

#[test]
fn tosql_match_text_and_params() {
    let n = parse_condition("x").unwrap();
    let (sql, params) = tosql(&n);
    assert_eq!(
        sql,
        "(content LIKE '%' || ? || '%' ESCAPE '\\' OR EXISTS(SELECT 1 FROM tags WHERE node = nodes.id AND tag LIKE '%' || ? || '%' ESCAPE '\\'))"
    );
    assert_eq!(params, vec!["x".to_string(), "x".to_string()]);
}

#[test]
fn tosql_tag_binds_raw_text() {
    let n = parse_condition("[o'brien]").unwrap();
    let (sql, params) = tosql(&n);
    assert_eq!(sql, "(EXISTS(SELECT 1 FROM tags WHERE node = nodes.id AND tag = ?))");
    assert_eq!(params, vec!["o'brien".to_string()]);
}

#[test]
fn tosql_escapes_like_wildcards() {
    let n = parse_condition("c(50%_a\\b)").unwrap();
    let (sql, params) = tosql(&n);
    assert_eq!(sql, "(content LIKE '%' || ? || '%' ESCAPE '\\')");
    assert_eq!(params, vec!["50\\%\\_a\\\\b".to_string()]);
}

#[test]
fn tosql_not_and_or_shapes() {
    let n = parse_condition("!a&b|c").unwrap();
    let (sql, params) = tosql(&n);
    let m = "(content LIKE '%' || ? || '%' ESCAPE '\\' OR EXISTS(SELECT 1 FROM tags WHERE node = nodes.id AND tag LIKE '%' || ? || '%' ESCAPE '\\'))";
    let expect = format!("(((NOT {m}) AND {m}) OR {m})");
    assert_eq!(sql, expect);
    assert_eq!(params.len(), 6);
    assert_eq!(params[0], "a");
    assert_eq!(params[2], "b");
    assert_eq!(params[4], "c");
}

#[test]
fn node_new_and_add_child() {
    let mut n: Node<u32> = Node::new(7);
    assert_eq!(n.data, 7);
    assert!(n.children.is_empty());
    let i = n.add_child(9);
    assert_eq!(i, 0);
    let j = n.add_child(11);
    assert_eq!(j, 1);
    assert_eq!(n.children[0].data, 9);
    assert_eq!(n.children[1].data, 11);
}

#[test]
fn slash_allowed_in_bare_match() {
    let n = parse_condition("a/b").unwrap();
    assert!(matches!(&n.data, CondNodeType::Match(s) if s == "a/b"));
}
