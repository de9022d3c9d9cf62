use nodes::db::{
    add_tags, build_list_query, create, delete_range, in_string, iter_nodes, node_content,
    priority_add, remove_tags, set_content, toggle_archived, DbError,
};
use nodes::pattern::parse_condition;
use nodes::util::{ListArgs, Order, Sort};
use rusqlite::Connection;

fn fresh_db() -> Connection {
    let conn = Connection::open_in_memory().unwrap();
    conn.execute_batch(
        "CREATE TABLE nodes(
            id INTEGER PRIMARY KEY,
            content TEXT NOT NULL,
            priority INTEGER NOT NULL DEFAULT 0,
            archived INTEGER NOT NULL DEFAULT 0,
            viewed TIMESTAMP,
            edited TIMESTAMP);
        CREATE TABLE tags(node INTEGER, tag TEXT);",
    )
    .unwrap();
    conn
}

fn plain_args() -> ListArgs {
    ListArgs {
        preorder: Order::Asc,
        postorder: Order::Asc,
        count: None,
        pattern: None,
        archived: None,
        sort: Some(Sort::ID),
    }
}

#[test]
fn create_returns_id_and_stores_content() {
    let conn = fresh_db();
    let id = create(&conn, "hello note").unwrap();
    assert_eq!(node_content(&conn, id).unwrap(), "hello note");
}

#[test]
fn create_rejects_empty_content() {
    let conn = fresh_db();
    assert!(matches!(create(&conn, ""), Err(DbError::EmptyNode)));
}

#[test]
fn node_content_unknown_id() {
    let conn = fresh_db();
    match node_content(&conn, 99) {
        Err(DbError::InvalidNode(id)) => assert_eq!(id, 99),
        other => panic!("expected InvalidNode, got {:?}", other.is_ok()),
    }
}

#[test]
fn set_content_replaces_text() {
    let conn = fresh_db();
    let id = create(&conn, "before").unwrap();
    set_content(&conn, id, "after").unwrap();
    assert_eq!(node_content(&conn, id).unwrap(), "after");
}

#[test]
fn two_phase_ordering_takes_last_then_ascends() {
    // preorder=Desc, postorder=Asc, count=3 over ids 1..10 returns the
    // three highest ids in ascending order.
    let conn = fresh_db();
    for i in 1..=10 {
        create(&conn, &format!("note {i}")).unwrap();
    }
    let args = ListArgs {
        preorder: Order::Desc,
        postorder: Order::Asc,
        count: Some(3),
        pattern: None,
        archived: None,
        sort: Some(Sort::ID),
    };
    let notes = iter_nodes(&conn, &args).unwrap();
    let ids: Vec<u32> = notes.iter().map(|n| n.id).collect();
    assert_eq!(ids, vec![8, 9, 10]);
}

#[test]
fn count_limits_results() {
    let conn = fresh_db();
    for i in 1..=5 {
        create(&conn, &format!("n{i}")).unwrap();
    }
    let mut args = plain_args();
    args.count = Some(2);
    let notes = iter_nodes(&conn, &args).unwrap();
    assert_eq!(notes.len(), 2);
    assert_eq!(notes[0].id, 1);
}

#[test]
fn pattern_filters_content() {
    let conn = fresh_db();
    create(&conn, "buy milk").unwrap();
    create(&conn, "write report").unwrap();
    let mut args = plain_args();
    args.pattern = Some(parse_condition("milk").unwrap());
    let notes = iter_nodes(&conn, &args).unwrap();
    assert_eq!(notes.len(), 1);
    assert_eq!(notes[0].content, "buy milk");
}

#[test]
fn tag_filter_exact_and_substring() {
    let conn = fresh_db();
    let a = create(&conn, "first").unwrap();
    let b = create(&conn, "second").unwrap();
    add_tags(&conn, &[a], &["work".to_string()]).unwrap();
    add_tags(&conn, &[b], &["workshop".to_string()]).unwrap();
    let mut args = plain_args();
    args.pattern = Some(parse_condition("[work]").unwrap());
    let exact = iter_nodes(&conn, &args).unwrap();
    assert_eq!(exact.len(), 1);
    assert_eq!(exact[0].id, a);
    args.pattern = Some(parse_condition("<work>").unwrap());
    let sub = iter_nodes(&conn, &args).unwrap();
    assert_eq!(sub.len(), 2);
}

#[test]
fn boolean_operators_filter() {
    let conn = fresh_db();
    create(&conn, "alpha beta").unwrap();
    create(&conn, "alpha gamma").unwrap();
    create(&conn, "delta").unwrap();
    let mut args = plain_args();
    args.pattern = Some(parse_condition("alpha&!beta").unwrap());
    let notes = iter_nodes(&conn, &args).unwrap();
    assert_eq!(notes.len(), 1);
    assert_eq!(notes[0].content, "alpha gamma");
    args.pattern = Some(parse_condition("beta|delta").unwrap());
    let either = iter_nodes(&conn, &args).unwrap();
    assert_eq!(either.len(), 2);
}

#[test]
fn like_wildcards_are_data_not_syntax() {
    let conn = fresh_db();
    create(&conn, "100% done").unwrap();
    create(&conn, "100 percent").unwrap();
    let mut args = plain_args();
    args.pattern = Some(parse_condition("c(100%)").unwrap());
    let notes = iter_nodes(&conn, &args).unwrap();
    assert_eq!(notes.len(), 1);
    assert_eq!(notes[0].content, "100% done");
}

#[test]
fn quotes_in_user_text_do_not_break_queries() {
    let conn = fresh_db();
    let id = create(&conn, "it's o'clock").unwrap();
    add_tags(&conn, &[id], &["o'brien".to_string()]).unwrap();
    let mut args = plain_args();
    args.pattern = Some(parse_condition("[o'brien]").unwrap());
    let notes = iter_nodes(&conn, &args).unwrap();
    assert_eq!(notes.len(), 1);
    assert_eq!(notes[0].content, "it's o'clock");
}

#[test]
fn tags_come_back_with_rows() {
    let conn = fresh_db();
    let id = create(&conn, "tagged").unwrap();
    add_tags(&conn, &[id], &["a".to_string(), "b".to_string()]).unwrap();
    let notes = iter_nodes(&conn, &plain_args()).unwrap();
    assert_eq!(notes.len(), 1);
    let mut tags = notes[0].tags.clone();
    tags.sort();
    assert_eq!(tags, vec!["a".to_string(), "b".to_string()]);
}

#[test]
fn remove_tags_deletes_association() {
    let conn = fresh_db();
    let id = create(&conn, "x").unwrap();
    add_tags(&conn, &[id], &["one".to_string(), "two".to_string()]).unwrap();
    remove_tags(&conn, &[id], &["one".to_string()]).unwrap();
    let notes = iter_nodes(&conn, &plain_args()).unwrap();
    assert_eq!(notes[0].tags, vec!["two".to_string()]);
}

#[test]
fn delete_range_removes_rows_and_counts() {
    let conn = fresh_db();
    let a = create(&conn, "a").unwrap();
    let _b = create(&conn, "b").unwrap();
    let c = create(&conn, "c").unwrap();
    assert_eq!(delete_range(&conn, &[a, c]).unwrap(), 2);
    let notes = iter_nodes(&conn, &plain_args()).unwrap();
    assert_eq!(notes.len(), 1);
    assert_eq!(notes[0].content, "b");
}

#[test]
fn delete_range_empty_is_noop() {
    let conn = fresh_db();
    create(&conn, "stay").unwrap();
    assert_eq!(delete_range(&conn, &[]).unwrap(), 0);
    assert_eq!(iter_nodes(&conn, &plain_args()).unwrap().len(), 1);
}

#[test]
fn archived_tristate_filters() {
    let conn = fresh_db();
    let a = create(&conn, "visible").unwrap();
    let _b = create(&conn, "hidden").unwrap();
    toggle_archived(&conn, a).unwrap();
    let mut args = plain_args();
    args.archived = Some(true);
    let only_archived = iter_nodes(&conn, &args).unwrap();
    assert_eq!(only_archived.len(), 1);
    assert_eq!(only_archived[0].id, a);
    args.archived = Some(false);
    let only_live = iter_nodes(&conn, &args).unwrap();
    assert_eq!(only_live.len(), 1);
    args.archived = None;
    assert_eq!(iter_nodes(&conn, &args).unwrap().len(), 2);
}

#[test]
fn priority_add_shifts_and_sorts() {
    let conn = fresh_db();
    let a = create(&conn, "a").unwrap();
    let b = create(&conn, "b").unwrap();
    priority_add(&conn, &[b], 5).unwrap();
    priority_add(&conn, &[a], -1).unwrap();
    let mut args = plain_args();
    args.sort = Some(Sort::Priority);
    args.preorder = Order::Desc;
    args.postorder = Order::Desc;
    let notes = iter_nodes(&conn, &args).unwrap();
    assert_eq!(notes[0].id, b);
    assert_eq!(notes[0].priority, 5);
    assert_eq!(notes[1].priority, -1);
}

#[test]
fn in_string_format() {
    assert_eq!(in_string(&[1, 2, 3]), "IN (1,2,3)");
    assert_eq!(in_string(&[7]), "IN (7)");
    assert_eq!(in_string(&[]), "IN ()");
}

#[test]
fn build_list_query_text() {
    let mut args = plain_args();
    args.archived = Some(false);
    args.count = Some(10);
    let (sql, params) = build_list_query(&args);
    assert_eq!(
        sql,
        "SELECT DISTINCT id, priority, content, GROUP_CONCAT(tag) FROM nodes LEFT JOIN tags ON nodes.id = tags.node WHERE (archived = 0) GROUP BY id ORDER BY id ASC LIMIT 10"
    );
    assert!(params.is_empty());
}

#[test]
fn build_list_query_two_phase_text() {
    let mut args = plain_args();
    args.preorder = Order::Desc;
    args.count = Some(3);
    let (sql, _params) = build_list_query(&args);
    assert_eq!(
        sql,
        "SELECT * FROM (SELECT DISTINCT id, priority, content, GROUP_CONCAT(tag) FROM nodes LEFT JOIN tags ON nodes.id = tags.node GROUP BY id ORDER BY id DESC LIMIT 3) ORDER BY id ASC"
    );
}

#[test]
fn db_error_messages() {
    assert_eq!(DbError::InvalidNode(17).message(), "Invalid node id 17");
    assert_eq!(DbError::EmptyNode.message(), "Empty Node not created");
}

#[test]
fn backend_failures_surface_as_sql_errors() {
    // No tables exist on this connection, so the query must fail and
    // the error text must carry the backend's words.
    let conn = Connection::open_in_memory().unwrap();
    let r = iter_nodes(&conn, &plain_args());
    match r {
        Err(e @ DbError::SQL(_)) => {
            assert!(e.message().starts_with("SQL Error: "));
        }
        _ => panic!("expected an SQL error"),
    }
}

#[test]
fn mutation_statement_texts() {
    assert_eq!(
        nodes::db::toggle_archived_sql(5),
        "UPDATE nodes SET archived = NOT archived WHERE id = 5"
    );
    assert_eq!(
        nodes::db::toggle_archived_range_sql(&[1, 2]),
        "UPDATE nodes SET archived = NOT archived WHERE id IN (1,2)"
    );
    assert_eq!(nodes::db::set_archived_sql(9, true), "UPDATE nodes SET archived = 1 WHERE id = 9");
    assert_eq!(nodes::db::delete_sql(4), "DELETE FROM nodes WHERE id = 4");
    assert_eq!(nodes::db::delete_range_sql(&[4, 6]), "DELETE FROM nodes WHERE id IN (4,6)");
    assert_eq!(
        nodes::db::priority_add_sql(&[3, 8], -1),
        "UPDATE nodes SET priority = priority + -1 WHERE id IN (3, 8)"
    );
    assert_eq!(nodes::db::node_content_sql(2), "SELECT content FROM nodes WHERE id = 2");
    assert_eq!(
        nodes::db::touch_viewed_sql(2),
        "UPDATE nodes SET viewed = CURRENT_TIMESTAMP WHERE id = 2"
    );
    let (tag_sql, tag_params) =
        nodes::db::add_tags_sql(&[1, 2], &["a".to_string(), "b".to_string()]);
    assert_eq!(tag_sql, "INSERT INTO tags(node, tag) VALUES (1, ?), (1, ?), (2, ?), (2, ?)");
    assert_eq!(tag_params, vec!["a", "b", "a", "b"]);
    let (untag_sql, untag_params) = nodes::db::remove_tags_sql(&[7], &["x".to_string()]);
    assert_eq!(untag_sql, "DELETE FROM tags WHERE node IN (7) AND tag IN (?)");
    assert_eq!(untag_params, vec!["x"]);
}
