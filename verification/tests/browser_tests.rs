use nodes::db::create;
use nodes::select::{InputAction, InputKey, SelectScreen, State};
use nodes::util::{ListArgs, Order, Sort};
use rusqlite::Connection;

fn fresh_db() -> Connection {
    let conn = Connection::open_in_memory().unwrap();
    conn.execute_batch(
        "CREATE TABLE nodes(
            id INTEGER PRIMARY KEY,
            content TEXT NOT NULL,
            priority INTEGER NOT NULL DEFAULT 0,
            archived INTEGER NOT NULL DEFAULT 0,
            viewed TIMESTAMP,
            edited TIMESTAMP);
        CREATE TABLE tags(node INTEGER, tag TEXT);",
    )
    .unwrap();
    conn
}

fn args_all() -> ListArgs {
    ListArgs {
        preorder: Order::Asc,
        postorder: Order::Asc,
        count: None,
        pattern: None,
        archived: None,
        sort: Some(Sort::ID),
    }
}

fn args_unarchived() -> ListArgs {
    ListArgs { archived: Some(false), ..args_all() }
}

fn screen_with(conn: &Connection, n: u32, args: ListArgs) -> SelectScreen {
    for i in 1..=n {
        create(conn, &format!("note {i}")).unwrap();
    }
    let mut s = SelectScreen::new(conn, args).unwrap();
    s.resized((80, 10));
    s
}

fn assert_viewport_ok(s: &SelectScreen) {
    // 0 <= start <= hover < len when the list is non-empty, and the
    // hover never leaves the viewport.
    if s.nodes.is_empty() {
        assert_eq!(s.hover, 0);
        assert_eq!(s.start, 0);
    } else {
        assert!(s.start <= s.hover);
        assert!(s.hover < s.nodes.len());
        assert!(s.hover - s.start < s.termsize.1 as usize);
    }
}

#[test]
fn new_starts_in_normal_mode_at_top() {
    let conn = fresh_db();
    let s = screen_with(&conn, 3, args_all());
    assert_eq!(s.state, State::Normal);
    assert_eq!(s.hover, 0);
    assert_eq!(s.start, 0);
    assert_eq!(s.nodes.len(), 3);
}

#[test]
fn cursor_moves_keep_viewport_invariant() {
    let conn = fresh_db();
    let mut s = screen_with(&conn, 30, args_all());
    let moves: Vec<(bool, usize)> = vec![
        (true, 1),
        (true, 12),
        (false, 3),
        (true, 100),
        (false, 1),
        (false, 200),
        (true, 7),
        (true, 0),
        (false, 0),
    ];
    for (down, n) in moves {
        if down {
            s.cursor_down(n);
        } else {
            s.cursor_up(n);
        }
        assert_viewport_ok(&s);
    }
}

#[test]
fn cursor_down_clamps_to_end() {
    let conn = fresh_db();
    let mut s = screen_with(&conn, 5, args_all());
    s.cursor_down(100);
    assert_eq!(s.hover, 4);
    assert_viewport_ok(&s);
    s.cursor_up(100);
    assert_eq!(s.hover, 0);
}

#[test]
fn numeric_prefix_multiplies_motion() {
    let conn = fresh_db();
    let mut s = screen_with(&conn, 20, args_all());
    s.input(InputKey::Char('3'), &conn).unwrap();
    assert_eq!(s.action_count, 3);
    s.input(InputKey::Char('j'), &conn).unwrap();
    assert_eq!(s.hover, 3);
    assert_eq!(s.action_count, 0);
}

#[test]
fn end_and_home_jump() {
    let conn = fresh_db();
    let mut s = screen_with(&conn, 30, args_all());
    s.input(InputKey::Char('G'), &conn).unwrap();
    assert_eq!(s.hover, 29);
    assert_viewport_ok(&s);
    s.input(InputKey::Home, &conn).unwrap();
    assert_eq!(s.hover, 0);
    assert_eq!(s.start, 0);
}

#[test]
fn double_g_jumps_to_top() {
    let conn = fresh_db();
    let mut s = screen_with(&conn, 30, args_all());
    s.cursor_down(15);
    s.input(InputKey::Char('g'), &conn).unwrap();
    assert!(s.gpending);
    assert_eq!(s.hover, 15);
    s.input(InputKey::Char('g'), &conn).unwrap();
    assert!(!s.gpending);
    assert_eq!(s.hover, 0);
}

#[test]
fn quit_only_on_q() {
    let conn = fresh_db();
    let mut s = screen_with(&conn, 2, args_all());
    assert_eq!(s.input(InputKey::Char('x'), &conn).unwrap(), InputAction::Continue);
    assert_eq!(s.input(InputKey::Char('q'), &conn).unwrap(), InputAction::Quit);
}

#[test]
fn edit_and_create_hand_back_actions() {
    let conn = fresh_db();
    let mut s = screen_with(&conn, 2, args_all());
    s.cursor_down(1);
    let id = s.nodes[1].id;
    assert_eq!(s.input(InputKey::Char('e'), &conn).unwrap(), InputAction::Edit(id));
    assert_eq!(s.input(InputKey::Char('c'), &conn).unwrap(), InputAction::Create);
}

#[test]
fn selection_survives_compatible_reload() {
    let conn = fresh_db();
    create(&conn, "buy milk").unwrap();
    create(&conn, "write report").unwrap();
    create(&conn, "drink milk").unwrap();
    let mut s = SelectScreen::new(&conn, args_all()).unwrap();
    s.resized((80, 10));
    s.toggle_selection();
    let kept_id = s.nodes[0].id;
    // A filter that still lists the selected row keeps it selected.
    s.pattern = "milk".to_string();
    assert!(s.reparse_pattern());
    s.reload_nodes(&conn).unwrap();
    assert_eq!(s.nodes.len(), 2);
    assert!(s.nodes.iter().any(|n| n.id == kept_id && n.selected));
    assert!(s.nodes.iter().filter(|n| n.selected).count() == 1);
}

#[test]
fn selection_dropped_when_filtered_out() {
    let conn = fresh_db();
    create(&conn, "buy milk").unwrap();
    create(&conn, "write report").unwrap();
    let mut s = SelectScreen::new(&conn, args_all()).unwrap();
    s.resized((80, 10));
    s.toggle_selection();
    // The filter removes the selected row; afterwards nothing is
    // selected, also once the filter is lifted again.
    s.pattern = "report".to_string();
    assert!(s.reparse_pattern());
    s.reload_nodes(&conn).unwrap();
    assert!(s.nodes.iter().all(|n| !n.selected));
    s.pattern = String::new();
    assert!(s.reparse_pattern());
    s.reload_nodes(&conn).unwrap();
    assert!(s.nodes.iter().all(|n| !n.selected));
}

#[test]
fn archiving_hovered_removes_exactly_that_row() {
    let conn = fresh_db();
    let mut s = {
        for i in 1..=3 {
            create(&conn, &format!("note {i}")).unwrap();
        }
        let mut s = SelectScreen::new(&conn, args_unarchived()).unwrap();
        s.resized((80, 10));
        s
    };
    s.cursor_down(1);
    let before: Vec<u32> = s.nodes.iter().map(|n| n.id).collect();
    let archived_id = s.nodes[1].id;
    s.archive(&conn).unwrap();
    let after: Vec<u32> = s.nodes.iter().map(|n| n.id).collect();
    assert_eq!(after, vec![before[0], before[2]]);
    // Only the archived row left the view; the backend saw the toggle.
    let listed = nodes::db::iter_nodes(&conn, &args_unarchived()).unwrap();
    assert!(listed.iter().all(|n| n.id != archived_id));
    assert_eq!(listed.len(), 2);
}

#[test]
fn archiving_in_mixed_view_keeps_rows() {
    let conn = fresh_db();
    let mut s = screen_with(&conn, 3, args_all());
    s.archive(&conn).unwrap();
    assert_eq!(s.nodes.len(), 3);
}

#[test]
fn delete_confirm_captures_targets() {
    let conn = fresh_db();
    let mut s = screen_with(&conn, 3, args_all());
    let id1 = s.nodes[0].id;
    let id2 = s.nodes[1].id;
    let id3 = s.nodes[2].id;
    s.toggle_selection();
    s.cursor_down(1);
    s.toggle_selection();
    s.input(InputKey::Char('d'), &conn).unwrap();
    assert_eq!(s.state, State::Delete);
    assert_eq!(s.delete_sel, vec![id1, id2]);
    // Selection changes after the capture do not change what gets
    // deleted.
    s.clear_selection();
    s.cursor_down(1);
    s.toggle_selection();
    s.input(InputKey::Char('y'), &conn).unwrap();
    assert_eq!(s.state, State::Normal);
    let listed = nodes::db::iter_nodes(&conn, &args_all()).unwrap();
    let left: Vec<u32> = listed.iter().map(|n| n.id).collect();
    assert_eq!(left, vec![id3]);
}

#[test]
fn delete_confirm_cancels_on_other_keys() {
    let conn = fresh_db();
    let mut s = screen_with(&conn, 2, args_all());
    s.input(InputKey::Char('d'), &conn).unwrap();
    assert_eq!(s.state, State::Delete);
    s.input(InputKey::Char('n'), &conn).unwrap();
    assert_eq!(s.state, State::Normal);
    assert_eq!(nodes::db::iter_nodes(&conn, &args_all()).unwrap().len(), 2);
}

#[test]
fn delete_on_hovered_single_row() {
    let conn = fresh_db();
    let mut s = screen_with(&conn, 2, args_all());
    s.cursor_down(1);
    let doomed = s.nodes[1].id;
    s.input(InputKey::Delete, &conn).unwrap();
    assert!(s.delete_hover);
    assert_eq!(s.delete_sel, vec![doomed]);
    s.input(InputKey::Char('Y'), &conn).unwrap();
    assert_eq!(s.nodes.len(), 1);
    assert!(s.nodes.iter().all(|n| n.id != doomed));
}

#[test]
fn search_mode_lifecycle() {
    let conn = fresh_db();
    create(&conn, "buy milk").unwrap();
    create(&conn, "write report").unwrap();
    let mut s = SelectScreen::new(&conn, args_all()).unwrap();
    s.resized((80, 10));
    s.input(InputKey::Char('/'), &conn).unwrap();
    assert_eq!(s.state, State::Search);
    for c in "milk".chars() {
        s.input(InputKey::Char(c), &conn).unwrap();
    }
    assert_eq!(s.pattern, "milk");
    assert_eq!(s.nodes.len(), 1);
    s.input(InputKey::Char('\n'), &conn).unwrap();
    assert_eq!(s.state, State::Normal);
    assert_eq!(s.nodes.len(), 1);
}

#[test]
fn invalid_search_text_keeps_last_filter() {
    let conn = fresh_db();
    create(&conn, "buy milk").unwrap();
    create(&conn, "write report").unwrap();
    let mut s = SelectScreen::new(&conn, args_all()).unwrap();
    s.resized((80, 10));
    s.input(InputKey::Char('/'), &conn).unwrap();
    for c in "milk".chars() {
        s.input(InputKey::Char(c), &conn).unwrap();
    }
    assert_eq!(s.nodes.len(), 1);
    // "milk(" does not parse; the milk filter stays in effect.
    s.input(InputKey::Char('('), &conn).unwrap();
    assert_eq!(s.pattern, "milk(");
    assert_eq!(s.nodes.len(), 1);
}

#[test]
fn search_escape_clears_filter() {
    let conn = fresh_db();
    create(&conn, "buy milk").unwrap();
    create(&conn, "write report").unwrap();
    let mut s = SelectScreen::new(&conn, args_all()).unwrap();
    s.resized((80, 10));
    s.input(InputKey::Char('/'), &conn).unwrap();
    for c in "milk".chars() {
        s.input(InputKey::Char(c), &conn).unwrap();
    }
    s.input(InputKey::Esc, &conn).unwrap();
    assert_eq!(s.state, State::Normal);
    assert_eq!(s.pattern, "");
    assert_eq!(s.nodes.len(), 2);
}

#[test]
fn backspace_past_empty_leaves_search() {
    let conn = fresh_db();
    let mut s = screen_with(&conn, 1, args_all());
    s.input(InputKey::Char('/'), &conn).unwrap();
    s.input(InputKey::Char('a'), &conn).unwrap();
    s.input(InputKey::Backspace, &conn).unwrap();
    assert_eq!(s.state, State::Search);
    s.input(InputKey::Backspace, &conn).unwrap();
    assert_eq!(s.state, State::Normal);
}

#[test]
fn command_mode_archived_visibility_cycle() {
    let conn = fresh_db();
    let mut s = screen_with(&conn, 2, args_all());
    assert_eq!(s.args.archived, None);
    s.input(InputKey::Char(':'), &conn).unwrap();
    assert_eq!(s.state, State::Command);
    s.input(InputKey::Char('a'), &conn).unwrap();
    s.input(InputKey::Char('\n'), &conn).unwrap();
    assert_eq!(s.state, State::Normal);
    assert_eq!(s.args.archived, Some(false));
    s.input(InputKey::Char(':'), &conn).unwrap();
    s.input(InputKey::Char('a'), &conn).unwrap();
    s.input(InputKey::Char('\n'), &conn).unwrap();
    assert_eq!(s.args.archived, None);
}

#[test]
fn command_mode_archived_only_toggle() {
    let conn = fresh_db();
    let mut s = screen_with(&conn, 2, args_all());
    s.input(InputKey::Char(':'), &conn).unwrap();
    s.input(InputKey::Char('A'), &conn).unwrap();
    s.input(InputKey::Char('\n'), &conn).unwrap();
    assert_eq!(s.args.archived, Some(true));
    s.input(InputKey::Char(':'), &conn).unwrap();
    s.input(InputKey::Char('A'), &conn).unwrap();
    s.input(InputKey::Char('\n'), &conn).unwrap();
    assert_eq!(s.args.archived, Some(false));
}

#[test]
fn command_mode_tags_hovered_note() {
    let conn = fresh_db();
    let mut s = screen_with(&conn, 1, args_all());
    s.input(InputKey::Char(':'), &conn).unwrap();
    for c in "t work".chars() {
        s.input(InputKey::Char(c), &conn).unwrap();
    }
    s.input(InputKey::Char('\n'), &conn).unwrap();
    assert_eq!(s.state, State::Normal);
    assert_eq!(s.nodes[0].tags, vec!["work".to_string()]);
    s.input(InputKey::Char(':'), &conn).unwrap();
    for c in "ut work".chars() {
        s.input(InputKey::Char(c), &conn).unwrap();
    }
    s.input(InputKey::Char('\n'), &conn).unwrap();
    assert!(s.nodes[0].tags.is_empty() || s.nodes[0].tags == vec!["".to_string()]);
}

#[test]
fn unknown_command_is_silent_noop() {
    let conn = fresh_db();
    let mut s = screen_with(&conn, 2, args_all());
    s.input(InputKey::Char(':'), &conn).unwrap();
    for c in "frob".chars() {
        s.input(InputKey::Char(c), &conn).unwrap();
    }
    let r = s.input(InputKey::Char('\n'), &conn);
    assert!(r.is_ok());
    assert_eq!(s.state, State::Normal);
    assert_eq!(s.nodes.len(), 2);
    assert_eq!(s.command, "");
}

#[test]
fn sort_mode_cycles() {
    let conn = fresh_db();
    let mut s = screen_with(&conn, 2, args_all());
    assert_eq!(s.args.sort, Some(Sort::ID));
    s.input(InputKey::Ctrl('o'), &conn).unwrap();
    assert_eq!(s.args.sort, Some(Sort::Edited));
    s.input(InputKey::Ctrl('o'), &conn).unwrap();
    assert_eq!(s.args.sort, Some(Sort::Priority));
    s.input(InputKey::Ctrl('o'), &conn).unwrap();
    assert_eq!(s.args.sort, Some(Sort::ID));
}

#[test]
fn priority_keys_keep_hovered_note() {
    let conn = fresh_db();
    let mut s = screen_with(&conn, 3, args_all());
    s.input(InputKey::Ctrl('o'), &conn).unwrap();
    s.input(InputKey::Ctrl('o'), &conn).unwrap();
    assert_eq!(s.args.sort, Some(Sort::Priority));
    s.cursor_down(1);
    let hovered = s.nodes[s.hover].id;
    s.input(InputKey::Char('K'), &conn).unwrap();
    assert_eq!(s.nodes[s.hover].id, hovered);
    let raised = s.nodes.iter().find(|n| n.id == hovered).unwrap();
    assert_eq!(raised.priority, 1);
}

#[test]
fn render_shows_visible_slice_and_status() {
    let conn = fresh_db();
    create(&conn, "alpha\nrest of body").unwrap();
    create(&conn, "beta").unwrap();
    let mut s = SelectScreen::new(&conn, args_all()).unwrap();
    s.resized((80, 10));
    let frame = s.render();
    assert_eq!(frame.rows.len(), 2);
    assert_eq!(frame.rows[0].summary, "alpha");
    assert!(frame.rows[0].hovered);
    assert!(!frame.rows[1].hovered);
    assert_eq!(frame.rows[0].tags_text, "(0)");
    assert!(frame.status.is_none());
    s.input(InputKey::Char('/'), &conn).unwrap();
    s.input(InputKey::Char('x'), &conn).unwrap();
    let frame2 = s.render();
    assert_eq!(frame2.status.as_deref(), Some("/x"));
}

#[test]
fn render_viewport_slices_long_lists() {
    let conn = fresh_db();
    let mut s = screen_with(&conn, 30, args_all());
    let frame = s.render();
    assert_eq!(frame.rows.len(), 10);
    s.cursor_down(25);
    let frame2 = s.render();
    assert_eq!(frame2.rows.len(), 10);
    assert!(frame2.rows.iter().any(|r| r.hovered));
}

#[test]
fn delete_status_line_names_single_node() {
    let conn = fresh_db();
    let mut s = screen_with(&conn, 1, args_all());
    let id = s.nodes[0].id;
    s.input(InputKey::Char('d'), &conn).unwrap();
    let frame = s.render();
    assert_eq!(frame.status.unwrap(), format!("Delete node {id}? [y/n]"));
}

#[test]
fn empty_list_motions_are_noops() {
    let conn = fresh_db();
    let mut s = SelectScreen::new(&conn, args_all()).unwrap();
    s.resized((80, 10));
    assert!(s.nodes.is_empty());
    s.input(InputKey::Char('j'), &conn).unwrap();
    s.input(InputKey::Char('G'), &conn).unwrap();
    s.input(InputKey::Char(' '), &conn).unwrap();
    s.input(InputKey::Char('e'), &conn).unwrap();
    assert_viewport_ok(&s);
    // With nothing to target, delete-confirm is not entered.
    s.input(InputKey::Char('d'), &conn).unwrap();
    assert_eq!(s.state, State::Normal);
}

#[test]
fn render_wide_terminal_shows_tags() {
    let conn = fresh_db();
    let id = create(&conn, "tagged note").unwrap();
    nodes::db::add_tags(&conn, &[id], &["work".to_string()]).unwrap();
    let mut s = SelectScreen::new(&conn, args_all()).unwrap();
    s.resized((200, 10));
    let frame = s.render();
    assert_eq!(frame.rows.len(), 1);
    let row = &frame.rows[0];
    assert!(row.tags_width > 0);
    assert!(row.sum_width >= 60);
    assert_eq!(row.tags_text, "(0)[work]");
}

#[test]
fn backspace_reparses_shortened_pattern() {
    let conn = fresh_db();
    create(&conn, "buy milk").unwrap();
    create(&conn, "write report").unwrap();
    let mut s = SelectScreen::new(&conn, args_all()).unwrap();
    s.resized((80, 10));
    s.input(InputKey::Char('/'), &conn).unwrap();
    for c in "milk(".chars() {
        s.input(InputKey::Char(c), &conn).unwrap();
    }
    // "milk(" does not parse, so the milk filter from the prefix is
    // still in effect; deleting the parenthesis re-parses "milk".
    s.input(InputKey::Backspace, &conn).unwrap();
    assert_eq!(s.pattern, "milk");
    assert_eq!(s.nodes.len(), 1);
    assert_eq!(s.nodes[0].summary, "buy milk");
}
