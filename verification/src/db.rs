//! The storage backend interface: the SQL each operation sends, built
//! and verified here, and thin trusted calls into rusqlite that run it.
//! Every piece of user text travels as a bound parameter, never spliced
//! into query text; numeric ids are written in decimal.
use vstd::prelude::*;

use rusqlite::OptionalExtension;

use crate::pattern::scan_to;
use crate::pattern::cond_params;
use crate::pattern::cond_sql;
use crate::pattern::cond_view;
use crate::util::dec_digits;
use crate::util::i32_string;
use crate::util::order_name_spec;
use crate::util::signed_dec_digits;
use crate::util::sort_name_spec;
use crate::util::string_views;
use crate::util::u32_string;
use crate::util::u64_string;
use crate::util::ListArgs;
use crate::util::Node;
use crate::util::list_args_wf;

verus! {

#[verifier::external_type_specification]
#[verifier::external_body]
pub struct ExConnection(rusqlite::Connection);

#[verifier::external_type_specification]
#[verifier::external_body]
pub struct ExSqlError(rusqlite::Error);

/// What can go wrong against the storage backend.
#[derive(Debug)]
pub enum DbError {
    /// An SQL operation failed unexpectedly.
    SQL(rusqlite::Error),
    /// No node with the given id exists.
    InvalidNode(u32),
    /// Creation was asked for an empty node.
    EmptyNode,
}

/// Relies on rusqlite `Error`'s `Display` impl for the human-readable
/// text of a backend error.
#[verifier::external_body]
fn sql_error_text(e: &rusqlite::Error) -> String {
    format!("{}", e)
}

impl DbError {
    /// A human-readable description of the error.
    pub fn message(&self) -> (r: String)
        ensures
            self matches DbError::InvalidNode(id) ==> r@ == "Invalid node id "@ + dec_digits(
                id as nat,
            ),
            self is EmptyNode ==> r@ == "Empty Node not created"@,
    {
        match self {
            DbError::SQL(e) => {
                let mut m = "SQL Error: ".to_owned();
                m.append(sql_error_text(e).as_str());
                m
            },
            DbError::InvalidNode(id) => {
                let mut m = "Invalid node id ".to_owned();
                m.append(u32_string(*id).as_str());
                proof {
                    assert(m@ =~= "Invalid node id "@ + dec_digits(*id as nat));
                }
                m
            },
            DbError::EmptyNode => "Empty Node not created".to_owned(),
        }
    }
}

/// One row of the note listing query, exactly as the backend hands it
/// over: the tag column is the concatenated tag list, absent when the
/// note has no tags.
pub struct RawNote {
    pub id: u32,
    pub priority: i32,
    pub content: String,
    pub tags: Option<String>,
}

/// Relies on rusqlite's `Connection::execute`: runs one SQL statement
/// with the given texts bound to its `?` placeholders, in order, and
/// returns how many rows changed.  Nothing is promised of the result:
/// it depends on the database state.
#[verifier::external_body]
fn exec_sql(conn: &rusqlite::Connection, sql: &str, params: &Vec<String>) -> Result<
    usize,
    rusqlite::Error,
> {
    conn.execute(sql, rusqlite::params_from_iter(params.iter()))
}

/// Relies on rusqlite's `Statement::query_map`: runs the query with
/// the given texts bound to its `?` placeholders and collects each
/// row's first four columns as id, priority, content and optional tag
/// list.  Nothing is promised of the rows: they depend on the database
/// state.
#[verifier::external_body]
fn query_notes_raw(conn: &rusqlite::Connection, sql: &str, params: &Vec<String>) -> Result<
    Vec<RawNote>,
    rusqlite::Error,
> {
    let run = || -> rusqlite::Result<Vec<RawNote>> {
        let mut stmt = conn.prepare(sql)?;
        let rows = stmt.query_map(rusqlite::params_from_iter(params.iter()), |row| {
            Ok(RawNote { id: row.get(0)?, priority: row.get(1)?, content: row.get(2)?, tags: row.get(3)? })
        })?;
        rows.collect()
    };
    run()
}

/// Relies on rusqlite's `Connection::query_row` with
/// `OptionalExtension::optional`: runs the query with the given texts
/// bound and returns the first row's first column as text, or `None`
/// when no row matches.  Nothing is promised of the value: it depends
/// on the database state.
#[verifier::external_body]
fn query_text_raw(conn: &rusqlite::Connection, sql: &str, params: &Vec<String>) -> Result<
    Option<String>,
    rusqlite::Error,
> {
    conn.query_row(sql, rusqlite::params_from_iter(params.iter()), |row| row.get(0)).optional()
}

/// Relies on rusqlite's `Connection::last_insert_rowid`: the rowid of
/// the most recent successful `INSERT` on this connection.
#[verifier::external_body]
fn last_insert_rowid(conn: &rusqlite::Connection) -> i64 {
    conn.last_insert_rowid()
}

/// The comma-separated decimal ids within an `IN (...)` list.
pub open spec fn ids_join(ids: Seq<u32>) -> Seq<char>
    decreases ids.len(),
{
    if ids.len() == 0 {
        Seq::empty()
    } else if ids.len() == 1 {
        dec_digits(ids[0] as nat)
    } else {
        ids_join(ids.subrange(0, ids.len() - 1)) + ","@ + dec_digits(ids.last() as nat)
    }
}

/// What `in_string` yields.
pub open spec fn in_string_spec(ids: Seq<u32>) -> Seq<char> {
    "IN ("@ + ids_join(ids) + ")"@
}

/// Returns the SQL `IN (ids,...)` string for the given ids.
pub fn in_string(ids: &[u32]) -> (r: String)
    ensures
        r@ == in_string_spec(ids@),
{
    let mut q = "IN (".to_owned();
    let mut i: usize = 0;
    while i < ids.len()
        invariant
            i <= ids@.len(),
            q@ == "IN ("@ + ids_join(ids@.subrange(0, i as int)),
        decreases ids@.len() - i,
    {
        if i > 0 {
            q.append(",");
        }
        q.append(u32_string(ids[i]).as_str());
        proof {
            let pre = ids@.subrange(0, i + 1 as int);
            assert(pre.subrange(0, i as int) =~= ids@.subrange(0, i as int));
            assert(pre.last() == ids@[i as int]);
            if i == 0 {
                assert(q@ =~= "IN ("@ + ids_join(pre));
            } else {
                assert(q@ =~= "IN ("@ + (ids_join(pre.subrange(0, i as int)) + ","@ + dec_digits(
                    pre.last() as nat,
                )));
                assert(q@ =~= "IN ("@ + ids_join(pre));
            }
        }
        i = i + 1;
    }
    q.append(")");
    proof {
        assert(ids@.subrange(0, ids@.len() as int) =~= ids@);
        assert(q@ =~= in_string_spec(ids@));
    }
    q
}

/// The comma-and-space separated decimal ids of a `WHERE ... IN` list.
pub open spec fn ids_join_cs(ids: Seq<u32>) -> Seq<char>
    decreases ids.len(),
{
    if ids.len() == 0 {
        Seq::empty()
    } else if ids.len() == 1 {
        dec_digits(ids[0] as nat)
    } else {
        ids_join_cs(ids.subrange(0, ids.len() - 1)) + ", "@ + dec_digits(ids.last() as nat)
    }
}

/// Appends the ids to `q`, separated by comma and space.
fn append_ids_cs(q: &mut String, ids: &[u32])
    ensures
        final(q)@ == old(q)@ + ids_join_cs(ids@),
{
    let mut i: usize = 0;
    while i < ids.len()
        invariant
            i <= ids@.len(),
            q@ == old(q)@ + ids_join_cs(ids@.subrange(0, i as int)),
        decreases ids@.len() - i,
    {
        if i > 0 {
            q.append(", ");
        }
        q.append(u32_string(ids[i]).as_str());
        proof {
            let pre = ids@.subrange(0, i + 1 as int);
            assert(pre.subrange(0, i as int) =~= ids@.subrange(0, i as int));
            assert(pre.last() == ids@[i as int]);
            if i == 0 {
                assert(q@ =~= old(q)@ + ids_join_cs(pre));
            } else {
                assert(q@ =~= old(q)@ + (ids_join_cs(pre.subrange(0, i as int)) + ", "@
                    + dec_digits(pre.last() as nat)));
                assert(q@ =~= old(q)@ + ids_join_cs(pre));
            }
        }
        i = i + 1;
    }
    proof {
        assert(ids@.subrange(0, ids@.len() as int) =~= ids@);
    }
}

/// The archived-state filter of a listing query.
pub open spec fn archived_sql(b: bool) -> Seq<char> {
    if b {
        "(archived = 1)"@
    } else {
        "(archived = 0)"@
    }
}

/// The conjunction of the filters a listing query applies: the
/// archived tri-state and the compiled pattern, when present.
pub open spec fn filters_sql(args: ListArgs) -> Seq<char> {
    match args.archived {
        Some(b) => match args.pattern {
            Some(p) => archived_sql(b) + " AND "@ + cond_sql(cond_view(p)),
            None => archived_sql(b),
        },
        None => match args.pattern {
            Some(p) => cond_sql(cond_view(p)),
            None => Seq::empty(),
        },
    }
}

/// The `WHERE` clause of a listing query; empty when nothing filters.
pub open spec fn where_sql(args: ListArgs) -> Seq<char> {
    if args.archived is Some || args.pattern is Some {
        " WHERE "@ + filters_sql(args)
    } else {
        Seq::empty()
    }
}

/// The `ORDER BY` clause for the given direction; empty without a
/// sort key.
pub open spec fn order_sql(args: ListArgs, o: crate::util::Order) -> Seq<char> {
    match args.sort {
        Some(s) => " ORDER BY "@ + sort_name_spec(s) + " "@ + order_name_spec(o),
        None => Seq::empty(),
    }
}

/// The `LIMIT` clause; empty without a count.
pub open spec fn limit_sql(args: ListArgs) -> Seq<char> {
    match args.count {
        Some(c) => " LIMIT "@ + dec_digits(c as nat),
        None => Seq::empty(),
    }
}

/// The one-phase listing query: filtered, grouped per note with its
/// tags concatenated, ordered by the pre-limit direction, limited.
pub open spec fn base_list_sql(args: ListArgs) -> Seq<char> {
    "SELECT DISTINCT id, priority, content, GROUP_CONCAT(tag) FROM nodes LEFT JOIN tags ON nodes.id = tags.node"@
        + where_sql(args) + " GROUP BY id"@ + order_sql(args, args.preorder) + limit_sql(args)
}

/// The whole listing query: when the two directions differ, the
/// already-limited result is re-ordered by the post-limit direction.
pub open spec fn list_sql(args: ListArgs) -> Seq<char> {
    if args.preorder != args.postorder {
        "SELECT * FROM ("@ + base_list_sql(args) + ")"@ + order_sql(args, args.postorder)
    } else {
        base_list_sql(args)
    }
}

/// The texts bound to the listing query's placeholders: the compiled
/// pattern's parameters.
pub open spec fn list_params(args: ListArgs) -> Seq<Seq<char>> {
    match args.pattern {
        Some(p) => cond_params(cond_view(p)),
        None => Seq::empty(),
    }
}

/// Appends the `WHERE` clause of a listing query and its bound texts.
fn append_where(q: &mut String, params: &mut Vec<String>, args: &ListArgs)
    requires
        list_args_wf(*args),
    ensures
        final(q)@ == old(q)@ + where_sql(*args),
        string_views(final(params)@) == string_views(old(params)@) + list_params(*args),
{
    let ghost q0 = q@;
    let ghost p0 = params@;
    if args.archived.is_some() || args.pattern.is_some() {
        q.append(" WHERE ");
    }
    match &args.archived {
        Some(b) => {
            if *b {
                q.append("(archived = 1)");
            } else {
                q.append("(archived = 0)");
            }
            if args.pattern.is_some() {
                q.append(" AND ");
            }
        },
        None => {},
    }
    match &args.pattern {
        Some(p) => {
            let (ps, mut pp) = crate::pattern::tosql(p);
            let ghost ppv = pp@;
            q.append(ps.as_str());
            params.append(&mut pp);
            proof {
                assert(params@ =~= p0 + ppv);
                assert(string_views(params@) =~= string_views(p0) + string_views(ppv));
                assert(string_views(ppv) =~= list_params(*args));
            }
        },
        None => {
            proof {
                assert(string_views(params@) =~= string_views(p0) + list_params(*args));
            }
        },
    }
    proof {
        assert(q@ =~= q0 + where_sql(*args));
    }
}

/// Appends the `ORDER BY` clause for the given direction.
fn append_order(q: &mut String, args: &ListArgs, o: crate::util::Order)
    ensures
        final(q)@ == old(q)@ + order_sql(*args, o),
{
    let ghost q0 = q@;
    match &args.sort {
        Some(s) => {
            q.append(" ORDER BY ");
            q.append(s.name());
            q.append(" ");
            q.append(o.name());
            proof {
                assert(q@ =~= q0 + order_sql(*args, o));
            }
        },
        None => {},
    }
}

/// Appends the `LIMIT` clause.
fn append_limit(q: &mut String, args: &ListArgs)
    ensures
        final(q)@ == old(q)@ + limit_sql(*args),
{
    let ghost q0 = q@;
    match args.count {
        Some(c) => {
            q.append(" LIMIT ");
            q.append(u64_string(c as u64).as_str());
            proof {
                assert(q@ =~= q0 + limit_sql(*args));
            }
        },
        None => {},
    }
}

/// Builds the SQL text and parameter list of a listing query.
pub fn build_list_query(args: &ListArgs) -> (r: (String, Vec<String>))
    requires
        list_args_wf(*args),
    ensures
        r.0@ == list_sql(*args),
        string_views(r.1@) == list_params(*args),
{
    let mut q =
        "SELECT DISTINCT id, priority, content, GROUP_CONCAT(tag) FROM nodes LEFT JOIN tags ON nodes.id = tags.node".to_owned();
    let mut params: Vec<String> = Vec::new();
    proof {
        assert(string_views(Seq::<String>::empty()) =~= Seq::<Seq<char>>::empty());
    }
    append_where(&mut q, &mut params, args);
    q.append(" GROUP BY id");
    append_order(&mut q, args, args.preorder);
    append_limit(&mut q, args);
    proof {
        assert(string_views(params@) =~= list_params(*args));
    }
    if args.preorder != args.postorder {
        let mut outer = "SELECT * FROM (".to_owned();
        outer.append(q.as_str());
        outer.append(")");
        append_order(&mut outer, args, args.postorder);
        (outer, params)
    } else {
        (q, params)
    }
}

/// The pieces of a concatenated tag list: split at every comma, empty
/// pieces kept.
pub open spec fn split_commas(s: Seq<char>) -> Seq<Seq<char>>
    decreases s.len(),
{
    let e = scan_to(s, 0, ',');
    if 0 <= e < s.len() {
        seq![s.subrange(0, e)] + split_commas(s.subrange(e + 1, s.len() as int))
    } else {
        seq![s]
    }
}

/// Splits the characters of `s` from `from` on at every comma.
fn split_commas_x(s: &Vec<char>, from: usize) -> (r: Vec<String>)
    requires
        from <= s@.len(),
    ensures
        string_views(r@) == split_commas(s@.subrange(from as int, s@.len() as int)),
    decreases s@.len() - from,
{
    let ghost suffix = s@.subrange(from as int, s@.len() as int);
    let mut e: usize = from;
    while e < s.len() && s[e] != ','
        invariant
            from <= e <= s@.len(),
            forall|q: int| from <= q < e ==> s@[q] != ',',
        decreases s@.len() - e,
    {
        e = e + 1;
    }
    proof {
        assert forall|q: int| 0 <= q < e - from implies suffix[q] != ',' by {
            assert(suffix[q] == s@[from + q]);
        }
        crate::util::lemma_scan_to_at(suffix, 0, e - from, ',');
    }
    if e < s.len() {
        let head = crate::util::seg_string(s, from, e);
        let rest = split_commas_x(s, e + 1);
        let ghost restv = rest@;
        let mut out: Vec<String> = Vec::new();
        out.push(head);
        let mut tail = rest;
        out.append(&mut tail);
        proof {
            assert(suffix.subrange(0, e - from) =~= s@.subrange(from as int, e as int));
            assert(suffix.subrange(e - from + 1, suffix.len() as int) =~= s@.subrange(
                e + 1 as int,
                s@.len() as int,
            ));
            assert(out@ =~= seq![head] + restv);
            assert(string_views(out@) =~= seq![s@.subrange(from as int, e as int)] + string_views(
                restv,
            ));
            assert(string_views(out@) =~= split_commas(suffix));
        }
        out
    } else {
        let whole = crate::util::seg_string(s, from, s.len());
        let mut out: Vec<String> = Vec::new();
        out.push(whole);
        proof {
            assert(string_views(out@) =~= seq![suffix]);
        }
        out
    }
}

/// What one listed note is built from its raw row: the id, priority
/// and content carried over, and the tag column split at commas into
/// the tag list, empty when the column was absent.
pub open spec fn note_of_row(w: RawNote, n: Node) -> bool {
    &&& n.id == w.id
    &&& n.priority == w.priority
    &&& n.content@ == w.content@
    &&& string_views(n.tags@) == (match w.tags {
        Some(t) => split_commas(t@),
        None => Seq::<Seq<char>>::empty(),
    })
}

/// Turns the raw rows of a listing query into listed notes, row by
/// row, in order.
pub fn notes_from_rows(rows: Vec<RawNote>) -> (r: Vec<Node>)
    ensures
        r@.len() == rows@.len(),
        forall|q: int| 0 <= q < rows@.len() ==> note_of_row(rows@[q], #[trigger] r@[q]),
{
    let mut out: Vec<Node> = Vec::new();
    let mut i: usize = 0;
    while i < rows.len()
        invariant
            i <= rows@.len(),
            out@.len() == i,
            forall|q: int| 0 <= q < i ==> note_of_row(rows@[q], #[trigger] out@[q]),
        decreases rows@.len() - i,
    {
        let w = &rows[i];
        let tags: Vec<String> = match &w.tags {
            Some(t) => {
                let cs = crate::util::str_chars(t.as_str());
                let r = split_commas_x(&cs, 0);
                proof {
                    assert(cs@.subrange(0, cs@.len() as int) =~= t@);
                }
                r
            },
            None => Vec::new(),
        };
        proof {
            if w.tags is None {
                assert(string_views(tags@) =~= Seq::<Seq<char>>::empty());
            }
        }
        out.push(
            Node {
                id: w.id,
                priority: w.priority,
                content: w.content.clone(),
                tags,
            },
        );
        i = i + 1;
    }
    out
}

/// Runs the listing query that `args` describes and returns the notes
/// in final order, their tag columns split into tag lists.  A backend
/// failure is reported as an `SQL` error; nothing else can fail.
pub fn iter_nodes(conn: &rusqlite::Connection, args: &ListArgs) -> (r: Result<Vec<Node>, DbError>)
    requires
        list_args_wf(*args),
    ensures
        r is Err ==> r matches Err(DbError::SQL(_)),
{
    let (sql, params) = build_list_query(args);
    match query_notes_raw(conn, sql.as_str(), &params) {
        Ok(rows) => Ok(notes_from_rows(rows)),
        Err(e) => Err(DbError::SQL(e)),
    }
}

/// The statement that sets one node's archived flag.
pub fn set_archived_sql(id: u32, set: bool) -> (q: String)
    ensures
        q@ == "UPDATE nodes SET archived = "@ + (if set {
            "1"@
        } else {
            "0"@
        }) + " WHERE id = "@ + dec_digits(id as nat),
{
    let mut q = "UPDATE nodes SET archived = ".to_owned();
    if set {
        q.append("1");
    } else {
        q.append("0");
    }
    q.append(" WHERE id = ");
    q.append(u32_string(id).as_str());
    proof {
        assert(q@ =~= "UPDATE nodes SET archived = "@ + (if set {
            "1"@
        } else {
            "0"@
        }) + " WHERE id = "@ + dec_digits(id as nat));
    }
    q
}

/// Sets the archived flag of one node, sending exactly the statement
/// that `set_archived_sql` builds.  A backend failure is reported as
/// an `SQL` error; nothing else can fail.
pub fn set_archived(conn: &rusqlite::Connection, id: u32, set: bool) -> (r: Result<(), DbError>)
    ensures
        r is Err ==> r matches Err(DbError::SQL(_)),
{
    let q = set_archived_sql(id, set);
    let params: Vec<String> = Vec::new();
    match exec_sql(conn, q.as_str(), &params) {
        Ok(_) => Ok(()),
        Err(e) => Err(DbError::SQL(e)),
    }
}

/// The statement that flips one node's archived flag.
pub fn toggle_archived_sql(id: u32) -> (q: String)
    ensures
        q@ == "UPDATE nodes SET archived = NOT archived WHERE id = "@ + dec_digits(id as nat),
{
    let mut q = "UPDATE nodes SET archived = NOT archived WHERE id = ".to_owned();
    q.append(u32_string(id).as_str());
    q
}

/// Flips the archived flag of one node, sending exactly the statement
/// that `toggle_archived_sql` builds.  A backend failure is reported
/// as an `SQL` error; nothing else can fail.
pub fn toggle_archived(conn: &rusqlite::Connection, id: u32) -> (r: Result<(), DbError>)
    ensures
        r is Err ==> r matches Err(DbError::SQL(_)),
{
    let q = toggle_archived_sql(id);
    let params: Vec<String> = Vec::new();
    match exec_sql(conn, q.as_str(), &params) {
        Ok(_) => Ok(()),
        Err(e) => Err(DbError::SQL(e)),
    }
}

/// The statement that flips the archived flag of every given node.
pub fn toggle_archived_range_sql(ids: &[u32]) -> (q: String)
    ensures
        q@ == "UPDATE nodes SET archived = NOT archived WHERE id "@ + in_string_spec(ids@),
{
    let mut q = "UPDATE nodes SET archived = NOT archived WHERE id ".to_owned();
    q.append(in_string(ids).as_str());
    proof {
        assert(q@ =~= "UPDATE nodes SET archived = NOT archived WHERE id "@ + in_string_spec(
            ids@,
        ));
    }
    q
}

/// Flips the archived flag of every given node, sending exactly the
/// statement that `toggle_archived_range_sql` builds.  A backend
/// failure is reported as an `SQL` error; nothing else can fail.
pub fn toggle_archived_range(conn: &rusqlite::Connection, ids: &[u32]) -> (r: Result<(), DbError>)
    ensures
        r is Err ==> r matches Err(DbError::SQL(_)),
{
    let q = toggle_archived_range_sql(ids);
    let params: Vec<String> = Vec::new();
    match exec_sql(conn, q.as_str(), &params) {
        Ok(_) => Ok(()),
        Err(e) => Err(DbError::SQL(e)),
    }
}

/// The statement that deletes every given node.
pub fn delete_range_sql(ids: &[u32]) -> (q: String)
    ensures
        q@ == "DELETE FROM nodes WHERE id "@ + in_string_spec(ids@),
{
    let mut q = "DELETE FROM nodes WHERE id ".to_owned();
    q.append(in_string(ids).as_str());
    proof {
        assert(q@ =~= "DELETE FROM nodes WHERE id "@ + in_string_spec(ids@));
    }
    q
}

/// Deletes the given nodes and returns how many rows went, sending
/// exactly the statement that `delete_range_sql` builds.  An empty id
/// list deletes nothing and cannot fail; a backend failure is
/// reported as an `SQL` error; nothing else can fail.
pub fn delete_range(conn: &rusqlite::Connection, ids: &[u32]) -> (r: Result<usize, DbError>)
    ensures
        ids@.len() == 0 ==> (r matches Ok(n) && n == 0),
        r is Err ==> r matches Err(DbError::SQL(_)),
{
    if ids.len() == 0 {
        return Ok(0);
    }
    let q = delete_range_sql(ids);
    let params: Vec<String> = Vec::new();
    match exec_sql(conn, q.as_str(), &params) {
        Ok(n) => Ok(n),
        Err(e) => Err(DbError::SQL(e)),
    }
}

/// The statement that deletes one node.
pub fn delete_sql(id: u32) -> (q: String)
    ensures
        q@ == "DELETE FROM nodes WHERE id = "@ + dec_digits(id as nat),
{
    let mut q = "DELETE FROM nodes WHERE id = ".to_owned();
    q.append(u32_string(id).as_str());
    q
}

/// Deletes one node, sending exactly the statement that `delete_sql`
/// builds.  A backend failure is reported as an `SQL` error; nothing
/// else can fail.
pub fn delete(conn: &rusqlite::Connection, id: u32) -> (r: Result<(), DbError>)
    ensures
        r is Err ==> r matches Err(DbError::SQL(_)),
{
    let q = delete_sql(id);
    let params: Vec<String> = Vec::new();
    match exec_sql(conn, q.as_str(), &params) {
        Ok(_) => Ok(()),
        Err(e) => Err(DbError::SQL(e)),
    }
}

/// The `(id, ?)` groups of one id within a tag insertion, `k` of them.
pub open spec fn tag_values_one(id: u32, k: int) -> Seq<char>
    decreases k,
{
    if k <= 0 {
        Seq::empty()
    } else if k == 1 {
        "("@ + dec_digits(id as nat) + ", ?)"@
    } else {
        tag_values_one(id, k - 1) + ", "@ + "("@ + dec_digits(id as nat) + ", ?)"@
    }
}

/// The whole `VALUES` list of a tag insertion: one `(id, ?)` group per
/// id and tag; empty when there are no tags.
pub open spec fn tag_values(ids: Seq<u32>, k: int) -> Seq<char>
    decreases ids.len(),
{
    if k <= 0 || ids.len() == 0 {
        Seq::empty()
    } else if ids.len() == 1 {
        tag_values_one(ids[0], k)
    } else {
        tag_values(ids.subrange(0, ids.len() - 1), k) + ", "@ + tag_values_one(ids.last(), k)
    }
}

/// The given texts, repeated over `n` rounds.
pub open spec fn repeated_params(tags: Seq<Seq<char>>, n: int) -> Seq<Seq<char>>
    decreases n,
{
    if n <= 0 {
        Seq::empty()
    } else {
        repeated_params(tags, n - 1) + tags
    }
}

/// The statement and bound texts that associate every given tag with
/// every given node: one `(id, ?)` group per pair, the tag texts
/// repeated per id, in order.
pub fn add_tags_sql(ids: &[u32], tags: &[String]) -> (r: (String, Vec<String>))
    ensures
        r.0@ == "INSERT INTO tags(node, tag) VALUES "@ + tag_values(ids@, tags@.len() as int),
        string_views(r.1@) == repeated_params(string_views(tags@), ids@.len() as int),
{
    let ghost tagviews = string_views(tags@);
    let mut q = "INSERT INTO tags(node, tag) VALUES ".to_owned();
    let mut params: Vec<String> = Vec::new();
    let mut i: usize = 0;
    while i < ids.len()
        invariant
            i <= ids@.len(),
            tagviews == string_views(tags@),
            q@ == "INSERT INTO tags(node, tag) VALUES "@ + tag_values(
                ids@.subrange(0, i as int),
                tags@.len() as int,
            ),
            string_views(params@) == repeated_params(tagviews, i as int),
        decreases ids@.len() - i,
    {
        let ghost q_outer = q@;
        let ghost params_outer = params@;
        let mut j: usize = 0;
        while j < tags.len()
            invariant
                j <= tags@.len(),
                i < ids@.len(),
                tagviews == string_views(tags@),
                q_outer == "INSERT INTO tags(node, tag) VALUES "@ + tag_values(
                    ids@.subrange(0, i as int),
                    tags@.len() as int,
                ),
                q@ == q_outer + (if j == 0 {
                    Seq::<char>::empty()
                } else {
                    (if i > 0 {
                        ", "@
                    } else {
                        Seq::<char>::empty()
                    }) + tag_values_one(ids@[i as int], j as int)
                }),
                string_views(params@) == string_views(params_outer) + string_views(
                    tags@.subrange(0, j as int),
                ),
            decreases tags@.len() - j,
        {
            if i > 0 || j > 0 {
                q.append(", ");
            }
            q.append("(");
            q.append(u32_string(ids[i]).as_str());
            q.append(", ?)");
            let ghost params_before = params@;
            params.push(tags[j].clone());
            proof {
                assert(string_views(params@) =~= string_views(params_before) + seq![tags@[j as int]@]);
                assert(string_views(tags@.subrange(0, j + 1 as int)) =~= string_views(
                    tags@.subrange(0, j as int),
                ) + seq![tags@[j as int]@]);
                let one = "("@ + dec_digits(ids@[i as int] as nat) + ", ?)"@;
                if j == 0 {
                    assert(tag_values_one(ids@[i as int], 1) =~= one);
                    if i > 0 {
                        assert(q@ =~= q_outer + (", "@ + tag_values_one(ids@[i as int], 1)));
                    } else {
                        assert(q@ =~= q_outer + tag_values_one(ids@[i as int], 1));
                    }
                } else {
                    assert(tag_values_one(ids@[i as int], j + 1 as int) =~= tag_values_one(
                        ids@[i as int],
                        j as int,
                    ) + ", "@ + one);
                    if i > 0 {
                        assert(q@ =~= q_outer + (", "@ + tag_values_one(
                            ids@[i as int],
                            j + 1 as int,
                        )));
                    } else {
                        assert(q@ =~= q_outer + tag_values_one(ids@[i as int], j + 1 as int));
                    }
                }
                assert(string_views(params@) =~= string_views(params_outer) + string_views(
                    tags@.subrange(0, j + 1 as int),
                ));
            }
            j = j + 1;
        }
        proof {
            let pre = ids@.subrange(0, i + 1 as int);
            assert(pre.subrange(0, i as int) =~= ids@.subrange(0, i as int));
            assert(pre.last() == ids@[i as int]);
            if tags@.len() == 0 {
                assert(q@ =~= "INSERT INTO tags(node, tag) VALUES "@ + tag_values(
                    pre,
                    tags@.len() as int,
                ));
            } else if i == 0 {
                assert(tag_values(pre, tags@.len() as int) == tag_values_one(
                    pre[0],
                    tags@.len() as int,
                ));
                assert(q@ =~= "INSERT INTO tags(node, tag) VALUES "@ + tag_values(
                    pre,
                    tags@.len() as int,
                ));
            } else {
                assert(q@ =~= "INSERT INTO tags(node, tag) VALUES "@ + (tag_values(
                    pre.subrange(0, i as int),
                    tags@.len() as int,
                ) + ", "@ + tag_values_one(pre.last(), tags@.len() as int)));
                assert(q@ =~= "INSERT INTO tags(node, tag) VALUES "@ + tag_values(
                    pre,
                    tags@.len() as int,
                ));
            }
            assert(tags@.subrange(0, tags@.len() as int) =~= tags@);
            assert(string_views(params@) =~= repeated_params(tagviews, i + 1 as int));
        }
        i = i + 1;
    }
    proof {
        assert(ids@.subrange(0, ids@.len() as int) =~= ids@);
    }
    (q, params)
}

/// Associates every given tag with every given node, sending exactly
/// the statement that `add_tags_sql` builds, its tag texts bound.  A
/// backend failure is reported as an `SQL` error; nothing else can
/// fail.  With no ids or no tags the statement is an incomplete
/// `INSERT`, which the backend rejects, as it does for unknown ids.
pub fn add_tags(conn: &rusqlite::Connection, ids: &[u32], tags: &[String]) -> (r: Result<
    (),
    DbError,
>)
    ensures
        r is Err ==> r matches Err(DbError::SQL(_)),
{
    let (q, params) = add_tags_sql(ids, tags);
    match exec_sql(conn, q.as_str(), &params) {
        Ok(_) => Ok(()),
        Err(e) => Err(DbError::SQL(e)),
    }
}

/// The `?` placeholders of a `tag IN (...)` list, one per tag.
pub open spec fn qmarks(n: int) -> Seq<char>
    decreases n,
{
    if n <= 0 {
        Seq::empty()
    } else if n == 1 {
        "?"@
    } else {
        qmarks(n - 1) + ", ?"@
    }
}

/// The statement and bound texts that remove every given tag from
/// every given node.
pub fn remove_tags_sql(ids: &[u32], tags: &[String]) -> (r: (String, Vec<String>))
    ensures
        r.0@ == "DELETE FROM tags WHERE node IN ("@ + ids_join_cs(ids@) + ") AND tag IN ("@
            + qmarks(tags@.len() as int) + ")"@,
        string_views(r.1@) == string_views(tags@),
{
    let mut q = "DELETE FROM tags WHERE node IN (".to_owned();
    append_ids_cs(&mut q, ids);
    q.append(") AND tag IN (");
    let mut params: Vec<String> = Vec::new();
    let mut j: usize = 0;
    let ghost mid = q@;
    while j < tags.len()
        invariant
            j <= tags@.len(),
            q@ == mid + qmarks(j as int),
            string_views(params@) == string_views(tags@.subrange(0, j as int)),
        decreases tags@.len() - j,
    {
        if j > 0 {
            q.append(", ?");
        } else {
            q.append("?");
        }
        let ghost params_before = params@;
        params.push(tags[j].clone());
        proof {
            assert(string_views(params@) =~= string_views(params_before) + seq![tags@[j as int]@]);
            assert(string_views(tags@.subrange(0, j + 1 as int)) =~= string_views(
                tags@.subrange(0, j as int),
            ) + seq![tags@[j as int]@]);
            assert(string_views(params@) =~= string_views(tags@.subrange(0, j + 1 as int)));
        }
        j = j + 1;
    }
    q.append(")");
    proof {
        assert(tags@.subrange(0, tags@.len() as int) =~= tags@);
        assert(q@ =~= "DELETE FROM tags WHERE node IN ("@ + ids_join_cs(ids@) + ") AND tag IN ("@
            + qmarks(tags@.len() as int) + ")"@);
    }
    (q, params)
}

/// Removes every given tag from every given node, sending exactly the
/// statement that `remove_tags_sql` builds, its tag texts bound.  A
/// backend failure is reported as an `SQL` error; nothing else can
/// fail.
pub fn remove_tags(conn: &rusqlite::Connection, ids: &[u32], tags: &[String]) -> (r: Result<
    (),
    DbError,
>)
    ensures
        r is Err ==> r matches Err(DbError::SQL(_)),
{
    let (q, params) = remove_tags_sql(ids, tags);
    match exec_sql(conn, q.as_str(), &params) {
        Ok(_) => Ok(()),
        Err(e) => Err(DbError::SQL(e)),
    }
}

/// The statement that adds `offset` to the priority of every given
/// node.
pub fn priority_add_sql(ids: &[u32], offset: i32) -> (q: String)
    ensures
        q@ == "UPDATE nodes SET priority = priority + "@ + signed_dec_digits(offset as int)
            + " WHERE id IN ("@ + ids_join_cs(ids@) + ")"@,
{
    let mut q = "UPDATE nodes SET priority = priority + ".to_owned();
    q.append(i32_string(offset).as_str());
    q.append(" WHERE id IN (");
    append_ids_cs(&mut q, ids);
    q.append(")");
    proof {
        assert(q@ =~= "UPDATE nodes SET priority = priority + "@ + signed_dec_digits(offset as int)
            + " WHERE id IN ("@ + ids_join_cs(ids@) + ")"@);
    }
    q
}

/// Adds `offset` to the priority of every given node, sending exactly
/// the statement that `priority_add_sql` builds.  A backend failure
/// is reported as an `SQL` error; nothing else can fail.
pub fn priority_add(conn: &rusqlite::Connection, ids: &[u32], offset: i32) -> (r: Result<
    (),
    DbError,
>)
    ensures
        r is Err ==> r matches Err(DbError::SQL(_)),
{
    let q = priority_add_sql(ids, offset);
    let params: Vec<String> = Vec::new();
    match exec_sql(conn, q.as_str(), &params) {
        Ok(_) => Ok(()),
        Err(e) => Err(DbError::SQL(e)),
    }
}

/// Creates a node holding `content` and returns its id.  Empty content
/// is rejected with `EmptyNode` and nothing is created; a backend
/// failure is reported as an `SQL` error; nothing else can fail.
pub fn create(conn: &rusqlite::Connection, content: &str) -> (r: Result<u32, DbError>)
    ensures
        content@.len() == 0 <==> r matches Err(DbError::EmptyNode),
        r is Err ==> r matches Err(DbError::EmptyNode) || r matches Err(DbError::SQL(_)),
{
    if content.is_empty() {
        return Err(DbError::EmptyNode);
    }
    let mut params: Vec<String> = Vec::new();
    params.push(content.to_owned());
    match exec_sql(conn, "INSERT INTO nodes(content) VALUES (?)", &params) {
        Ok(_) => {
            let rowid = last_insert_rowid(conn);
            Ok(#[verifier::truncate] (rowid as u32))
        },
        Err(e) => Err(DbError::SQL(e)),
    }
}

/// The query that reads one node's content.
pub fn node_content_sql(id: u32) -> (q: String)
    ensures
        q@ == "SELECT content FROM nodes WHERE id = "@ + dec_digits(id as nat),
{
    let mut q = "SELECT content FROM nodes WHERE id = ".to_owned();
    q.append(u32_string(id).as_str());
    q
}

/// Reads the content of one node, sending exactly the query that
/// `node_content_sql` builds.  An unknown id is reported as
/// `InvalidNode` carrying that id; a backend failure as an `SQL`
/// error; nothing else can fail.
pub fn node_content(conn: &rusqlite::Connection, id: u32) -> (r: Result<String, DbError>)
    ensures
        r matches Err(DbError::InvalidNode(i)) ==> i == id,
        r is Err ==> r matches Err(DbError::InvalidNode(_)) || r matches Err(DbError::SQL(_)),
{
    let q = node_content_sql(id);
    let params: Vec<String> = Vec::new();
    match query_text_raw(conn, q.as_str(), &params) {
        Ok(Some(content)) => Ok(content),
        Ok(None) => Err(DbError::InvalidNode(id)),
        Err(e) => Err(DbError::SQL(e)),
    }
}

/// The statement that replaces one node's content and stamps it
/// viewed and edited; the new content is its one bound text.
pub fn set_content_sql(id: u32) -> (q: String)
    ensures
        q@ == "UPDATE nodes SET content = ?, edited = CURRENT_TIMESTAMP, viewed = CURRENT_TIMESTAMP WHERE id = "@
            + dec_digits(id as nat),
{
    let mut q =
        "UPDATE nodes SET content = ?, edited = CURRENT_TIMESTAMP, viewed = CURRENT_TIMESTAMP WHERE id = ".to_owned();
    q.append(u32_string(id).as_str());
    q
}

/// Replaces the content of one node and stamps it viewed and edited,
/// sending exactly the statement that `set_content_sql` builds with
/// the content bound.  A backend failure is reported as an `SQL`
/// error; nothing else can fail.
pub fn set_content(conn: &rusqlite::Connection, id: u32, content: &str) -> (r: Result<(), DbError>)
    ensures
        r is Err ==> r matches Err(DbError::SQL(_)),
{
    let q = set_content_sql(id);
    let mut params: Vec<String> = Vec::new();
    params.push(content.to_owned());
    match exec_sql(conn, q.as_str(), &params) {
        Ok(_) => Ok(()),
        Err(e) => Err(DbError::SQL(e)),
    }
}

/// The statement that stamps one node viewed.
pub fn touch_viewed_sql(id: u32) -> (q: String)
    ensures
        q@ == "UPDATE nodes SET viewed = CURRENT_TIMESTAMP WHERE id = "@ + dec_digits(id as nat),
{
    let mut q = "UPDATE nodes SET viewed = CURRENT_TIMESTAMP WHERE id = ".to_owned();
    q.append(u32_string(id).as_str());
    q
}

/// Stamps one node viewed, sending exactly the statement that
/// `touch_viewed_sql` builds.  A backend failure is reported as an
/// `SQL` error; nothing else can fail.
pub fn touch_viewed(conn: &rusqlite::Connection, id: u32) -> (r: Result<(), DbError>)
    ensures
        r is Err ==> r matches Err(DbError::SQL(_)),
{
    let q = touch_viewed_sql(id);
    let params: Vec<String> = Vec::new();
    match exec_sql(conn, q.as_str(), &params) {
        Ok(_) => Ok(()),
        Err(e) => Err(DbError::SQL(e)),
    }
}

} // verus!
