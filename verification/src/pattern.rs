//! The filter pattern language: a condition tree, its recursive-descent
//! parser, and the compiler that turns a tree into a parameterized
//! predicate for the storage backend.
//!
//! Grammar, loosest-binding first: `or` (infix `|`), `and` (infix `&`),
//! `not` (prefix `!`), atoms.  Parenthesized groups re-enter `or`.
//! Atom forms, in priority order: `[text]` and `t(text)` make a `Tag`
//! condition, `<text>` and `t/text/` a `TagMatch`, `c(text)` a
//! `ContentMatch`, and a double-quoted string or a bare run of
//! non-delimiter characters the default `Match`.  Whitespace between
//! tokens is insignificant.
use vstd::prelude::*;

use crate::util::seg_string;

verus! {

broadcast use vstd::std_specs::vec::axiom_vec_index_decreases;

/// Tree node: a payload plus any number of children.
pub struct Node<T> {
    pub children: Vec<Node<T>>,
    pub data: T,
}

impl<T> Node<T> {
    pub fn new(data: T) -> (n: Node<T>)
        ensures
            n.children@.len() == 0,
            n.data == data,
    {
        Node { children: Vec::new(), data }
    }

    /// Appends a fresh leaf holding `data`; returns its index.
    pub fn add_child(&mut self, data: T) -> (i: usize)
        ensures
            final(self).children@.len() == old(self).children@.len() + 1,
            forall|j: int|
                0 <= j < old(self).children@.len() ==> final(self).children@[j]
                    == old(self).children@[j],
            final(self).children@[old(self).children@.len() as int].data == data,
            final(self).children@[old(self).children@.len() as int].children@.len() == 0,
            final(self).data == old(self).data,
            i == old(self).children@.len(),
    {
        self.children.push(Node::new(data));
        self.children.len() - 1
    }
}

/// The payload of one condition node.  `Not` expects exactly one child,
/// `And` and `Or` two or more (a single-element conjunction collapses to
/// the element itself while parsing); the other variants are leaves.
pub enum CondNodeType {
    Not,
    And,
    Or,
    Match(String),
    ContentMatch(String),
    Tag(String),
    TagMatch(String),
}

pub type CondNode = Node<CondNodeType>;

/// Mathematical model of a condition tree.
pub enum CondView {
    Not(Box<CondView>),
    And(Seq<CondView>),
    Or(Seq<CondView>),
    Match(Seq<char>),
    ContentMatch(Seq<char>),
    Tag(Seq<char>),
    TagMatch(Seq<char>),
}

/// The model of a `CondNode`: child vectors become child sequences and
/// the payload strings become character sequences.  Nodes whose child
/// count does not fit the payload (a `Not` without a child, say) are
/// mapped to some default; the parser never builds such nodes.
pub open spec fn cond_view(n: CondNode) -> CondView
    decreases n,
{
    match n.data {
        CondNodeType::Not => CondView::Not(
            Box::new(
                if n.children.len() > 0 {
                    cond_view(n.children[0])
                } else {
                    CondView::Match(Seq::empty())
                },
            ),
        ),
        CondNodeType::And => CondView::And(child_views(n.children)),
        CondNodeType::Or => CondView::Or(child_views(n.children)),
        CondNodeType::Match(s) => CondView::Match(s@),
        CondNodeType::ContentMatch(s) => CondView::ContentMatch(s@),
        CondNodeType::Tag(s) => CondView::Tag(s@),
        CondNodeType::TagMatch(s) => CondView::TagMatch(s@),
    }
}

/// The models of a node's children, elementwise.
pub open spec fn child_views(ch: Vec<CondNode>) -> Seq<CondView>
    decreases ch,
{
    Seq::new(
        ch@.len(),
        |i: int|
            if 0 <= i < ch.len() {
                cond_view(ch[i])
            } else {
                CondView::Match(Seq::empty())
            },
    )
}

/// Whitespace that separates tokens.
pub open spec fn is_ws(c: char) -> bool {
    c == ' ' || c == '\t' || c == '\n' || c == '\r'
}

/// The characters that delimit the grammar's tokens; a bare run may not
/// contain them.
pub open spec fn is_delim(c: char) -> bool {
    c == '|' || c == '&' || c == '(' || c == ')' || c == '[' || c == ']' || c == '<' || c == '>'
}

/// A bare run stops at a delimiter or at whitespace.
pub open spec fn stops_bare(c: char) -> bool {
    is_delim(c) || is_ws(c)
}

/// Index of the first non-whitespace character at or after `i`.
pub open spec fn skip_ws(s: Seq<char>, i: int) -> int
    decreases s.len() - i,
{
    if 0 <= i < s.len() && is_ws(s[i]) {
        skip_ws(s, i + 1)
    } else {
        i
    }
}

/// Index of the first occurrence of `stop` at or after `i`, or the
/// length of `s` if there is none.
pub open spec fn scan_to(s: Seq<char>, i: int, stop: char) -> int
    decreases s.len() - i,
{
    if 0 <= i < s.len() {
        if s[i] == stop {
            i
        } else {
            scan_to(s, i + 1, stop)
        }
    } else {
        s.len() as int
    }
}

/// Index of the first character at or after `i` that ends a bare run.
pub open spec fn bare_end(s: Seq<char>, i: int) -> int
    decreases s.len() - i,
{
    if 0 <= i < s.len() && !stops_bare(s[i]) {
        bare_end(s, i + 1)
    } else {
        i
    }
}

/// Decreases measure for the mutually recursive parser rules: how much
/// input remains after position `i`.
pub open spec fn rem(s: Seq<char>, i: int) -> int {
    if i <= s.len() {
        s.len() - i
    } else {
        0
    }
}

/// One delimited atom form: an opening mark at `j` (already checked by
/// the caller), content up to `stop`, then `stop` itself.  Yields the
/// content and the position after the closing mark, with trailing
/// whitespace consumed; fails if the content is empty or unclosed.
pub open spec fn delimited_at(s: Seq<char>, j: int, stop: char) -> Option<(Seq<char>, int)> {
    let e = scan_to(s, j, stop);
    if e < s.len() && e > j {
        Some((s.subrange(j, e), skip_ws(s, e + 1)))
    } else {
        None
    }
}

/// Parses one atom at `i`.  Leading and trailing whitespace is consumed.
/// The alternatives are tried in priority order; an alternative that
/// does not apply or fails lets the later ones have a go, so `t(` with
/// no closing parenthesis still parses as the bare run `t`.
pub open spec fn atom_p(s: Seq<char>, i: int) -> Option<(CondView, int)> {
    let j = skip_ws(s, i);
    let tag_bracket = if j < s.len() && s[j] == '[' {
        match delimited_at(s, j + 1, ']') {
            Some((text, k)) => Some((CondView::Tag(text), k)),
            None => None,
        }
    } else {
        None
    };
    let tag_paren = if j + 1 < s.len() && s[j] == 't' && s[j + 1] == '(' {
        match delimited_at(s, j + 2, ')') {
            Some((text, k)) => Some((CondView::Tag(text), k)),
            None => None,
        }
    } else {
        None
    };
    let tagmatch_angle = if j < s.len() && s[j] == '<' {
        match delimited_at(s, j + 1, '>') {
            Some((text, k)) => Some((CondView::TagMatch(text), k)),
            None => None,
        }
    } else {
        None
    };
    let tagmatch_slash = if j + 1 < s.len() && s[j] == 't' && s[j + 1] == '/' {
        match delimited_at(s, j + 2, '/') {
            Some((text, k)) => Some((CondView::TagMatch(text), k)),
            None => None,
        }
    } else {
        None
    };
    let content_paren = if j + 1 < s.len() && s[j] == 'c' && s[j + 1] == '(' {
        match delimited_at(s, j + 2, ')') {
            Some((text, k)) => Some((CondView::ContentMatch(text), k)),
            None => None,
        }
    } else {
        None
    };
    let quoted = if j < s.len() && s[j] == '"' {
        match delimited_at(s, j + 1, '"') {
            Some((text, k)) => Some((CondView::Match(text), k)),
            None => None,
        }
    } else {
        None
    };
    let bare = {
        let e = bare_end(s, j);
        if e > j {
            Some((CondView::Match(s.subrange(j, e)), skip_ws(s, e)))
        } else {
            None
        }
    };
    if tag_bracket is Some {
        tag_bracket
    } else if tag_paren is Some {
        tag_paren
    } else if tagmatch_angle is Some {
        tagmatch_angle
    } else if tagmatch_slash is Some {
        tagmatch_slash
    } else if content_paren is Some {
        content_paren
    } else if quoted is Some {
        quoted
    } else {
        bare
    }
}

/// Parses a primary expression at `i`: a parenthesized group or an atom.
pub open spec fn expr_p(s: Seq<char>, i: int) -> Option<(CondView, int)>
    decreases rem(s, i), 1int,
{
    let j = skip_ws(s, i);
    if i <= j && j < s.len() && s[j] == '(' {
        match or_p(s, j + 1) {
            Some((c, k)) => {
                let m = skip_ws(s, k);
                if m < s.len() && s[m] == ')' {
                    Some((c, skip_ws(s, m + 1)))
                } else {
                    None
                }
            },
            None => None,
        }
    } else {
        atom_p(s, i)
    }
}

/// Parses a possibly negated primary expression at `i`.
pub open spec fn not_p(s: Seq<char>, i: int) -> Option<(CondView, int)>
    decreases rem(s, i), 2int,
{
    let j = skip_ws(s, i);
    if i <= j && j < s.len() && s[j] == '!' {
        match expr_p(s, j + 1) {
            Some((c, k)) => Some((CondView::Not(Box::new(c)), k)),
            None => None,
        }
    } else {
        expr_p(s, i)
    }
}

/// Parses the `('&' not)*` continuation of a conjunction starting at
/// `i`.  A `&` whose right operand fails to parse is left unconsumed.
/// Cannot fail: the continuation may be empty.
pub open spec fn and_rest(s: Seq<char>, i: int) -> (Seq<CondView>, int)
    decreases rem(s, i), 4int,
{
    if 0 <= i < s.len() && s[i] == '&' {
        match not_p(s, i + 1) {
            Some((c, k)) => if i < k <= s.len() {
                let (rest, k2) = and_rest(s, k);
                (seq![c] + rest, k2)
            } else {
                (seq![c], k)
            },
            None => (Seq::empty(), i),
        }
    } else {
        (Seq::empty(), i)
    }
}

/// Parses a conjunction (one or more `not` terms joined by `&`) at `i`.
/// A single term stays as it is; two or more become an `And`.
pub open spec fn and_p(s: Seq<char>, i: int) -> Option<(CondView, int)>
    decreases rem(s, i), 3int,
{
    match not_p(s, i) {
        Some((c, k)) => {
            let (rest, k2) = if i < k <= s.len() {
                and_rest(s, k)
            } else {
                (Seq::empty(), k)
            };
            if rest.len() == 0 {
                Some((c, k))
            } else {
                Some((CondView::And(seq![c] + rest), k2))
            }
        },
        None => None,
    }
}

/// Parses the `('|' and)*` continuation of a disjunction starting at
/// `i`, like `and_rest`.
pub open spec fn or_rest(s: Seq<char>, i: int) -> (Seq<CondView>, int)
    decreases rem(s, i), 6int,
{
    if 0 <= i < s.len() && s[i] == '|' {
        match and_p(s, i + 1) {
            Some((c, k)) => if i < k <= s.len() {
                let (rest, k2) = or_rest(s, k);
                (seq![c] + rest, k2)
            } else {
                (seq![c], k)
            },
            None => (Seq::empty(), i),
        }
    } else {
        (Seq::empty(), i)
    }
}

/// Parses a disjunction (one or more conjunctions joined by `|`) at `i`:
/// the grammar's top rule.
pub open spec fn or_p(s: Seq<char>, i: int) -> Option<(CondView, int)>
    decreases rem(s, i), 5int,
{
    match and_p(s, i) {
        Some((c, k)) => {
            let (rest, k2) = if i < k <= s.len() {
                or_rest(s, k)
            } else {
                (Seq::empty(), k)
            };
            if rest.len() == 0 {
                Some((c, k))
            } else {
                Some((CondView::Or(seq![c] + rest), k2))
            }
        },
        None => None,
    }
}

/// What parsing a whole pattern yields: the condition, or a syntax
/// error.  `Trailing(c)` reports the first unconsumed character after a
/// successful prefix parse; `Malformed` means no prefix parsed at all.
pub enum ParseOutcome {
    Parsed(CondView),
    Trailing(char),
    Malformed,
}

/// The meaning of `parse_condition`: parse a full disjunction from the
/// start and demand that every character is consumed.
pub open spec fn parse_cond(s: Seq<char>) -> ParseOutcome {
    match or_p(s, 0) {
        Some((c, k)) => if k < s.len() {
            ParseOutcome::Trailing(s[k])
        } else {
            ParseOutcome::Parsed(c)
        },
        None => ParseOutcome::Malformed,
    }
}

fn is_ws_x(c: char) -> (b: bool)
    ensures
        b == is_ws(c),
{
    c == ' ' || c == '\t' || c == '\n' || c == '\r'
}

fn stops_bare_x(c: char) -> (b: bool)
    ensures
        b == stops_bare(c),
{
    c == '|' || c == '&' || c == '(' || c == ')' || c == '[' || c == ']' || c == '<' || c == '>'
        || c == ' ' || c == '\t' || c == '\n' || c == '\r'
}

fn skip_ws_x(s: &Vec<char>, i: usize) -> (r: usize)
    requires
        i <= s@.len(),
    ensures
        r as int == skip_ws(s@, i as int),
        i <= r <= s@.len(),
{
    let mut j: usize = i;
    while j < s.len() && is_ws_x(s[j])
        invariant
            i <= j <= s@.len(),
            skip_ws(s@, i as int) == skip_ws(s@, j as int),
        decreases s@.len() - j,
    {
        j = j + 1;
    }
    j
}

fn bare_end_x(s: &Vec<char>, i: usize) -> (r: usize)
    requires
        i <= s@.len(),
    ensures
        r as int == bare_end(s@, i as int),
        i <= r <= s@.len(),
{
    let mut j: usize = i;
    while j < s.len() && !stops_bare_x(s[j])
        invariant
            i <= j <= s@.len(),
            bare_end(s@, i as int) == bare_end(s@, j as int),
        decreases s@.len() - j,
    {
        j = j + 1;
    }
    j
}

/// Parses `content stop` starting right after an opening mark at
/// `j - 1`, per `delimited_at`.
fn delim_x(s: &Vec<char>, j: usize, stop: char) -> (r: Option<(String, usize)>)
    requires
        j <= s@.len(),
    ensures
        r is None <==> delimited_at(s@, j as int, stop) is None,
        r matches Some((t, k)) ==> delimited_at(s@, j as int, stop) == Some((t@, k as int)) && j < k
            <= s@.len(),
{
    let mut e: usize = j;
    while e < s.len() && s[e] != stop
        invariant
            j <= e <= s@.len(),
            scan_to(s@, j as int, stop) == scan_to(s@, e as int, stop),
        decreases s@.len() - e,
    {
        e = e + 1;
    }
    if e < s.len() && e > j {
        let t = seg_string(s, j, e);
        let k = skip_ws_x(s, e + 1);
        Some((t, k))
    } else {
        None
    }
}

/// Parses one atom, mirroring `atom_p`.
fn atom_x(s: &Vec<char>, i: usize) -> (r: Option<(CondNode, usize)>)
    requires
        i <= s@.len(),
    ensures
        r is None <==> atom_p(s@, i as int) is None,
        r matches Some((c, k)) ==> atom_p(s@, i as int) == Some((cond_view(c), k as int)) && i < k
            <= s@.len() && wf_node(c),
{
    let j = skip_ws_x(s, i);
    if j < s.len() && s[j] == '[' {
        match delim_x(s, j + 1, ']') {
            Some((t, k)) => Some((Node::new(CondNodeType::Tag(t)), k)),
            None => None,
        }
    } else if j < s.len() && s[j] == '<' {
        match delim_x(s, j + 1, '>') {
            Some((t, k)) => Some((Node::new(CondNodeType::TagMatch(t)), k)),
            None => None,
        }
    } else {
        let special: Option<(CondNode, usize)> = if j < s.len() && s[j] == 't' && j + 1 < s.len() && s[j + 1] == '(' {
            match delim_x(s, j + 2, ')') {
                Some((t, k)) => Some((Node::new(CondNodeType::Tag(t)), k)),
                None => None,
            }
        } else if j < s.len() && s[j] == 't' && j + 1 < s.len() && s[j + 1] == '/' {
            match delim_x(s, j + 2, '/') {
                Some((t, k)) => Some((Node::new(CondNodeType::TagMatch(t)), k)),
                None => None,
            }
        } else if j < s.len() && s[j] == 'c' && j + 1 < s.len() && s[j + 1] == '(' {
            match delim_x(s, j + 2, ')') {
                Some((t, k)) => Some((Node::new(CondNodeType::ContentMatch(t)), k)),
                None => None,
            }
        } else if j < s.len() && s[j] == '"' {
            match delim_x(s, j + 1, '"') {
                Some((t, k)) => Some((Node::new(CondNodeType::Match(t)), k)),
                None => None,
            }
        } else {
            None
        };
        match special {
            Some(x) => Some(x),
            None => {
                let e = bare_end_x(s, j);
                if e > j {
                    let t = seg_string(s, j, e);
                    let k = skip_ws_x(s, e);
                    Some((Node::new(CondNodeType::Match(t)), k))
                } else {
                    None
                }
            },
        }
    }
}

/// Parses a primary expression, mirroring `expr_p`.
fn expr_x(s: &Vec<char>, i: usize) -> (r: Option<(CondNode, usize)>)
    requires
        i <= s@.len(),
    ensures
        r is None <==> expr_p(s@, i as int) is None,
        r matches Some((c, k)) ==> expr_p(s@, i as int) == Some((cond_view(c), k as int)) && i < k
            <= s@.len() && wf_node(c),
    decreases rem(s@, i as int), 1int,
{
    let j = skip_ws_x(s, i);
    if j < s.len() && s[j] == '(' {
        match or_x(s, j + 1) {
            Some((c, k)) => {
                let m = skip_ws_x(s, k);
                if m < s.len() && s[m] == ')' {
                    let k2 = skip_ws_x(s, m + 1);
                    Some((c, k2))
                } else {
                    None
                }
            },
            None => None,
        }
    } else {
        atom_x(s, i)
    }
}

/// Parses a possibly negated primary expression, mirroring `not_p`.
fn not_x(s: &Vec<char>, i: usize) -> (r: Option<(CondNode, usize)>)
    requires
        i <= s@.len(),
    ensures
        r is None <==> not_p(s@, i as int) is None,
        r matches Some((c, k)) ==> not_p(s@, i as int) == Some((cond_view(c), k as int)) && i < k
            <= s@.len() && wf_node(c),
    decreases rem(s@, i as int), 2int,
{
    let j = skip_ws_x(s, i);
    if j < s.len() && s[j] == '!' {
        match expr_x(s, j + 1) {
            Some((c, k)) => {
                let mut ch: Vec<CondNode> = Vec::new();
                ch.push(c);
                let n = Node { children: ch, data: CondNodeType::Not };
                proof {
                    assert(forall|q: int| 0 <= q < n.children.len() ==> wf_node(
                        #[trigger] n.children[q],
                    ));
                }
                Some((n, k))
            },
            None => None,
        }
    } else {
        expr_x(s, i)
    }
}

/// Parses the `('&' not)*` continuation, mirroring `and_rest`.
fn and_rest_x(s: &Vec<char>, i: usize) -> (r: (Vec<CondNode>, usize))
    requires
        i <= s@.len(),
    ensures
        ({
            let (l, k) = and_rest(s@, i as int);
            &&& r.0@.len() == l.len()
            &&& forall|q: int|
                0 <= q < l.len() ==> cond_view(#[trigger] r.0@[q]) == l[q] && wf_node(r.0@[q])
            &&& r.1 as int == k
            &&& i <= r.1 <= s@.len()
        }),
    decreases rem(s@, i as int), 4int,
{
    if i < s.len() && s[i] == '&' {
        match not_x(s, i + 1) {
            Some((c, k)) => {
                let (rest, k2) = and_rest_x(s, k);
                let mut out: Vec<CondNode> = Vec::new();
                out.push(c);
                let mut tail = rest;
                out.append(&mut tail);
                (out, k2)
            },
            None => (Vec::new(), i),
        }
    } else {
        (Vec::new(), i)
    }
}

/// Parses a conjunction, mirroring `and_p`.
fn and_x(s: &Vec<char>, i: usize) -> (r: Option<(CondNode, usize)>)
    requires
        i <= s@.len(),
    ensures
        r is None <==> and_p(s@, i as int) is None,
        r matches Some((c, k)) ==> and_p(s@, i as int) == Some((cond_view(c), k as int)) && i < k
            <= s@.len() && wf_node(c),
    decreases rem(s@, i as int), 3int,
{
    match not_x(s, i) {
        None => None,
        Some((c, k)) => {
            let (rest, k2) = and_rest_x(s, k);
            if rest.len() == 0 {
                Some((c, k))
            } else {
                let mut ch: Vec<CondNode> = Vec::new();
                ch.push(c);
                let mut tail = rest;
                ch.append(&mut tail);
                let ghost l = and_rest(s@, k as int).0;
                proof {
                    assert forall|q: int| 0 <= q < ch@.len() implies child_views(ch)[q] == (
                    seq![cond_view(c)] + l)[q] by {
                        if q > 0 {
                            assert(ch@[q] == rest@[q - 1]);
                        }
                    }
                    assert(child_views(ch) =~= seq![cond_view(c)] + l);
                    assert(forall|q: int| 0 <= q < ch.len() ==> wf_node(#[trigger] ch[q]));
                }
                Some((Node { children: ch, data: CondNodeType::And }, k2))
            }
        },
    }
}

/// Parses the `('|' and)*` continuation, mirroring `or_rest`.
fn or_rest_x(s: &Vec<char>, i: usize) -> (r: (Vec<CondNode>, usize))
    requires
        i <= s@.len(),
    ensures
        ({
            let (l, k) = or_rest(s@, i as int);
            &&& r.0@.len() == l.len()
            &&& forall|q: int|
                0 <= q < l.len() ==> cond_view(#[trigger] r.0@[q]) == l[q] && wf_node(r.0@[q])
            &&& r.1 as int == k
            &&& i <= r.1 <= s@.len()
        }),
    decreases rem(s@, i as int), 6int,
{
    if i < s.len() && s[i] == '|' {
        match and_x(s, i + 1) {
            Some((c, k)) => {
                let (rest, k2) = or_rest_x(s, k);
                let mut out: Vec<CondNode> = Vec::new();
                out.push(c);
                let mut tail = rest;
                out.append(&mut tail);
                (out, k2)
            },
            None => (Vec::new(), i),
        }
    } else {
        (Vec::new(), i)
    }
}

/// Parses a disjunction, mirroring `or_p`.
fn or_x(s: &Vec<char>, i: usize) -> (r: Option<(CondNode, usize)>)
    requires
        i <= s@.len(),
    ensures
        r is None <==> or_p(s@, i as int) is None,
        r matches Some((c, k)) ==> or_p(s@, i as int) == Some((cond_view(c), k as int)) && i < k
            <= s@.len() && wf_node(c),
    decreases rem(s@, i as int), 5int,
{
    match and_x(s, i) {
        None => None,
        Some((c, k)) => {
            let (rest, k2) = or_rest_x(s, k);
            if rest.len() == 0 {
                Some((c, k))
            } else {
                let mut ch: Vec<CondNode> = Vec::new();
                ch.push(c);
                let mut tail = rest;
                ch.append(&mut tail);
                let ghost l = or_rest(s@, k as int).0;
                proof {
                    assert forall|q: int| 0 <= q < ch@.len() implies child_views(ch)[q] == (
                    seq![cond_view(c)] + l)[q] by {
                        if q > 0 {
                            assert(ch@[q] == rest@[q - 1]);
                        }
                    }
                    assert(child_views(ch) =~= seq![cond_view(c)] + l);
                    assert(forall|q: int| 0 <= q < ch.len() ==> wf_node(#[trigger] ch[q]));
                }
                Some((Node { children: ch, data: CondNodeType::Or }, k2))
            }
        },
    }
}

/// Parses a whole pattern: the parse must consume every character.
/// On failure the error says whether nothing parsed or where the
/// leftover input begins.
pub fn parse_condition(spattern: &str) -> (r: Result<CondNode, String>)
    ensures
        match parse_cond(spattern@) {
            ParseOutcome::Parsed(c) => r matches Ok(n) && cond_view(n) == c && wf_node(n)
                && not_has_child(n),
            ParseOutcome::Trailing(ch) => r matches Err(e) && e@ == "Unexpected character "@
                + seq![ch],
            ParseOutcome::Malformed => r matches Err(e) && e@ == "Invalid pattern"@,
        },
{
    let cs = crate::util::str_chars(spattern);
    match or_x(&cs, 0) {
        None => Err("Invalid pattern".to_owned()),
        Some((c, k)) => {
            if k < cs.len() {
                let mut v = crate::util::str_chars("Unexpected character ");
                v.push(cs[k]);
                proof {
                    assert(v@ =~= "Unexpected character "@ + seq![spattern@[k as int]]);
                }
                Err(crate::util::chars_to_string(&v))
            } else {
                proof {
                    lemma_wf_node_not_has_child(c);
                }
                Ok(c)
            }
        },
    }
}


/// Whether the given condition is a single atom whose text can be
/// written back in the atom's source form: nonempty, and free of the
/// closing delimiter of that form.
pub open spec fn atom_renderable(c: CondView) -> bool {
    match c {
        CondView::Match(t) => t.len() > 0 && (forall|i: int| 0 <= i < t.len() ==> t[i] != '"'),
        CondView::Tag(t) => t.len() > 0 && (forall|i: int| 0 <= i < t.len() ==> t[i] != ']'),
        CondView::TagMatch(t) => t.len() > 0 && (forall|i: int| 0 <= i < t.len() ==> t[i] != '>'),
        CondView::ContentMatch(t) => t.len() > 0 && (forall|i: int|
            0 <= i < t.len() ==> t[i] != ')'),
        _ => false,
    }
}

/// The source form of a single atom condition: a quoted string for a
/// plain match, and the bracketed forms for the tag, tag-match and
/// content-match conditions.
pub open spec fn render_atom(c: CondView) -> Seq<char> {
    match c {
        CondView::Match(t) => seq!['"'] + t + seq!['"'],
        CondView::Tag(t) => seq!['['] + t + seq![']'],
        CondView::TagMatch(t) => seq!['<'] + t + seq!['>'],
        CondView::ContentMatch(t) => seq!['c', '('] + t + seq![')'],
        _ => Seq::empty(),
    }
}

/// The source form of a condition at one precedence level of the
/// grammar: level 0 is a primary expression, 1 a possibly negated one,
/// 2 a conjunction, 3 a disjunction.  A condition whose own level
/// binds looser than the level asked for is parenthesized; the written
/// text contains no whitespace.
pub open spec fn render_at(level: int, c: CondView) -> Seq<char>
    decreases c, render_rank(c, level),
{
    if level == 3 {
        match c {
            CondView::Or(cs) => if cs.len() > 0 {
                render_at(2, cs[0]) + join_bar(cs.drop_first())
            } else {
                Seq::empty()
            },
            _ => render_at(2, c),
        }
    } else if level == 2 {
        match c {
            CondView::And(cs) => if cs.len() > 0 {
                render_at(1, cs[0]) + join_amp(cs.drop_first())
            } else {
                Seq::empty()
            },
            _ => render_at(1, c),
        }
    } else if level == 1 {
        match c {
            CondView::Not(b) => seq!['!'] + render_at(0, *b),
            _ => render_at(0, c),
        }
    } else {
        match c {
            CondView::Not(_) => seq!['('] + render_at(3, c) + seq![')'],
            CondView::And(_) => seq!['('] + render_at(3, c) + seq![')'],
            CondView::Or(_) => seq!['('] + render_at(3, c) + seq![')'],
            _ => render_atom(c),
        }
    }
}

/// The `'&' term` continuations of a written conjunction.
pub open spec fn join_amp(cs: Seq<CondView>) -> Seq<char>
    decreases cs, 0int,
{
    if cs.len() == 0 {
        Seq::empty()
    } else {
        seq!['&'] + render_at(1, cs[0]) + join_amp(cs.subrange(1, cs.len() as int))
    }
}

/// The `'|' term` continuations of a written disjunction.
pub open spec fn join_bar(cs: Seq<CondView>) -> Seq<char>
    decreases cs, 0int,
{
    if cs.len() == 0 {
        Seq::empty()
    } else {
        seq!['|'] + render_at(2, cs[0]) + join_bar(cs.subrange(1, cs.len() as int))
    }
}

/// Orders the four levels per condition shape so that every
/// same-condition reduction between them descends: each shape's own
/// level comes first, and the written fall-throughs follow.
pub open spec fn render_rank(c: CondView, level: int) -> int {
    match c {
        CondView::Not(_) => if level == 1 {
            0
        } else if level == 2 {
            1
        } else if level == 3 {
            2
        } else {
            3
        },
        CondView::And(_) => if level == 2 {
            0
        } else if level == 3 {
            1
        } else if level == 0 {
            2
        } else {
            3
        },
        CondView::Or(_) => if level == 3 {
            0
        } else if level == 0 {
            1
        } else if level == 1 {
            2
        } else {
            3
        },
        _ => if level == 0 {
            0
        } else {
            level
        },
    }
}

/// Whether the condition can be written back as text: composite nodes
/// have enough children and every leaf text fits its atom form.
pub open spec fn renderable(c: CondView) -> bool
    decreases c,
{
    match c {
        CondView::Not(b) => renderable(*b),
        CondView::And(cs) => cs.len() >= 2 && (forall|k: int|
            0 <= k < cs.len() ==> renderable(#[trigger] cs[k])),
        CondView::Or(cs) => cs.len() >= 2 && (forall|k: int|
            0 <= k < cs.len() ==> renderable(#[trigger] cs[k])),
        _ => atom_renderable(c),
    }
}

/// The source form of a whole condition.
pub open spec fn render_cond(c: CondView) -> Seq<char> {
    render_at(3, c)
}

/// Every written condition holds at least one character.
proof fn lemma_render_positive(c: CondView, level: int)
    requires
        renderable(c),
        0 <= level <= 3,
    ensures
        render_at(level, c).len() >= 1,
    decreases c, render_rank(c, level),
{
    if level == 3 {
        if c is Or {
            lemma_render_positive(c->Or_0[0], 2);
        } else {
            lemma_render_positive(c, 2);
        }
    } else if level == 2 {
        if c is And {
            lemma_render_positive(c->And_0[0], 1);
        } else {
            lemma_render_positive(c, 1);
        }
    } else if level == 1 {
        if !(c is Not) {
            lemma_render_positive(c, 0);
        }
    }
}

/// After a written condition the text either ends or goes on with a
/// token that stops parsing at primary level.
pub open spec fn stop_na(s: Seq<char>, j: int) -> bool {
    j == s.len() || s[j] == '&' || s[j] == '|' || s[j] == ')'
}

/// ... that stops a conjunction.
pub open spec fn stop_a(s: Seq<char>, j: int) -> bool {
    j == s.len() || s[j] == '|' || s[j] == ')'
}

/// ... that stops a disjunction.
pub open spec fn stop_o(s: Seq<char>, j: int) -> bool {
    j == s.len() || s[j] == ')'
}

/// What the parser rule of each level yields.
pub open spec fn parse_at(level: int, s: Seq<char>, i: int) -> Option<(CondView, int)> {
    if level == 3 {
        or_p(s, i)
    } else if level == 2 {
        and_p(s, i)
    } else if level == 1 {
        not_p(s, i)
    } else {
        expr_p(s, i)
    }
}

/// The boundary tokens of each level; a looser level stops at fewer.
pub open spec fn stop_at(level: int, s: Seq<char>, j: int) -> bool {
    if level == 3 {
        stop_o(s, j)
    } else if level == 2 {
        stop_a(s, j)
    } else {
        stop_na(s, j)
    }
}

/// The exact characters of a written atom: the opening mark, the
/// text, the closing mark.
proof fn proof_atom_shape(c: CondView)
    requires
        atom_renderable(c),
    ensures
        (c matches CondView::Match(t) ==> render_atom(c).len() == t.len() + 2 && render_atom(c)[0]
            == '"' && render_atom(c)[t.len() as int + 1] == '"' && (forall|q: int|
            0 <= q < t.len() ==> render_atom(c)[q + 1] == t[q])),
        (c matches CondView::Tag(t) ==> render_atom(c).len() == t.len() + 2 && render_atom(c)[0]
            == '[' && render_atom(c)[t.len() as int + 1] == ']' && (forall|q: int|
            0 <= q < t.len() ==> render_atom(c)[q + 1] == t[q])),
        (c matches CondView::TagMatch(t) ==> render_atom(c).len() == t.len() + 2 && render_atom(
            c,
        )[0] == '<' && render_atom(c)[t.len() as int + 1] == '>' && (forall|q: int|
            0 <= q < t.len() ==> render_atom(c)[q + 1] == t[q])),
        (c matches CondView::ContentMatch(t) ==> render_atom(c).len() == t.len() + 3
            && render_atom(c)[0] == 'c' && render_atom(c)[1] == '(' && render_atom(c)[t.len() as int + 2]
            == ')' && (forall|q: int| 0 <= q < t.len() ==> render_atom(c)[q + 2] == t[q])),
{
}

/// A written atom, standing in a larger text right before a stopping
/// token, parses back to exactly that atom.
proof fn lemma_atom_parses(c: CondView, s: Seq<char>, i: int, j: int)
    requires
        atom_renderable(c),
        0 <= i <= j <= s.len(),
        s.subrange(i, j) == render_atom(c),
        stop_na(s, j),
    ensures
        atom_p(s, i) == Some((c, j)),
{
    let seg = render_atom(c);
    assert(s.subrange(i, j).len() == j - i);
    assert(j - i == seg.len());
    assert forall|q: int| 0 <= q < seg.len() implies s[i + q] == seg[q] by {
        assert(s.subrange(i, j)[q] == s[i + q]);
    }
    let text = (match c {
        CondView::Match(t) => t,
        CondView::Tag(t) => t,
        CondView::TagMatch(t) => t,
        CondView::ContentMatch(t) => t,
        _ => Seq::<char>::empty(),
    });
    let open_len: int = if c is ContentMatch {
        2
    } else {
        1
    };
    let e = i + open_len + text.len();
    proof_atom_shape(c);
    assert(j == e + 1);
    let stop = (match c {
        CondView::Match(_) => '"',
        CondView::Tag(_) => ']',
        CondView::TagMatch(_) => '>',
        _ => ')',
    });
    assert forall|q: int| i + open_len <= q < e implies s[q] != stop by {
        assert(s[q] == seg[q - i]);
        assert(seg[q - i] == text[q - i - open_len]);
    }
    assert(s[e] == seg[e - i]);
    assert(s[e] == stop);
    crate::util::lemma_scan_to_at(s, i + open_len, e, stop);
    assert(s.subrange(i + open_len, e) =~= text);
    assert(skip_ws(s, e + 1) == j);
    assert(delimited_at(s, i + open_len, stop) == Some((text, j)));
    assert(skip_ws(s, i) == i);
    match c {
        CondView::Tag(_) => {
            assert(s[i] == '[');
            assert(atom_p(s, i) == Some((c, j)));
        },
        CondView::TagMatch(_) => {
            assert(s[i] == '<');
            assert(atom_p(s, i) == Some((c, j)));
        },
        CondView::Match(_) => {
            assert(s[i] == '"');
            assert(atom_p(s, i) == Some((c, j)));
        },
        CondView::ContentMatch(_) => {
            assert(s[i] == 'c' && s[i + 1] == '(');
            assert(atom_p(s, i) == Some((c, j)));
        },
        _ => {
            assert(false);
        },
    }
}

/// A written condition, standing in a larger text right before a
/// stopping token of its level, parses back to exactly that condition,
/// consuming exactly its own text.
#[verifier::rlimit(100)]
proof fn lemma_render_parses(c: CondView, level: int, s: Seq<char>, i: int, j: int)
    requires
        renderable(c),
        0 <= level <= 3,
        0 <= i <= j <= s.len(),
        s.subrange(i, j) == render_at(level, c),
        stop_at(level, s, j),
    ensures
        parse_at(level, s, i) == Some((c, j)),
    decreases c, render_rank(c, level),
{
    let seg = render_at(level, c);
    lemma_render_positive(c, level);
    assert(s.subrange(i, j).len() == j - i);
    assert(j - i == seg.len());
    assert forall|q: int| 0 <= q < seg.len() implies s[i + q] == seg[q] by {
        assert(s.subrange(i, j)[q] == s[i + q]);
    }
    if level == 3 {
        if c is Or {
            let cs = c->Or_0;
            assert(renderable(cs[0]));
            let head = render_at(2, cs[0]);
            let tail = join_bar(cs.drop_first());
            assert(seg == head + tail);
            lemma_render_positive(cs[0], 2);
            let i1 = i + head.len();
            assert(i1 <= j);
            assert forall|q: int| 0 <= q < head.len() implies s.subrange(i, i1)[q] == head[q] by {
                assert(s.subrange(i, i1)[q] == s[i + q]);
                assert(seg[q] == head[q]);
            }
            assert(s.subrange(i, i1) =~= head);
            assert(cs.drop_first().len() > 0);
            assert(tail.len() > 0) by {
                assert(tail == seq!['|'] + render_at(2, cs.drop_first()[0]) + join_bar(
                    cs.drop_first().subrange(1, cs.drop_first().len() as int),
                ));
            }
            assert(tail[0] == '|');
            assert(seg[i1 - i] == tail[i1 - i - head.len()]);
            assert(s[i1] == '|');
            assert(stop_at(2, s, i1));
            lemma_render_parses(cs[0], 2, s, i, i1);
            assert forall|q: int| 0 <= q < tail.len() implies s.subrange(i1, j)[q] == tail[q] by {
                assert(s.subrange(i1, j)[q] == s[i1 + q]);
                assert(seg[q + head.len()] == tail[q]);
            }
            assert(s.subrange(i1, j) =~= tail);
            assert(forall|k: int|
                0 <= k < cs.drop_first().len() ==> renderable(#[trigger] cs.drop_first()[k]));
            lemma_join_bar_parses(cs.drop_first(), s, i1, j);
            assert(or_p(s, i) == Some((CondView::Or(seq![cs[0]] + cs.drop_first()), j)));
            assert(seq![cs[0]] + cs.drop_first() =~= cs);
        } else {
            assert(seg == render_at(2, c));
            assert(stop_at(2, s, j)) by {
                assert(stop_o(s, j));
            }
            lemma_render_parses(c, 2, s, i, j);
            assert(or_rest(s, j) == (Seq::<CondView>::empty(), j)) by {
                assert(stop_o(s, j));
            }
            assert(or_p(s, i) == Some((c, j)));
        }
    } else if level == 2 {
        if c is And {
            let cs = c->And_0;
            assert(renderable(cs[0]));
            let head = render_at(1, cs[0]);
            let tail = join_amp(cs.drop_first());
            assert(seg == head + tail);
            lemma_render_positive(cs[0], 1);
            let i1 = i + head.len();
            assert(i1 <= j);
            assert forall|q: int| 0 <= q < head.len() implies s.subrange(i, i1)[q] == head[q] by {
                assert(s.subrange(i, i1)[q] == s[i + q]);
                assert(seg[q] == head[q]);
            }
            assert(s.subrange(i, i1) =~= head);
            assert(cs.drop_first().len() > 0);
            assert(tail.len() > 0) by {
                assert(tail == seq!['&'] + render_at(1, cs.drop_first()[0]) + join_amp(
                    cs.drop_first().subrange(1, cs.drop_first().len() as int),
                ));
            }
            assert(tail[0] == '&');
            assert(seg[i1 - i] == tail[i1 - i - head.len()]);
            assert(s[i1] == '&');
            assert(stop_at(1, s, i1)) by {
                assert(stop_na(s, i1));
            }
            lemma_render_parses(cs[0], 1, s, i, i1);
            assert forall|q: int| 0 <= q < tail.len() implies s.subrange(i1, j)[q] == tail[q] by {
                assert(s.subrange(i1, j)[q] == s[i1 + q]);
                assert(seg[q + head.len()] == tail[q]);
            }
            assert(s.subrange(i1, j) =~= tail);
            assert(forall|k: int|
                0 <= k < cs.drop_first().len() ==> renderable(#[trigger] cs.drop_first()[k]));
            lemma_join_amp_parses(cs.drop_first(), s, i1, j);
            assert(and_p(s, i) == Some((CondView::And(seq![cs[0]] + cs.drop_first()), j)));
            assert(seq![cs[0]] + cs.drop_first() =~= cs);
        } else {
            assert(seg == render_at(1, c));
            assert(stop_at(1, s, j)) by {
                assert(stop_a(s, j));
            }
            lemma_render_parses(c, 1, s, i, j);
            assert(and_rest(s, j) == (Seq::<CondView>::empty(), j)) by {
                assert(stop_a(s, j));
            }
            assert(and_p(s, i) == Some((c, j)));
        }
    } else if level == 1 {
        if c is Not {
            let b = *c->Not_0;
            assert(seg == seq!['!'] + render_at(0, b));
            assert(seg[0] == '!');
            assert(s[i] == '!');
            assert(skip_ws(s, i) == i);
            assert forall|q: int|
                0 <= q < render_at(0, b).len() implies s.subrange(i + 1, j)[q] == render_at(
                0,
                b,
            )[q] by {
                assert(s.subrange(i + 1, j)[q] == s[i + 1 + q]);
                assert(seg[q + 1] == render_at(0, b)[q]);
            }
            assert(s.subrange(i + 1, j) =~= render_at(0, b));
            lemma_render_parses(b, 0, s, i + 1, j);
            assert(not_p(s, i) == Some((CondView::Not(Box::new(b)), j)));
        } else {
            assert(seg == render_at(0, c));
            assert(s[i] == seg[0]);
            assert(seg[0] != '!' && !is_ws(seg[0])) by {
                lemma_render_head(c);
            }
            assert(skip_ws(s, i) == i);
            lemma_render_parses(c, 0, s, i, j);
            assert(not_p(s, i) == expr_p(s, i));
        }
    } else {
        match c {
            CondView::Not(_) | CondView::And(_) | CondView::Or(_) => {
                let inner = render_at(3, c);
                assert(seg == seq!['('] + inner + seq![')']);
                assert(seg[0] == '(');
                assert(s[i] == '(');
                assert(seg.len() == inner.len() + 2);
                assert(seg[j - 1 - i] == ')');
                assert(s[j - 1] == seg[j - 1 - i]);
                assert(skip_ws(s, i) == i);
                assert forall|q: int|
                    0 <= q < inner.len() implies s.subrange(i + 1, j - 1)[q] == inner[q] by {
                    assert(s.subrange(i + 1, j - 1)[q] == s[i + 1 + q]);
                    assert(seg[q + 1] == inner[q]);
                }
                assert(s.subrange(i + 1, j - 1) =~= inner);
                assert(stop_o(s, j - 1));
                lemma_render_parses(c, 3, s, i + 1, j - 1);
                assert(skip_ws(s, j - 1) == j - 1);
                assert(skip_ws(s, j) == j);
                assert(expr_p(s, i) == Some((c, j)));
            },
            _ => {
                lemma_atom_parses(c, s, i, j);
                assert(s[i] == seg[0]);
                assert(seg[0] != '(') by {
                    lemma_render_head(c);
                }
                assert(expr_p(s, i) == atom_p(s, i));
            },
        }
    }
}

/// The first character of a written primary expression: an opening
/// parenthesis for a composite condition, the atom's opening mark for
/// a leaf.  Never whitespace and never an operator.
proof fn lemma_render_head(c: CondView)
    requires
        renderable(c),
    ensures
        render_at(0, c).len() >= 1,
        render_at(0, c)[0] == '(' || render_at(0, c)[0] == '"' || render_at(0, c)[0] == '['
            || render_at(0, c)[0] == '<' || render_at(0, c)[0] == 'c',
        c is Not || c is And || c is Or <==> render_at(0, c)[0] == '(',
{
    lemma_render_positive(c, 0);
}

/// The `('&' term)*` continuation of a written conjunction parses to
/// exactly those terms.
proof fn lemma_join_amp_parses(cs: Seq<CondView>, s: Seq<char>, i: int, j: int)
    requires
        forall|k: int| 0 <= k < cs.len() ==> renderable(#[trigger] cs[k]),
        0 <= i <= j <= s.len(),
        s.subrange(i, j) == join_amp(cs),
        stop_a(s, j),
    ensures
        and_rest(s, i) == (cs, j),
    decreases cs, 1int,
{
    let seg = join_amp(cs);
    assert(s.subrange(i, j).len() == j - i);
    assert(j - i == seg.len());
    assert forall|q: int| 0 <= q < seg.len() implies s[i + q] == seg[q] by {
        assert(s.subrange(i, j)[q] == s[i + q]);
    }
    if cs.len() == 0 {
        assert(i == j);
        assert(and_rest(s, i) == (Seq::<CondView>::empty(), i));
    } else {
        assert(renderable(cs[0]));
        let head = render_at(1, cs[0]);
        let tail = join_amp(cs.drop_first());
        assert(cs.drop_first() =~= cs.subrange(1, cs.len() as int));
        assert(seg == seq!['&'] + head + tail);
        assert(seg[0] == '&');
        assert(s[i] == '&');
        lemma_render_positive(cs[0], 1);
        let i1 = i + 1 + head.len();
        assert(i1 <= j);
        assert forall|q: int| 0 <= q < head.len() implies s.subrange(i + 1, i1)[q] == head[q] by {
            assert(s.subrange(i + 1, i1)[q] == s[i + 1 + q]);
            assert(seg[q + 1] == head[q]);
        }
        assert(s.subrange(i + 1, i1) =~= head);
        assert(stop_na(s, i1)) by {
            if cs.len() > 1 {
                assert(tail == seq!['&'] + render_at(1, cs.drop_first()[0]) + join_amp(
                    cs.drop_first().subrange(1, cs.drop_first().len() as int),
                ));
                assert(tail[0] == '&');
                assert(s[i1] == seg[i1 - i]);
                assert(seg[i1 - i] == tail[i1 - i - 1 - head.len()]);
            } else {
                assert(cs.drop_first().len() == 0);
                assert(tail.len() == 0);
                assert(i1 == j);
            }
        }
        assert(stop_at(1, s, i1)) by {
            assert(stop_na(s, i1));
        }
        lemma_render_parses(cs[0], 1, s, i + 1, i1);
        assert forall|q: int| 0 <= q < tail.len() implies s.subrange(i1, j)[q] == tail[q] by {
            assert(s.subrange(i1, j)[q] == s[i1 + q]);
            assert(seg[q + 1 + head.len()] == tail[q]);
        }
        assert(s.subrange(i1, j) =~= tail);
        assert(forall|k: int|
            0 <= k < cs.drop_first().len() ==> renderable(#[trigger] cs.drop_first()[k]));
        lemma_join_amp_parses(cs.drop_first(), s, i1, j);
        assert(and_rest(s, i) == (seq![cs[0]] + cs.drop_first(), j));
        assert(seq![cs[0]] + cs.drop_first() =~= cs);
    }
}

/// The `('|' term)*` continuation of a written disjunction parses to
/// exactly those terms.
proof fn lemma_join_bar_parses(cs: Seq<CondView>, s: Seq<char>, i: int, j: int)
    requires
        forall|k: int| 0 <= k < cs.len() ==> renderable(#[trigger] cs[k]),
        0 <= i <= j <= s.len(),
        s.subrange(i, j) == join_bar(cs),
        stop_o(s, j),
    ensures
        or_rest(s, i) == (cs, j),
    decreases cs, 1int,
{
    let seg = join_bar(cs);
    assert(s.subrange(i, j).len() == j - i);
    assert(j - i == seg.len());
    assert forall|q: int| 0 <= q < seg.len() implies s[i + q] == seg[q] by {
        assert(s.subrange(i, j)[q] == s[i + q]);
    }
    if cs.len() == 0 {
        assert(i == j);
        assert(or_rest(s, i) == (Seq::<CondView>::empty(), i));
    } else {
        assert(renderable(cs[0]));
        let head = render_at(2, cs[0]);
        let tail = join_bar(cs.drop_first());
        assert(cs.drop_first() =~= cs.subrange(1, cs.len() as int));
        assert(seg == seq!['|'] + head + tail);
        assert(seg[0] == '|');
        assert(s[i] == '|');
        lemma_render_positive(cs[0], 2);
        let i1 = i + 1 + head.len();
        assert(i1 <= j);
        assert forall|q: int| 0 <= q < head.len() implies s.subrange(i + 1, i1)[q] == head[q] by {
            assert(s.subrange(i + 1, i1)[q] == s[i + 1 + q]);
            assert(seg[q + 1] == head[q]);
        }
        assert(s.subrange(i + 1, i1) =~= head);
        assert(stop_a(s, i1)) by {
            if cs.len() > 1 {
                assert(tail == seq!['|'] + render_at(2, cs.drop_first()[0]) + join_bar(
                    cs.drop_first().subrange(1, cs.drop_first().len() as int),
                ));
                assert(tail[0] == '|');
                assert(s[i1] == seg[i1 - i]);
                assert(seg[i1 - i] == tail[i1 - i - 1 - head.len()]);
            } else {
                assert(cs.drop_first().len() == 0);
                assert(tail.len() == 0);
                assert(i1 == j);
            }
        }
        assert(stop_at(2, s, i1)) by {
            assert(stop_a(s, i1));
        }
        lemma_render_parses(cs[0], 2, s, i + 1, i1);
        assert forall|q: int| 0 <= q < tail.len() implies s.subrange(i1, j)[q] == tail[q] by {
            assert(s.subrange(i1, j)[q] == s[i1 + q]);
            assert(seg[q + 1 + head.len()] == tail[q]);
        }
        assert(s.subrange(i1, j) =~= tail);
        assert(forall|k: int|
            0 <= k < cs.drop_first().len() ==> renderable(#[trigger] cs.drop_first()[k]));
        lemma_join_bar_parses(cs.drop_first(), s, i1, j);
        assert(or_rest(s, i) == (seq![cs[0]] + cs.drop_first(), j));
        assert(seq![cs[0]] + cs.drop_first() =~= cs);
    }
}

/// Round trip: writing any renderable condition in its source form
/// and parsing that text back yields exactly the original condition.
/// Together with the parser's own contract, which pins
/// `parse_condition` to the one function `parse_cond`, this says that
/// nothing is lost or invented between a condition's text and its
/// tree.
pub proof fn lemma_parse_render_roundtrip(c: CondView)
    requires
        renderable(c),
    ensures
        parse_cond(render_cond(c)) == ParseOutcome::Parsed(c),
{
    let s = render_cond(c);
    assert(s.subrange(0, s.len() as int) =~= s);
    lemma_render_parses(c, 3, s, 0, s.len() as int);
}

/// Every `Not` node has a child to negate, all the way down: what the
/// compiler needs of a tree so that it never reads a missing child.
pub open spec fn not_has_child(n: CondNode) -> bool
    decreases n,
{
    &&& (n.data is Not ==> n.children.len() >= 1)
    &&& forall|i: int| 0 <= i < n.children.len() ==> not_has_child(#[trigger] n.children[i])
}

/// The parser's structural invariant: a `Not` has exactly one child, an
/// `And` or `Or` at least two (one child collapses to the child while
/// parsing), and leaves have none.
pub open spec fn wf_node(n: CondNode) -> bool
    decreases n,
{
    &&& match n.data {
        CondNodeType::Not => n.children.len() == 1,
        CondNodeType::And => n.children.len() >= 2,
        CondNodeType::Or => n.children.len() >= 2,
        CondNodeType::Match(_) => n.children.len() == 0,
        CondNodeType::ContentMatch(_) => n.children.len() == 0,
        CondNodeType::Tag(_) => n.children.len() == 0,
        CondNodeType::TagMatch(_) => n.children.len() == 0,
    }
    &&& forall|i: int| 0 <= i < n.children.len() ==> wf_node(#[trigger] n.children[i])
}

pub proof fn lemma_wf_node_not_has_child(n: CondNode)
    requires
        wf_node(n),
    ensures
        not_has_child(n),
    decreases n,
{
    assert forall|i: int| 0 <= i < n.children.len() implies not_has_child(
        #[trigger] n.children[i],
    ) by {
        lemma_wf_node_not_has_child(n.children[i]);
    }
}

/// One character of a `LIKE` operand, with the wildcard characters and
/// the escape character itself neutralized under `ESCAPE '\'`.
pub open spec fn like_escaped_char(c: char) -> Seq<char> {
    if c == '%' || c == '_' || c == '\\' {
        seq!['\\', c]
    } else {
        seq![c]
    }
}

/// A `LIKE` operand for substring matching: the text with every
/// backend-special character escaped.
pub open spec fn like_escaped(t: Seq<char>) -> Seq<char>
    decreases t.len(),
{
    if t.len() == 0 {
        Seq::empty()
    } else {
        like_escaped(t.drop_last()) + like_escaped_char(t.last())
    }
}

/// The SQL text that `tosql` emits for a condition: a boolean
/// expression over `content` and the `tags` table in which every piece
/// of user text is a `?` placeholder.
pub open spec fn cond_sql(c: CondView) -> Seq<char>
    decreases c,
{
    match c {
        CondView::Not(b) => "(NOT "@ + cond_sql(*b) + ")"@,
        CondView::And(cs) => "("@ + join_sql(cs, " AND "@) + ")"@,
        CondView::Or(cs) => "("@ + join_sql(cs, " OR "@) + ")"@,
        CondView::ContentMatch(_) => "(content LIKE '%' || ? || '%' ESCAPE '\\')"@,
        CondView::Tag(_) => "(EXISTS(SELECT 1 FROM tags WHERE node = nodes.id AND tag = ?))"@,
        CondView::TagMatch(
            _,
        ) => "(EXISTS(SELECT 1 FROM tags WHERE node = nodes.id AND tag LIKE '%' || ? || '%' ESCAPE '\\'))"@,
        CondView::Match(
            _,
        ) => "(content LIKE '%' || ? || '%' ESCAPE '\\' OR EXISTS(SELECT 1 FROM tags WHERE node = nodes.id AND tag LIKE '%' || ? || '%' ESCAPE '\\'))"@,
    }
}

/// The SQL texts of `cs`, joined by `sep`.
pub open spec fn join_sql(cs: Seq<CondView>, sep: Seq<char>) -> Seq<char>
    decreases cs,
{
    if cs.len() == 0 {
        Seq::empty()
    } else if cs.len() == 1 {
        cond_sql(cs[0])
    } else {
        join_sql(cs.subrange(0, cs.len() - 1), sep) + sep + cond_sql(cs.last())
    }
}

/// The parameter list bound to the placeholders of `cond_sql(c)`, in
/// placeholder order.
pub open spec fn cond_params(c: CondView) -> Seq<Seq<char>>
    decreases c,
{
    match c {
        CondView::Not(b) => cond_params(*b),
        CondView::And(cs) => cat_params(cs),
        CondView::Or(cs) => cat_params(cs),
        CondView::ContentMatch(t) => seq![like_escaped(t)],
        CondView::Tag(t) => seq![t],
        CondView::TagMatch(t) => seq![like_escaped(t)],
        CondView::Match(t) => seq![like_escaped(t), like_escaped(t)],
    }
}

/// The parameter lists of `cs`, concatenated.
pub open spec fn cat_params(cs: Seq<CondView>) -> Seq<Seq<char>>
    decreases cs,
{
    if cs.len() == 0 {
        Seq::empty()
    } else {
        cat_params(cs.subrange(0, cs.len() - 1)) + cond_params(cs.last())
    }
}

/// The text `t`, escaped for use as a substring `LIKE` operand.
fn like_escape_x(t: &str) -> (r: String)
    ensures
        r@ == like_escaped(t@),
{
    let cs = crate::util::str_chars(t);
    let mut out: Vec<char> = Vec::new();
    let mut i: usize = 0;
    while i < cs.len()
        invariant
            i <= cs@.len(),
            cs@ == t@,
            out@ == like_escaped(t@.subrange(0, i as int)),
        decreases cs@.len() - i,
    {
        let c = cs[i];
        if c == '%' || c == '_' || c == '\\' {
            out.push('\\');
            out.push(c);
        } else {
            out.push(c);
        }
        proof {
            let pre = t@.subrange(0, i + 1 as int);
            assert(pre.drop_last() =~= t@.subrange(0, i as int));
            assert(out@ =~= like_escaped(pre.drop_last()) + like_escaped_char(pre.last()));
        }
        i = i + 1;
    }
    proof {
        assert(t@.subrange(0, t@.len() as int) =~= t@);
    }
    crate::util::chars_to_string(&out)
}

/// Compiles a condition tree into a backend predicate: the SQL text,
/// whose user literals are all `?` placeholders, and the texts to bind
/// to those placeholders, in order.
pub fn tosql(pattern: &CondNode) -> (r: (String, Vec<String>))
    requires
        not_has_child(*pattern),
    ensures
        r.0@ == cond_sql(cond_view(*pattern)),
        r.1@.len() == cond_params(cond_view(*pattern)).len(),
        forall|q: int|
            0 <= q < r.1@.len() ==> (#[trigger] r.1@[q])@ == cond_params(cond_view(*pattern))[q],
    decreases *pattern,
{
    match &pattern.data {
        CondNodeType::Not => {
            let (cq, cp) = tosql(&pattern.children[0]);
            let mut q = "(NOT ".to_owned();
            q.append(cq.as_str());
            q.append(")");
            proof {
                assert(q@ =~= "(NOT "@ + cond_sql(cond_view(pattern.children[0 as int])) + ")"@);
            }
            (q, cp)
        },
        CondNodeType::And | CondNodeType::Or => {
            let is_and = matches!(&pattern.data, CondNodeType::And);
            let ghost cs = child_views(pattern.children);
            let ghost sep: Seq<char> = if is_and {
                " AND "@
            } else {
                " OR "@
            };
            let mut q = "(".to_owned();
            let mut params: Vec<String> = Vec::new();
            let mut i: usize = 0;
            while i < pattern.children.len()
        invariant
                    i <= pattern.children@.len(),
                    not_has_child(*pattern),
                    cs == child_views(pattern.children),
                    sep == (if is_and { " AND "@ } else { " OR "@ }),
                    q@ == "("@ + join_sql(cs.subrange(0, i as int), sep),
                    params@.len() == cat_params(cs.subrange(0, i as int)).len(),
                    forall|t: int|
                        0 <= t < params@.len() ==> (#[trigger] params@[t])@ == cat_params(
                            cs.subrange(0, i as int),
                        )[t],
        decreases pattern.children@.len() - i,
            {
                if i > 0 {
                    if is_and {
                        q.append(" AND ");
                    } else {
                        q.append(" OR ");
                    }
                }
                let (cq, mut cp) = tosql(&pattern.children[i]);
                q.append(cq.as_str());
                let ghost old_params = params@;
                params.append(&mut cp);
                proof {
                    let pre = cs.subrange(0, i + 1 as int);
                    assert(pre.subrange(0, i as int) =~= cs.subrange(0, i as int));
                    assert(pre.last() == cond_view(pattern.children[i as int]));
                    if i == 0 {
                        assert(q@ =~= "("@ + join_sql(pre, sep));
                    } else {
                        assert(q@ =~= "("@ + (join_sql(cs.subrange(0, i as int), sep) + sep
                            + cond_sql(pre.last())));
                        assert("("@ + (join_sql(cs.subrange(0, i as int), sep) + sep + cond_sql(
                            pre.last(),
                        )) =~= "("@ + join_sql(pre, sep));
                    }
                    assert(cat_params(pre) =~= cat_params(cs.subrange(0, i as int)) + cond_params(
                        pre.last(),
                    ));
                    assert forall|t: int| 0 <= t < params@.len() implies (#[trigger] params@[t])@
                        == cat_params(pre)[t] by {
                        if t < old_params.len() {
                            assert(params@[t] == old_params[t]);
                        }
                    }
                }
                i = i + 1;
            }
            q.append(")");
            proof {
                assert(cs.subrange(0, cs.len() as int) =~= cs);
                assert(q@ =~= "("@ + join_sql(cs, sep) + ")"@);
            }
            (q, params)
        },
        CondNodeType::ContentMatch(t) => {
            let p = like_escape_x(t.as_str());
            let mut params: Vec<String> = Vec::new();
            params.push(p);
            ("(content LIKE '%' || ? || '%' ESCAPE '\\')".to_owned(), params)
        },
        CondNodeType::Tag(t) => {
            let mut params: Vec<String> = Vec::new();
            params.push(t.clone());
            ("(EXISTS(SELECT 1 FROM tags WHERE node = nodes.id AND tag = ?))".to_owned(), params)
        },
        CondNodeType::TagMatch(t) => {
            let p = like_escape_x(t.as_str());
            let mut params: Vec<String> = Vec::new();
            params.push(p);
            (
                "(EXISTS(SELECT 1 FROM tags WHERE node = nodes.id AND tag LIKE '%' || ? || '%' ESCAPE '\\'))".to_owned(),
                params,
            )
        },
        CondNodeType::Match(t) => {
            let p = like_escape_x(t.as_str());
            let p2 = p.clone();
            let mut params: Vec<String> = Vec::new();
            params.push(p);
            params.push(p2);
            (
                "(content LIKE '%' || ? || '%' ESCAPE '\\' OR EXISTS(SELECT 1 FROM tags WHERE node = nodes.id AND tag LIKE '%' || ? || '%' ESCAPE '\\'))".to_owned(),
                params,
            )
        },
    }
}

} // verus!
