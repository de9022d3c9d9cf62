//! Text helpers shared by the listing commands and the browser:
//! character/string conversions, summary shortening, decimal formatting
//! and parsing, and the arguments of a note listing.
use vstd::prelude::*;

use crate::pattern::scan_to;
use crate::pattern::CondNode;
use crate::pattern::not_has_child;

verus! {

/// Relies on `str::chars`: yields the characters of the slice, in
/// order, which is exactly the slice's view.
#[verifier::external_body]
pub(crate) fn str_chars(s: &str) -> (r: Vec<char>)
    ensures
        r@ == s@,
{
    s.chars().collect()
}

/// Relies on `String`'s `FromIterator<char>`: builds a string holding
/// exactly the given characters, in order.
#[verifier::external_body]
pub(crate) fn chars_to_string(v: &Vec<char>) -> (r: String)
    ensures
        r@ == v@,
{
    v.iter().collect()
}

/// The characters `s[a..b]`, as an owned string.
pub(crate) fn seg_string(s: &Vec<char>, a: usize, b: usize) -> (r: String)
    requires
        a <= b <= s@.len(),
    ensures
        r@ == s@.subrange(a as int, b as int),
{
    let mut out: Vec<char> = Vec::new();
    let mut i: usize = a;
    while i < b
        invariant
            a <= i <= b <= s@.len(),
            out@ == s@.subrange(a as int, i as int),
        decreases b - i,
    {
        out.push(s[i]);
        proof {
            assert(out@ =~= s@.subrange(a as int, i + 1 as int));
        }
        i = i + 1;
    }
    chars_to_string(&out)
}

/// The decimal digits of `n`, most significant first.
pub open spec fn dec_digits(n: nat) -> Seq<char>
    decreases n,
{
    if n < 10 {
        seq![digit_char(n)]
    } else {
        dec_digits(n / 10).push(digit_char(n % 10))
    }
}

/// The character for one decimal digit.
pub open spec fn digit_char(d: nat) -> char {
    if d == 0 {
        '0'
    } else if d == 1 {
        '1'
    } else if d == 2 {
        '2'
    } else if d == 3 {
        '3'
    } else if d == 4 {
        '4'
    } else if d == 5 {
        '5'
    } else if d == 6 {
        '6'
    } else if d == 7 {
        '7'
    } else if d == 8 {
        '8'
    } else {
        '9'
    }
}

fn digit_char_x(d: u64) -> (c: char)
    requires
        d < 10,
    ensures
        c == digit_char(d as nat),
{
    if d == 0 {
        '0'
    } else if d == 1 {
        '1'
    } else if d == 2 {
        '2'
    } else if d == 3 {
        '3'
    } else if d == 4 {
        '4'
    } else if d == 5 {
        '5'
    } else if d == 6 {
        '6'
    } else if d == 7 {
        '7'
    } else if d == 8 {
        '8'
    } else {
        '9'
    }
}

/// Formats `n` in decimal.
pub fn u64_string(n: u64) -> (r: String)
    ensures
        r@ == dec_digits(n as nat),
{
    let mut rev: Vec<char> = Vec::new();
    let mut m: u64 = n;
    while m >= 10
        invariant
            dec_digits(n as nat) == dec_digits(m as nat) + rev@.reverse(),
        decreases m,
    {
        let ghost prev = rev@;
        rev.push(digit_char_x(m % 10));
        proof {
            assert(rev@.reverse() =~= seq![digit_char((m % 10) as nat)] + prev.reverse());
            assert(dec_digits((m / 10) as nat).push(digit_char((m % 10) as nat)) + prev.reverse()
                =~= dec_digits((m / 10) as nat) + rev@.reverse());
        }
        m = m / 10;
    }
    let mut out: Vec<char> = Vec::new();
    out.push(digit_char_x(m));
    proof {
        assert(out@ =~= dec_digits(m as nat));
    }
    let mut i: usize = rev.len();
    while i > 0
        invariant
            i <= rev@.len(),
            out@ == dec_digits(m as nat) + rev@.subrange(i as int, rev@.len() as int).reverse(),
        decreases i,
    {
        i = i - 1;
        out.push(rev[i]);
        proof {
            assert(rev@.subrange(i as int, rev@.len() as int).reverse() =~= rev@.subrange(
                i + 1 as int,
                rev@.len() as int,
            ).reverse().push(rev@[i as int]));
            assert(out@ =~= dec_digits(m as nat) + rev@.subrange(
                i as int,
                rev@.len() as int,
            ).reverse());
        }
    }
    proof {
        assert(rev@.subrange(0, rev@.len() as int) =~= rev@);
        assert(out@ =~= dec_digits(n as nat));
    }
    chars_to_string(&out)
}

/// Formats a node id in decimal.
pub fn u32_string(n: u32) -> (r: String)
    ensures
        r@ == dec_digits(n as nat),
{
    u64_string(n as u64)
}

/// The decimal form of a possibly negative number.
pub open spec fn signed_dec_digits(n: int) -> Seq<char> {
    if n < 0 {
        "-"@ + dec_digits((-n) as nat)
    } else {
        dec_digits(n as nat)
    }
}

/// Formats a signed offset in decimal.
pub fn i32_string(n: i32) -> (r: String)
    ensures
        r@ == signed_dec_digits(n as int),
{
    if n < 0 {
        let m: i64 = n as i64;
        let mut out = "-".to_owned();
        out.append(u64_string((-m) as u64).as_str());
        proof {
            assert(out@ =~= "-"@ + dec_digits((-(n as int)) as nat));
        }
        out
    } else {
        u64_string(n as u64)
    }
}

/// The numeric value of one decimal digit character; ten for others.
pub open spec fn digit_val(c: char) -> nat {
    if c == '0' {
        0
    } else if c == '1' {
        1
    } else if c == '2' {
        2
    } else if c == '3' {
        3
    } else if c == '4' {
        4
    } else if c == '5' {
        5
    } else if c == '6' {
        6
    } else if c == '7' {
        7
    } else if c == '8' {
        8
    } else if c == '9' {
        9
    } else {
        10
    }
}

pub open spec fn is_digit(c: char) -> bool {
    digit_val(c) < 10
}

/// The number that a run of decimal digits denotes.
pub open spec fn digits_val(s: Seq<char>) -> nat
    decreases s.len(),
{
    if s.len() == 0 {
        0
    } else {
        digits_val(s.drop_last()) * 10 + digit_val(s.last())
    }
}

/// A longer digit run never denotes a smaller number.
proof fn lemma_digits_val_prefix(s: Seq<char>, i: int)
    requires
        0 <= i <= s.len(),
    ensures
        digits_val(s.subrange(0, i)) <= digits_val(s),
    decreases s.len() - i,
{
    if i < s.len() {
        let t = s.subrange(0, i + 1);
        assert(t.drop_last() =~= s.subrange(0, i));
        assert(digits_val(t) == digits_val(s.subrange(0, i)) * 10 + digit_val(t.last()));
        lemma_digits_val_prefix(s, i + 1);
    } else {
        assert(s.subrange(0, i) =~= s);
    }
}

/// The digit run of a number: what follows an optional leading `+`.
pub open spec fn num_body(s: Seq<char>) -> Seq<char> {
    if s.len() > 0 && s[0] == '+' {
        s.drop_first()
    } else {
        s
    }
}

/// Whether `s` is a decimal number that fits in 64 unsigned bits: an
/// optional leading `+`, then at least one digit, denoting a value
/// below two to the sixty-fourth.
pub open spec fn u64_parseable(s: Seq<char>) -> bool {
    &&& num_body(s).len() >= 1
    &&& forall|i: int| 0 <= i < num_body(s).len() ==> is_digit(#[trigger] num_body(s)[i])
    &&& digits_val(num_body(s)) <= u64::MAX
}

pub(crate) fn digit_val_x(c: char) -> (d: u64)
    ensures
        d == digit_val(c),
{
    if c == '0' {
        0
    } else if c == '1' {
        1
    } else if c == '2' {
        2
    } else if c == '3' {
        3
    } else if c == '4' {
        4
    } else if c == '5' {
        5
    } else if c == '6' {
        6
    } else if c == '7' {
        7
    } else if c == '8' {
        8
    } else if c == '9' {
        9
    } else {
        10
    }
}

/// Checks that `v` denotes an unsigned number, as the command line's
/// numeric arguments must.
pub fn is_uint(v: String) -> (r: Result<(), String>)
    ensures
        r is Ok <==> u64_parseable(v@),
        r matches Err(e) ==> e@ == "Could not parse '"@ + v@ + "' as unsigned number"@,
{
    let cs = str_chars(v.as_str());
    let start: usize = if cs.len() > 0 && cs[0] == '+' {
        1
    } else {
        0
    };
    let ghost body = num_body(v@);
    proof {
        assert(body =~= v@.subrange(start as int, v@.len() as int));
    }
    let mut ok: bool = cs.len() > start;
    let mut acc: u64 = 0;
    let mut i: usize = start;
    while i < cs.len() && ok
        invariant
            start <= i <= cs@.len(),
            cs@ == v@,
            body == num_body(v@),
            body == v@.subrange(start as int, v@.len() as int),
            ok ==> acc == digits_val(v@.subrange(start as int, i as int)),
            ok ==> forall|q: int| start <= q < i ==> is_digit(#[trigger] v@[q]),
            ok ==> (i > start || cs@.len() > start),
            !ok ==> !u64_parseable(v@),
        decreases cs@.len() - i,
    {
        let d = digit_val_x(cs[i]);
        let ghost pre = v@.subrange(start as int, i + 1 as int);
        proof {
            assert(pre.drop_last() =~= v@.subrange(start as int, i as int));
        }
        if d >= 10 {
            ok = false;
            proof {
                assert(body[i - start] == v@[i as int]);
                assert(!is_digit(body[i - start]));
                assert(!u64_parseable(v@)) by {
                    if u64_parseable(v@) {
                        assert(is_digit(num_body(v@)[i - start]));
                    }
                }
            }
        } else {
            let grown: Option<u64> = match acc.checked_mul(10) {
                Some(m10) => m10.checked_add(d),
                None => None,
            };
            match grown {
                Some(next) => {
                    acc = next;
                    proof {
                        assert(pre.last() == v@[i as int]);
                    }
                },
                None => {
                    ok = false;
                    proof {
                        assert(pre.last() == v@[i as int]);
                        assert(digits_val(pre) == acc * 10 + d);
                        assert(digits_val(pre) > u64::MAX);
                        assert(pre =~= body.subrange(0, i + 1 - start));
                        lemma_digits_val_prefix(body, i + 1 - start);
                        assert(digits_val(body) > u64::MAX);
                        assert(!u64_parseable(v@)) by {
                            assert(digits_val(num_body(v@)) > u64::MAX);
                        }
                    }
                },
            }
        }
        i = i + 1;
    }
    if ok {
        proof {
            assert(v@.subrange(start as int, i as int) =~= body);
            assert forall|q: int| 0 <= q < body.len() implies is_digit(#[trigger] body[q]) by {
                assert(body[q] == v@[q + start]);
            }
        }
        Ok(())
    } else {
        let mut msg = "Could not parse '".to_owned();
        msg.append(v.as_str());
        msg.append("' as unsigned number");
        proof {
            assert(msg@ =~= "Could not parse '"@ + v@ + "' as unsigned number"@);
        }
        Err(msg)
    }
}

/// Checks that `v` names a node, which is an unsigned numeric id.
pub fn is_node(v: String) -> (r: Result<(), String>)
    ensures
        r is Ok <==> u64_parseable(v@),
        r matches Err(e) ==> e@ == "Could not parse '"@ + v@ + "' as unsigned number"@,
{
    is_uint(v)
}

/// What `short_string` yields: the text itself when it fits, else its
/// head filled up with `...` to exactly `max` characters.
pub open spec fn short_string_spec(s: Seq<char>, max: int) -> Seq<char> {
    if s.len() <= max {
        s
    } else {
        s.subrange(0, max - 3) + "..."@
    }
}

/// Trims the given string to the length `max_length`.  The last three
/// chars will be `...` if the string was longer than `max_length`.
pub fn short_string(lstr: &str, max_length: usize) -> (r: String)
    requires
        max_length >= 3,
    ensures
        r@ == short_string_spec(lstr@, max_length as int),
{
    let cs = str_chars(lstr);
    if cs.len() <= max_length {
        lstr.to_owned()
    } else {
        let mut head = seg_string(&cs, 0, max_length - 3);
        head.append("...");
        head
    }
}

/// A line split off a note body loses a trailing carriage return that
/// preceded the newline.
pub open spec fn strip_cr(l: Seq<char>) -> Seq<char> {
    if l.len() > 0 && l.last() == '\r' {
        l.drop_last()
    } else {
        l
    }
}

/// The lines of a text: split at newlines, with a final newline ending
/// the last line rather than opening an empty one.
pub open spec fn lines_of(s: Seq<char>) -> Seq<Seq<char>>
    decreases s.len(),
{
    if s.len() == 0 {
        Seq::empty()
    } else {
        let e = scan_to(s, 0, '\n');
        if 0 <= e < s.len() {
            seq![strip_cr(s.subrange(0, e))] + lines_of(s.subrange(e + 1, s.len() as int))
        } else {
            seq![s]
        }
    }
}

/// `scan_to` finds `k` when nothing before `k` stops it and `k` stops
/// it (or ends the text).
pub(crate) proof fn lemma_scan_to_at(t: Seq<char>, j: int, k: int, stop: char)
    requires
        0 <= j <= k <= t.len(),
        forall|q: int| j <= q < k ==> t[q] != stop,
        k == t.len() || t[k] == stop,
    ensures
        scan_to(t, j, stop) == k,
    decreases k - j,
{
    if j < k {
        lemma_scan_to_at(t, j + 1, k, stop);
    }
}

/// The views of a vector of strings.
pub open spec fn string_views(v: Seq<String>) -> Seq<Seq<char>> {
    Seq::new(v.len(), |q: int| v[q]@)
}

/// Splits a text into its lines.
pub fn split_lines(content: &str) -> (r: Vec<String>)
    ensures
        string_views(r@) == lines_of(content@),
{
    let cs = str_chars(content);
    let mut out: Vec<String> = Vec::new();
    let mut pos: usize = 0;
    proof {
        assert(cs@.subrange(0, cs@.len() as int) =~= content@);
        assert(string_views(out@) + lines_of(content@) =~= lines_of(content@));
    }
    while pos < cs.len()
        invariant
            pos <= cs@.len(),
            cs@ == content@,
            string_views(out@) + lines_of(cs@.subrange(pos as int, cs@.len() as int)) == lines_of(
                content@,
            ),
        decreases cs@.len() - pos,
    {
        let ghost suffix = cs@.subrange(pos as int, cs@.len() as int);
        let mut e: usize = pos;
        while e < cs.len() && cs[e] != '\n'
            invariant
                pos <= e <= cs@.len(),
                forall|q: int| pos <= q < e ==> cs@[q] != '\n',
            decreases cs@.len() - e,
        {
            e = e + 1;
        }
        proof {
            assert forall|q: int| 0 <= q < e - pos implies suffix[q] != '\n' by {
                assert(suffix[q] == cs@[pos + q]);
            }
            lemma_scan_to_at(suffix, 0, e - pos, '\n');
        }
        if e == cs.len() {
            let line = seg_string(&cs, pos, e);
            out.push(line);
            proof {
                assert(cs@.subrange(pos as int, e as int) =~= suffix);
                assert(lines_of(suffix) =~= seq![suffix]);
                assert(cs@.subrange(e as int, cs@.len() as int) =~= Seq::<char>::empty());
                assert(string_views(out@) =~= string_views(out@.drop_last()) + seq![suffix]);
                assert(string_views(out@) + lines_of(cs@.subrange(e as int, cs@.len() as int))
                    =~= lines_of(content@));
            }
            pos = e;
        } else {
            let line_end: usize = if e > pos && cs[e - 1] == '\r' {
                e - 1
            } else {
                e
            };
            let line = seg_string(&cs, pos, line_end);
            out.push(line);
            proof {
                let piece = suffix.subrange(0, e - pos);
                assert(piece =~= cs@.subrange(pos as int, e as int));
                assert(strip_cr(piece) =~= cs@.subrange(pos as int, line_end as int));
                assert(suffix.subrange(e - pos + 1, suffix.len() as int) =~= cs@.subrange(
                    e + 1 as int,
                    cs@.len() as int,
                ));
                assert(lines_of(suffix) == seq![strip_cr(piece)] + lines_of(
                    cs@.subrange(e + 1 as int, cs@.len() as int),
                ));
                assert(string_views(out@) =~= string_views(out@.drop_last()) + seq![strip_cr(
                    piece,
                )]);
                assert(string_views(out@) + lines_of(cs@.subrange(e + 1 as int, cs@.len() as int))
                    =~= lines_of(content@));
            }
            pos = e + 1;
        }
    }
    proof {
        assert(cs@.subrange(pos as int, cs@.len() as int) =~= Seq::<char>::empty());
        assert(string_views(out@) =~= string_views(out@) + lines_of(Seq::<char>::empty()));
    }
    out
}

/// What a preview built from the given lines holds: up to `lines` of
/// them, each shortened to `width`; in multi-line form each line ends
/// in a newline and tab, and left-over lines are marked `[...]`.
pub open spec fn summary_lines(
    ls: Seq<Seq<char>>,
    lines: int,
    multiline: bool,
    width: int,
) -> Seq<char>
    decreases ls.len(),
{
    if ls.len() == 0 {
        Seq::empty()
    } else if lines <= 0 {
        if multiline {
            "[...]\n"@
        } else {
            Seq::empty()
        }
    } else {
        short_string_spec(ls[0], width) + (if multiline {
            "\n\t"@
        } else {
            Seq::empty()
        }) + summary_lines(ls.drop_first(), lines - 1, multiline, width)
    }
}

/// What `node_summary` yields for a note body.
pub open spec fn node_summary_spec(content: Seq<char>, lines: int, width: int) -> Seq<char> {
    summary_lines(lines_of(content), lines, lines > 1, width)
}

/// Returns a preview of a node's contents.
/// - node: the node's contents (only works for text)
/// - lines: the number of lines the preview should have
/// - width: the number of characters the preview can have at most
pub fn node_summary(node: &str, lines: usize, width: usize) -> (r: String)
    requires
        width >= 3,
    ensures
        r@ == node_summary_spec(node@, lines as int, width as int),
{
    let multiline = lines > 1;
    let ls = split_lines(node);
    let ghost lsv = string_views(ls@);
    let mut ret = String::new();
    let mut remaining: usize = lines;
    let mut i: usize = 0;
    proof {
        assert(lsv.subrange(0, lsv.len() as int) =~= lsv);
        assert(ret@ + summary_lines(lsv, lines as int, multiline, width as int) =~= summary_lines(
            lsv,
            lines as int,
            multiline,
            width as int,
        ));
    }
    while i < ls.len() && remaining > 0
        invariant
            i <= ls@.len(),
            remaining <= lines,
            multiline == (lines > 1),
            width >= 3,
            lsv == string_views(ls@),
            lsv == lines_of(node@),
            i + remaining >= lines,
            remaining > 0 ==> i + remaining == lines,
            ret@ + summary_lines(
                lsv.subrange(i as int, lsv.len() as int),
                remaining as int,
                multiline,
                width as int,
            ) == node_summary_spec(node@, lines as int, width as int),
        decreases ls@.len() - i,
    {
        let ghost tail = lsv.subrange(i as int, lsv.len() as int);
        ret.append(short_string(ls[i].as_str(), width).as_str());
        if multiline {
            ret.append("\n\t");
        }
        proof {
            assert(tail[0] == lsv[i as int]);
            assert(tail.drop_first() =~= lsv.subrange(i + 1 as int, lsv.len() as int));
            assert(summary_lines(tail, remaining as int, multiline, width as int)
                == short_string_spec(tail[0], width as int) + (if multiline {
                "\n\t"@
            } else {
                Seq::<char>::empty()
            }) + summary_lines(tail.drop_first(), remaining - 1, multiline, width as int));
        }
        remaining = remaining - 1;
        i = i + 1;
    }
    if i < ls.len() {
        proof {
            assert(lsv.subrange(i as int, lsv.len() as int).len() > 0);
        }
        if multiline {
            ret.append("[...]\n");
        }
    } else {
        proof {
            assert(lsv.subrange(i as int, lsv.len() as int) =~= Seq::<Seq<char>>::empty());
        }
    }
    ret
}

/// Appends one character to a text buffer.
pub(crate) fn push_char(s: &mut String, c: char)
    ensures
        final(s)@ == old(s)@.push(c),
{
    let mut cs = str_chars(s.as_str());
    cs.push(c);
    *s = chars_to_string(&cs);
}

/// Removes the last character of a text buffer; tells whether there
/// was one.
pub(crate) fn pop_char(s: &mut String) -> (r: bool)
    ensures
        old(s)@.len() == 0 ==> r == false && *final(s) == *old(s),
        old(s)@.len() > 0 ==> r == true && final(s)@ == old(s)@.drop_last(),
{
    let cs = str_chars(s.as_str());
    if cs.len() == 0 {
        false
    } else {
        *s = seg_string(&cs, 0, cs.len() - 1);
        proof {
            assert(s@ =~= old(s)@.drop_last());
        }
        true
    }
}

/// A direction for ordering listed notes.
#[derive(PartialEq, Eq, Structural, Clone, Copy, Debug)]
pub enum Order {
    Asc,
    Desc,
}

/// The SQL keyword for an ordering direction.
pub open spec fn order_name_spec(o: Order) -> Seq<char> {
    match o {
        Order::Asc => "ASC"@,
        Order::Desc => "DESC"@,
    }
}

impl Order {
    pub fn name(&self) -> (r: &'static str)
        ensures
            r@ == order_name_spec(*self),
    {
        match self {
            Order::Asc => "ASC",
            Order::Desc => "DESC",
        }
    }

    /// The opposite direction.
    pub fn toggle(&self) -> (r: Order)
        ensures
            r == (match *self {
                Order::Asc => Order::Desc,
                Order::Desc => Order::Asc,
            }),
    {
        match self {
            Order::Asc => Order::Desc,
            Order::Desc => Order::Asc,
        }
    }
}

/// The key by which listed notes are sorted.
#[derive(PartialEq, Eq, Structural, Clone, Copy, Debug)]
pub enum Sort {
    ID,
    Priority,
    Edited,
}

/// The column name for a sort key.
pub open spec fn sort_name_spec(s: Sort) -> Seq<char> {
    match s {
        Sort::ID => "id"@,
        Sort::Priority => "priority"@,
        Sort::Edited => "edited"@,
    }
}

impl Sort {
    pub fn name(&self) -> (r: &'static str)
        ensures
            r@ == sort_name_spec(*self),
    {
        match self {
            Sort::ID => "id",
            Sort::Priority => "priority",
            Sort::Edited => "edited",
        }
    }
}

/// One listed note: its id, priority, body, and tags.
pub struct Node {
    pub id: u32,
    pub priority: i32,
    pub content: String,
    pub tags: Vec<String>,
}

/// What a listing query is built from.
///
/// The default order is ascending for both directions.  `preorder` is
/// the order of notes before limiting, `postorder` the order of what
/// the limit kept, i.e. the returned order; they differ usefully only
/// when `count` is given.  `pattern`, when present, keeps only matching
/// notes and must already have parsed; `archived`, when present, keeps
/// only notes whose archived flag equals it.
pub struct ListArgs {
    pub preorder: Order,
    pub postorder: Order,
    pub count: Option<usize>,
    pub pattern: Option<CondNode>,
    pub archived: Option<bool>,
    pub sort: Option<Sort>,
}

/// A pattern that reaches the query builder must come out of the
/// parser, whole: every `Not` within it has its operand.
pub open spec fn list_args_wf(a: ListArgs) -> bool {
    a.pattern matches Some(p) ==> not_has_child(p)
}

/// Relies on termion's `terminal_size`: the terminal's width and
/// height in characters, when the process has one.  Nothing is
/// promised of the values.
#[verifier::external_body]
fn termion_terminal_size() -> (r: Option<(u16, u16)>) {
    match termion::terminal_size() {
        Ok(s) => Some(s),
        Err(_) => None,
    }
}

/// Returns the current size of the terminal in characters, falling
/// back to a guess of eighty by eighty when there is no terminal to
/// ask.
pub fn terminal_size() -> (u16, u16) {
    match termion_terminal_size() {
        Some(s) => s,
        None => (80, 80),
    }
}

} // verus!
