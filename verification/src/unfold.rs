//! Whether the default values of a schema come to an end.
//!
//! The Avro library tries the default value of every field against the field's type. A field
//! that the value leaves out is filled in by its own default value, and so on, from record to
//! record by their names. It writes out the type of a field whose default value does not fit,
//! records in place of their names. Both go on for as long as the schema leads on, and deeper
//! with every step. The texts on which they stay within bounds are told apart here.
use vstd::prelude::*;

use crate::json::{token_views, Token, TokenView};
use crate::outline;
use crate::outline::{
    alike, behind, find, has_mark, literal_at, mark_at, name_views, of, qualified, DEPTH,
};

verus! {

/// How many steps the default values of a text may take.
pub const WORK: usize = 0x4_0000;

/// What a schema is made of: nothing further, the variants of a union from a position on,
/// another schema at a position, one value deeper or not, or the fields of a record.
#[derive(Clone, Copy, Debug)]
pub enum Node {
    Leaf,
    Union(usize),
    Inner(usize, bool),
    Record,
}

#[verifier::ext_equal]
pub ghost enum NodeView {
    Leaf,
    Union(int),
    Inner(int, bool),
    Record,
}

impl View for Node {
    type V = NodeView;

    open spec fn view(&self) -> NodeView {
        match self {
            Node::Leaf => NodeView::Leaf,
            Node::Union(j) => NodeView::Union(*j as int),
            Node::Inner(q, deeper) => NodeView::Inner(*q as int, *deeper),
            Node::Record => NodeView::Record,
        }
    }
}

/// The schema that is the member `k` of the object at `p`.
pub open spec fn inner_at(t: Seq<TokenView>, p: int, k: Seq<char>) -> NodeView {
    match of(t, p, k) {
        Some(q) => NodeView::Inner(q, true),
        None => NodeView::Leaf,
    }
}

/// What the schema at `p` is made of.
pub open spec fn node_at(t: Seq<TokenView>, p: int) -> NodeView {
    if mark_at(t, p, '[') {
        NodeView::Union(p + 1)
    } else if !mark_at(t, p, '{') {
        NodeView::Leaf
    } else {
        match of(t, p, "type"@) {
            None => NodeView::Leaf,
            Some(q) => if literal_at(t, q, "record"@) {
                NodeView::Record
            } else if literal_at(t, q, "array"@) {
                inner_at(t, p, "items"@)
            } else if literal_at(t, q, "map"@) {
                inner_at(t, p, "values"@)
            } else if t[q] is Mark {
                NodeView::Inner(q, false)
            } else {
                NodeView::Leaf
            },
        }
    }
}

/// The name by which the schema at `p` may mean another one.
pub open spec fn name_at(t: Seq<TokenView>, p: int) -> Option<Seq<char>> {
    if !(0 <= p < t.len()) {
        None
    } else {
        match t[p] {
            TokenView::Literal(l) => Some(l),
            _ => if mark_at(t, p, '{') {
                outline::literal_of(t, p, "type"@)
            } else {
                None
            },
        }
    }
}

fn node(t: &Vec<Token>, p: usize) -> (r: Node)
    ensures
        r@ == node_at(token_views(t@), p as int),
        r matches Node::Union(j) ==> p < j <= t@.len(),
        r matches Node::Inner(q, _) ==> p < q < t@.len(),
        r is Record ==> p < t@.len(),
{
    if p >= t.len() {
        return Node::Leaf;
    }
    assert(p < t.len());
    if has_mark(t, p, '[') {
        return Node::Union(p + 1);
    }
    if !has_mark(t, p, '{') {
        return Node::Leaf;
    }
    match find(t, p, "type") {
        None => Node::Leaf,
        Some(q) => {
            assert(token_views(t@)[q as int] == t@[q as int]@);
            if outline::has_literal(t, q, "record") {
                Node::Record
            } else if outline::has_literal(t, q, "array") {
                match find(t, p, "items") {
                    Some(i) => Node::Inner(i, true),
                    None => Node::Leaf,
                }
            } else if outline::has_literal(t, q, "map") {
                match find(t, p, "values") {
                    Some(i) => Node::Inner(i, true),
                    None => Node::Leaf,
                }
            } else {
                match &t[q] {
                    Token::Mark(_) => Node::Inner(q, false),
                    _ => Node::Leaf,
                }
            }
        },
    }
}

fn find_name(t: &Vec<Token>, p: usize) -> (r: Option<Vec<char>>)
    ensures
        match r {
            Some(l) => name_at(token_views(t@), p as int) == Some(l@),
            None => name_at(token_views(t@), p as int) is None,
        },
{
    if p >= t.len() {
        return None;
    }
    assert(token_views(t@)[p as int] == t@[p as int]@);
    match &t[p] {
        Token::Literal(l) => Some(crate::json::copy_chars(l)),
        _ => if has_mark(t, p, '{') {
            outline::find_literal(t, p, "type")
        } else {
            None
        },
    }
}

// ---- names ---------------------------------------------------------------------------------

/// A name can be taken for that of this record.
pub open spec fn means(name: Seq<char>, record: (Seq<char>, int)) -> bool {
    alike(qualified(name, Seq::empty()), record.0)
}

/// Where the first record is described that a name can be taken for.
pub open spec fn meant(records: Seq<(Seq<char>, int)>, name: Seq<char>) -> Option<int>
    decreases records.len(),
{
    if records.len() == 0 {
        None
    } else if means(name, records[0]) {
        Some(records[0].1)
    } else {
        meant(records.skip(1), name)
    }
}

/// A name can be taken for that of more than one record.
pub open spec fn unclear(records: Seq<(Seq<char>, int)>, name: Seq<char>) -> bool {
    exists|i: int|
        0 <= i < records.len() && means(name, #[trigger] records[i]) && meant(records, name)
            != Some(records[i].1)
}

/// Where the record is described that a name means: `Err` where that is unclear.
fn look_up(records: &Vec<(Vec<char>, usize)>, name: &Vec<char>) -> (r: Result<Option<usize>, ()>)
    ensures
        match r {
            Ok(Some(q)) => meant(name_views(records@), name@) == Some(q as int) && !unclear(
                name_views(records@),
                name@,
            ),
            Ok(None) => meant(name_views(records@), name@) is None,
            Err(_) => meant(name_views(records@), name@) is Some && unclear(
                name_views(records@),
                name@,
            ),
        },
{
    let ghost v = name_views(records@);
    let none: Vec<char> = Vec::new();
    assert(none@ =~= Seq::<char>::empty());
    let full: Vec<char> = outline::qualify(name, &none);
    let mut i: usize = 0;
    proof {
        assert(v.skip(0) =~= v);
    }
    while i < records.len()
        invariant_except_break
            i <= records@.len(),
            meant(v, name@) == meant(v.skip(i as int), name@),
            forall|j: int| 0 <= j < i ==> !means(name@, #[trigger] v[j]),
        invariant
            v == name_views(records@),
            full@ == qualified(name@, Seq::empty()),
        ensures
            i <= records@.len(),
            forall|j: int| 0 <= j < i ==> !means(name@, #[trigger] v[j]),
            i < records@.len() ==> means(name@, v[i as int]) && meant(v, name@) == Some(
                v[i as int].1,
            ),
            i == records@.len() ==> meant(v, name@) is None,
        decreases records@.len() - i,
    {
        assert(v.skip(i as int)[0] == v[i as int]);
        assert(v[i as int].0 == records@[i as int].0@);
        if outline::are_alike(&full, &records[i].0) {
            break;
        }
        assert(v.skip(i as int).skip(1) =~= v.skip(i + 1));
        i = i + 1;
    }
    if i == records.len() {
        return Ok(None);
    }
    let q: usize = records[i].1;
    let mut j: usize = i + 1;
    while j < records.len()
        invariant
            i < j <= records@.len(),
            v == name_views(records@),
            full@ == qualified(name@, Seq::empty()),
            q == records@[i as int].1,
            meant(v, name@) == Some(q as int),
            forall|k: int| 0 <= k < i ==> !means(name@, #[trigger] v[k]),
            forall|k: int| i < k < j && means(name@, #[trigger] v[k]) ==> v[k].1 == q,
        decreases records@.len() - j,
    {
        assert(v[j as int].0 == records@[j as int].0@);
        if records[j].1 != q && outline::are_alike(&full, &records[j].0) {
            assert(means(name@, v[j as int]) && meant(v, name@) != Some(v[j as int].1));
            return Err(());
        }
        j = j + 1;
    }
    assert forall|k: int| 0 <= k < v.len() && means(name@, #[trigger] v[k]) implies meant(v, name@)
        == Some(v[k].1) by {
        if k == i {
            assert(v[k].1 == records@[k].1);
        }
    }
    Ok(Some(q))
}

// ---- how deep a value goes -----------------------------------------------------------------

/// The depth of the objects and arrays from `j` to `end`, within `now` of them, where `most` is
/// the depth so far.
pub open spec fn depth_from(t: Seq<TokenView>, j: int, end: int, now: nat, most: nat) -> nat
    decreases end - j,
{
    if j < 0 || j >= end || j >= t.len() {
        most
    } else if mark_at(t, j, '{') || mark_at(t, j, '[') {
        depth_from(
            t,
            j + 1,
            end,
            now + 1,
            if now + 1 > most {
                now + 1
            } else {
                most
            },
        )
    } else if mark_at(t, j, '}') || mark_at(t, j, ']') {
        depth_from(
            t,
            j + 1,
            end,
            if now > 0 {
                (now - 1) as nat
            } else {
                0
            },
            most,
        )
    } else {
        depth_from(t, j + 1, end, now, most)
    }
}

/// How deep the objects and arrays of the value at `p` lie in one another.
pub open spec fn depth_of(t: Seq<TokenView>, p: int) -> nat {
    depth_from(t, p, behind(t, p), 0, 0)
}

fn measure(t: &Vec<Token>, p: usize) -> (r: usize)
    requires
        p < t@.len(),
    ensures
        r as nat == depth_of(token_views(t@), p as int),
{
    let ghost v = token_views(t@);
    let end: usize = outline::skip(t, p);
    let mut now: usize = 0;
    let mut most: usize = 0;
    let mut j: usize = p;
    while j < end
        invariant
            p <= j <= end <= t@.len(),
            v == token_views(t@),
            now <= j,
            depth_from(v, p as int, end as int, 0, 0) == depth_from(
                v,
                j as int,
                end as int,
                now as nat,
                most as nat,
            ),
        decreases end - j,
    {
        if has_mark(t, j, '{') || has_mark(t, j, '[') {
            now = now + 1;
            if now > most {
                most = now;
            }
        } else if has_mark(t, j, '}') || has_mark(t, j, ']') {
            if now > 0 {
                now = now - 1;
            }
        }
        j = j + 1;
    }
    most
}

fn has_object(t: &Vec<Token>, p: usize) -> (r: bool)
    requires
        p < t@.len(),
    ensures
        r == holds_object(token_views(t@), p as int),
{
    let ghost v = token_views(t@);
    let end: usize = outline::skip(t, p);
    let mut j: usize = p;
    while j < end
        invariant
            p <= j <= end <= t@.len(),
            v == token_views(t@),
            end as int == behind(v, p as int),
            forall|q: int| p <= q < j ==> !#[trigger] mark_at(v, q, '{'),
        decreases end - j,
    {
        if has_mark(t, j, '{') {
            return true;
        }
        j = j + 1;
    }
    false
}

// ---- what a default value leads to ---------------------------------------------------------

/// What is left of `b` steps after a value is tried against the schema at `p`: one whose objects
/// and arrays go `n` deep, or any that the schema can have, if `all`. Nothing is left where it
/// takes more steps than that, or goes deeper than `d`. A value without depth opens no record.
/// A union tries its variants up to three times.
pub open spec fn settled(
    t: Seq<TokenView>,
    records: Seq<(Seq<char>, int)>,
    p: int,
    n: nat,
    all: bool,
    d: nat,
    b: nat,
) -> nat
    decreases d, 0int, 0int,
{
    if b == 0 {
        0
    } else if !all && n == 0 {
        b
    } else if d == 0 {
        0
    } else {
        let e = (d - 1) as nat;
        let b1 = match name_at(t, p) {
            Some(name) => settled_name(t, records, name, n, all, e, (b - 1) as nat),
            None => (b - 1) as nat,
        };
        match node_at(t, p) {
            NodeView::Leaf => b1,
            NodeView::Union(j) => {
                let b2 = settled_each(t, records, j, n, all, e, b1);
                let b3 = settled_each(t, records, j, n, all, e, b2);
                settled_each(t, records, j, n, all, e, b3)
            },
            NodeView::Inner(q, deeper) => settled(
                t,
                records,
                q,
                if deeper {
                    below(n)
                } else {
                    n
                },
                all,
                e,
                b1,
            ),
            NodeView::Record => settled_record(t, records, p, n, all, e, b1),
        }
    }
}

pub open spec fn below(n: nat) -> nat {
    if n > 0 {
        (n - 1) as nat
    } else {
        0
    }
}

/// The same of the record that a name means.
pub open spec fn settled_name(
    t: Seq<TokenView>,
    records: Seq<(Seq<char>, int)>,
    name: Seq<char>,
    n: nat,
    all: bool,
    d: nat,
    b: nat,
) -> nat
    decreases d, 3int, 0int,
{
    match meant(records, name) {
        None => b,
        Some(q) => if unclear(records, name) {
            0
        } else {
            settled_record(t, records, q, n, all, d, b)
        },
    }
}

/// The same of the record that is described at `p`.
pub open spec fn settled_record(
    t: Seq<TokenView>,
    records: Seq<(Seq<char>, int)>,
    p: int,
    n: nat,
    all: bool,
    d: nat,
    b: nat,
) -> nat
    decreases d, 2int, 0int,
{
    match of(t, p, "fields"@) {
        Some(f) => if mark_at(t, f, '[') {
            settled_fields(t, records, f + 1, n, all, d, b)
        } else {
            b
        },
        None => b,
    }
}

/// The same of the variants of a union, from `j` on.
pub open spec fn settled_each(
    t: Seq<TokenView>,
    records: Seq<(Seq<char>, int)>,
    j: int,
    n: nat,
    all: bool,
    d: nat,
    b: nat,
) -> nat
    decreases d, 1int, t.len() - j,
{
    if !(0 <= j < t.len()) || mark_at(t, j, ']') {
        b
    } else {
        let next = behind(t, j);
        let b1 = settled(t, records, j, n, all, d, b);
        if j < next && mark_at(t, next, ',') {
            settled_each(t, records, next + 1, n, all, d, b1)
        } else {
            b1
        }
    }
}

/// The same of the fields of a record, from `j` on.
pub open spec fn settled_fields(
    t: Seq<TokenView>,
    records: Seq<(Seq<char>, int)>,
    j: int,
    n: nat,
    all: bool,
    d: nat,
    b: nat,
) -> nat
    decreases d, 1int, t.len() - j,
{
    if !(0 <= j < t.len()) || mark_at(t, j, ']') {
        b
    } else {
        let next = behind(t, j);
        let b1 = settled_field(t, records, j, n, all, d, b);
        if j < next && mark_at(t, next, ',') {
            settled_fields(t, records, next + 1, n, all, d, b1)
        } else {
            b1
        }
    }
}

/// The value at `v` is or holds an object.
pub open spec fn holds_object(t: Seq<TokenView>, v: int) -> bool {
    exists|q: int| v <= q < behind(t, v) && #[trigger] mark_at(t, q, '{')
}

/// The value at `v` may be filled in, and is then tried once more against the schema at `p`, as
/// it is then.
pub open spec fn tries_again(t: Seq<TokenView>, p: int, v: int) -> bool {
    holds_object(t, v) && match node_at(t, p) {
        NodeView::Union(_) => true,
        NodeView::Inner(_, deeper) => !deeper,
        _ => false,
    }
}

/// The same of the field that is described at `p`: of what the value has of it, and of its own
/// default value, if the value leaves it out.
pub open spec fn settled_field(
    t: Seq<TokenView>,
    records: Seq<(Seq<char>, int)>,
    p: int,
    n: nat,
    all: bool,
    d: nat,
    b: nat,
) -> nat
    decreases d, 0int, 1int,
{
    match of(t, p, "type"@) {
        None => b,
        Some(q) => {
            let b1 = settled(t, records, q, below(n), all, d, b);
            match of(t, p, "default"@) {
                None => b1,
                Some(v) => {
                    if all {
                        b1
                    } else if tries_again(t, q, v) {
                        settled(t, records, q, 0, true, d, b1)
                    } else {
                        settled(t, records, q, depth_of(t, v), false, d, b1)
                    }
                },
            }
        },
    }
}

fn settle(
    t: &Vec<Token>,
    records: &Vec<(Vec<char>, usize)>,
    p: usize,
    n: usize,
    all: bool,
    d: usize,
    b: usize,
) -> (r: usize)
    ensures
        r as nat == settled(
            token_views(t@),
            name_views(records@),
            p as int,
            n as nat,
            all,
            d as nat,
            b as nat,
        ),
    decreases d, 0int, 0int,
{
    if b == 0 {
        return 0;
    }
    if !all && n == 0 {
        return b;
    }
    if d == 0 {
        return 0;
    }
    let b1: usize = match find_name(t, p) {
        Some(name) => settle_name(t, records, &name, n, all, d - 1, b - 1),
        None => b - 1,
    };
    match node(t, p) {
        Node::Leaf => b1,
        Node::Union(j) => {
            let b2: usize = settle_each(t, records, j, n, all, d - 1, b1);
            let b3: usize = settle_each(t, records, j, n, all, d - 1, b2);
            settle_each(t, records, j, n, all, d - 1, b3)
        },
        Node::Inner(q, deeper) => {
            let m: usize = if deeper && n > 0 {
                n - 1
            } else {
                n
            };
            settle(t, records, q, m, all, d - 1, b1)
        },
        Node::Record => settle_record(t, records, p, n, all, d - 1, b1),
    }
}

fn settle_name(
    t: &Vec<Token>,
    records: &Vec<(Vec<char>, usize)>,
    name: &Vec<char>,
    n: usize,
    all: bool,
    d: usize,
    b: usize,
) -> (r: usize)
    ensures
        r as nat == settled_name(
            token_views(t@),
            name_views(records@),
            name@,
            n as nat,
            all,
            d as nat,
            b as nat,
        ),
    decreases d, 3int, 0int,
{
    match look_up(records, name) {
        Ok(Some(q)) => settle_record(t, records, q, n, all, d, b),
        Ok(None) => b,
        Err(_) => 0,
    }
}

fn settle_record(
    t: &Vec<Token>,
    records: &Vec<(Vec<char>, usize)>,
    p: usize,
    n: usize,
    all: bool,
    d: usize,
    b: usize,
) -> (r: usize)
    ensures
        r as nat == settled_record(
            token_views(t@),
            name_views(records@),
            p as int,
            n as nat,
            all,
            d as nat,
            b as nat,
        ),
    decreases d, 2int, 0int,
{
    if p >= t.len() {
        return b;
    }
    match find(t, p, "fields") {
        Some(f) => {
            assert(f < t.len());
            if has_mark(t, f, '[') {
                settle_fields(t, records, f + 1, n, all, d, b)
            } else {
                b
            }
        },
        None => b,
    }
}

fn settle_each(
    t: &Vec<Token>,
    records: &Vec<(Vec<char>, usize)>,
    start: usize,
    n: usize,
    all: bool,
    d: usize,
    b: usize,
) -> (r: usize)
    requires
        start <= t@.len(),
    ensures
        r as nat == settled_each(
            token_views(t@),
            name_views(records@),
            start as int,
            n as nat,
            all,
            d as nat,
            b as nat,
        ),
    decreases d, 1int, 0int,
{
    let ghost v = token_views(t@);
    let ghost rs = name_views(records@);
    let mut left: usize = b;
    let mut j: usize = start;
    while j < t.len() && !has_mark(t, j, ']')
        invariant
            start <= j <= t@.len(),
            v == token_views(t@),
            rs == name_views(records@),
            settled_each(v, rs, start as int, n as nat, all, d as nat, b as nat) == settled_each(
                v,
                rs,
                j as int,
                n as nat,
                all,
                d as nat,
                left as nat,
            ),
        decreases t@.len() - j,
    {
        left = settle(t, records, j, n, all, d, left);
        let next: usize = outline::skip(t, j);
        if !has_mark(t, next, ',') {
            return left;
        }
        j = next + 1;
    }
    left
}

fn settle_fields(
    t: &Vec<Token>,
    records: &Vec<(Vec<char>, usize)>,
    start: usize,
    n: usize,
    all: bool,
    d: usize,
    b: usize,
) -> (r: usize)
    requires
        start <= t@.len(),
    ensures
        r as nat == settled_fields(
            token_views(t@),
            name_views(records@),
            start as int,
            n as nat,
            all,
            d as nat,
            b as nat,
        ),
    decreases d, 1int, 0int,
{
    let ghost v = token_views(t@);
    let ghost rs = name_views(records@);
    let mut left: usize = b;
    let mut j: usize = start;
    while j < t.len() && !has_mark(t, j, ']')
        invariant
            start <= j <= t@.len(),
            v == token_views(t@),
            rs == name_views(records@),
            settled_fields(v, rs, start as int, n as nat, all, d as nat, b as nat)
                == settled_fields(v, rs, j as int, n as nat, all, d as nat, left as nat),
        decreases t@.len() - j,
    {
        left = settle_field(t, records, j, n, all, d, left);
        let next: usize = outline::skip(t, j);
        if !has_mark(t, next, ',') {
            return left;
        }
        j = next + 1;
    }
    left
}

fn settle_field(
    t: &Vec<Token>,
    records: &Vec<(Vec<char>, usize)>,
    p: usize,
    n: usize,
    all: bool,
    d: usize,
    b: usize,
) -> (r: usize)
    requires
        p < t@.len(),
    ensures
        r as nat == settled_field(
            token_views(t@),
            name_views(records@),
            p as int,
            n as nat,
            all,
            d as nat,
            b as nat,
        ),
    decreases d, 0int, 1int,
{
    let q: usize = match find(t, p, "type") {
        None => {
            return b;
        },
        Some(q) => q,
    };
    let m: usize = if n > 0 {
        n - 1
    } else {
        0
    };
    let b1: usize = settle(t, records, q, m, all, d, b);
    match find(t, p, "default") {
        None => b1,
        Some(v) => {
            let again: bool = has_object(t, v) && match node(t, q) {
                Node::Union(_) => true,
                Node::Inner(_, deeper) => !deeper,
                _ => false,
            };
            if all {
                b1
            } else if again {
                settle(t, records, q, 0, true, d, b1)
            } else {
                settle(t, records, q, measure(t, v), false, d, b1)
            }
        },
    }
}

// ---- what a type is written out as ---------------------------------------------------------

/// What is left of the steps, and the records that were written out.
#[verifier::ext_equal]
pub ghost struct Grown {
    pub left: nat,
    pub seen: Seq<int>,
}

/// What is left of the steps after the schema at `p` was written out, every record that it
/// means in place of its name the first time. Nothing is left where that takes more steps, or
/// goes deeper than `d`.
pub open spec fn grown(
    t: Seq<TokenView>,
    records: Seq<(Seq<char>, int)>,
    p: int,
    d: nat,
    g: Grown,
) -> Grown
    decreases d, 0int, 0int,
{
    if g.left == 0 || d == 0 {
        Grown { left: 0, ..g }
    } else {
        let e = (d - 1) as nat;
        let g0 = Grown { left: (g.left - 1) as nat, ..g };
        let g1 = match name_at(t, p) {
            Some(name) => grown_name(t, records, name, e, g0),
            None => g0,
        };
        match node_at(t, p) {
            NodeView::Leaf => g1,
            NodeView::Union(j) => grown_each(t, records, j, false, e, g1),
            NodeView::Inner(q, _) => grown(t, records, q, e, g1),
            NodeView::Record => grown_record(t, records, p, e, g1),
        }
    }
}

/// The same of the record that a name means.
pub open spec fn grown_name(
    t: Seq<TokenView>,
    records: Seq<(Seq<char>, int)>,
    name: Seq<char>,
    d: nat,
    g: Grown,
) -> Grown
    decreases d, 3int, 0int,
{
    match meant(records, name) {
        None => g,
        Some(q) => if unclear(records, name) {
            Grown { left: 0, ..g }
        } else {
            grown_record(t, records, q, d, g)
        },
    }
}

/// The same of the record that is described at `p`.
pub open spec fn grown_record(
    t: Seq<TokenView>,
    records: Seq<(Seq<char>, int)>,
    p: int,
    d: nat,
    g: Grown,
) -> Grown
    decreases d, 2int, 0int,
{
    if g.seen.contains(p) {
        g
    } else {
        let g1 = Grown { seen: g.seen.push(p), ..g };
        match of(t, p, "fields"@) {
            Some(f) => if mark_at(t, f, '[') {
                grown_each(t, records, f + 1, true, d, g1)
            } else {
                g1
            },
            None => g1,
        }
    }
}

/// The same of the variants of a union, or of the types of a record's fields, from `j` on.
pub open spec fn grown_each(
    t: Seq<TokenView>,
    records: Seq<(Seq<char>, int)>,
    j: int,
    fields: bool,
    d: nat,
    g: Grown,
) -> Grown
    decreases d, 1int, t.len() - j,
{
    if !(0 <= j < t.len()) || mark_at(t, j, ']') {
        g
    } else {
        let next = behind(t, j);
        let g1 = if !fields {
            grown(t, records, j, d, g)
        } else {
            match of(t, j, "type"@) {
                Some(q) => grown(t, records, q, d, g),
                None => g,
            }
        };
        if j < next && mark_at(t, next, ',') {
            grown_each(t, records, next + 1, fields, d, g1)
        } else {
            g1
        }
    }
}

pub open spec fn places(v: Seq<usize>) -> Seq<int> {
    v.map_values(|p: usize| p as int)
}

fn has_place(v: &Vec<usize>, p: usize) -> (r: bool)
    ensures
        r == places(v@).contains(p as int),
{
    let mut i: usize = 0;
    while i < v.len()
        invariant
            i <= v@.len(),
            forall|j: int| 0 <= j < i ==> v@[j] != p,
        decreases v@.len() - i,
    {
        if v[i] == p {
            assert(places(v@)[i as int] == p as int);
            return true;
        }
        i = i + 1;
    }
    false
}

fn grow(
    t: &Vec<Token>,
    records: &Vec<(Vec<char>, usize)>,
    p: usize,
    d: usize,
    left: usize,
    seen: &mut Vec<usize>,
) -> (r: usize)
    ensures
        (Grown { left: r as nat, seen: places(final(seen)@) }) == grown(
            token_views(t@),
            name_views(records@),
            p as int,
            d as nat,
            (Grown { left: left as nat, seen: places(old(seen)@) }),
        ),
    decreases d, 0int, 0int,
{
    if left == 0 || d == 0 {
        return 0;
    }
    let left: usize = match find_name(t, p) {
        Some(name) => grow_name(t, records, &name, d - 1, left - 1, seen),
        None => left - 1,
    };
    match node(t, p) {
        Node::Leaf => left,
        Node::Union(j) => grow_each(t, records, j, false, d - 1, left, seen),
        Node::Inner(q, _) => grow(t, records, q, d - 1, left, seen),
        Node::Record => grow_record(t, records, p, d - 1, left, seen),
    }
}

fn grow_name(
    t: &Vec<Token>,
    records: &Vec<(Vec<char>, usize)>,
    name: &Vec<char>,
    d: usize,
    left: usize,
    seen: &mut Vec<usize>,
) -> (r: usize)
    ensures
        (Grown { left: r as nat, seen: places(final(seen)@) }) == grown_name(
            token_views(t@),
            name_views(records@),
            name@,
            d as nat,
            (Grown { left: left as nat, seen: places(old(seen)@) }),
        ),
    decreases d, 3int, 0int,
{
    match look_up(records, name) {
        Ok(Some(q)) => grow_record(t, records, q, d, left, seen),
        Ok(None) => left,
        Err(_) => 0,
    }
}

fn grow_record(
    t: &Vec<Token>,
    records: &Vec<(Vec<char>, usize)>,
    p: usize,
    d: usize,
    left: usize,
    seen: &mut Vec<usize>,
) -> (r: usize)
    ensures
        (Grown { left: r as nat, seen: places(final(seen)@) }) == grown_record(
            token_views(t@),
            name_views(records@),
            p as int,
            d as nat,
            (Grown { left: left as nat, seen: places(old(seen)@) }),
        ),
    decreases d, 2int, 0int,
{
    if has_place(seen, p) {
        return left;
    }
    seen.push(p);
    assert(places(seen@) =~= places(old(seen)@).push(p as int));
    if p >= t.len() {
        return left;
    }
    match find(t, p, "fields") {
        Some(f) => {
            assert(f < t.len());
            if has_mark(t, f, '[') {
                grow_each(t, records, f + 1, true, d, left, seen)
            } else {
                left
            }
        },
        None => left,
    }
}

fn grow_each(
    t: &Vec<Token>,
    records: &Vec<(Vec<char>, usize)>,
    start: usize,
    fields: bool,
    d: usize,
    left: usize,
    seen: &mut Vec<usize>,
) -> (r: usize)
    requires
        start <= t@.len(),
    ensures
        (Grown { left: r as nat, seen: places(final(seen)@) }) == grown_each(
            token_views(t@),
            name_views(records@),
            start as int,
            fields,
            d as nat,
            (Grown { left: left as nat, seen: places(old(seen)@) }),
        ),
    decreases d, 1int, 0int,
{
    let ghost v = token_views(t@);
    let ghost rs = name_views(records@);
    let ghost whole = grown_each(
        v,
        rs,
        start as int,
        fields,
        d as nat,
        (Grown { left: left as nat, seen: places(seen@) }),
    );
    let mut rest: usize = left;
    let mut j: usize = start;
    while j < t.len() && !has_mark(t, j, ']')
        invariant
            start <= j <= t@.len(),
            v == token_views(t@),
            rs == name_views(records@),
            whole == grown_each(
                v,
                rs,
                start as int,
                fields,
                d as nat,
                (Grown { left: left as nat, seen: places(old(seen)@) }),
            ),
            whole == grown_each(
                v,
                rs,
                j as int,
                fields,
                d as nat,
                (Grown { left: rest as nat, seen: places(seen@) }),
            ),
        decreases t@.len() - j,
    {
        if !fields {
            rest = grow(t, records, j, d, rest, seen);
        } else {
            match find(t, j, "type") {
                Some(q) => {
                    rest = grow(t, records, q, d, rest, seen);
                },
                None => {},
            }
        }
        let next: usize = outline::skip(t, j);
        if !has_mark(t, next, ',') {
            return rest;
        }
        j = next + 1;
    }
    rest
}

// ---- all default values --------------------------------------------------------------------

/// What is left of `b` steps after the default value of the field that is described at `p`.
pub open spec fn spent_field(
    t: Seq<TokenView>,
    records: Seq<(Seq<char>, int)>,
    p: int,
    b: nat,
) -> nat {
    match (of(t, p, "type"@), of(t, p, "default"@)) {
        (Some(q), Some(v)) => {
            let b1 = grown(
                t,
                records,
                q,
                DEPTH as nat,
                (Grown { left: b, seen: Seq::empty() }),
            ).left;
            settled(t, records, q, depth_of(t, v), false, DEPTH as nat, b1)
        },
        _ => b,
    }
}

/// The same of the fields of a record, from `j` on.
pub open spec fn spent_fields(
    t: Seq<TokenView>,
    records: Seq<(Seq<char>, int)>,
    j: int,
    b: nat,
) -> nat
    decreases t.len() - j,
{
    if !(0 <= j < t.len()) || mark_at(t, j, ']') {
        b
    } else {
        let next = behind(t, j);
        let b1 = spent_field(t, records, j, b);
        if j < next && mark_at(t, next, ',') {
            spent_fields(t, records, next + 1, b1)
        } else {
            b1
        }
    }
}

/// The same of the record that is described at `p`.
pub open spec fn spent_record(
    t: Seq<TokenView>,
    records: Seq<(Seq<char>, int)>,
    p: int,
    b: nat,
) -> nat {
    match of(t, p, "fields"@) {
        Some(f) => if mark_at(t, f, '[') {
            spent_fields(t, records, f + 1, b)
        } else {
            b
        },
        None => b,
    }
}

/// The same of the first `n` of the records.
pub open spec fn spent(
    t: Seq<TokenView>,
    records: Seq<(Seq<char>, int)>,
    n: nat,
    b: nat,
) -> nat
    decreases n,
{
    if n == 0 || n > records.len() {
        b
    } else {
        spent_record(t, records, records[n - 1].1, spent(t, records, (n - 1) as nat, b))
    }
}

/// The default values of a text come to an end, within the bounds on their steps and depth.
pub open spec fn defaults_end(t: Seq<TokenView>) -> bool {
    let records = outline::record_names(t);
    spent(t, records, records.len(), WORK as nat) > 0
}

fn spend_field(t: &Vec<Token>, records: &Vec<(Vec<char>, usize)>, p: usize, b: usize) -> (r: usize)
    requires
        p < t@.len(),
    ensures
        r as nat == spent_field(token_views(t@), name_views(records@), p as int, b as nat),
{
    match (find(t, p, "type"), find(t, p, "default")) {
        (Some(q), Some(v)) => {
            let mut seen: Vec<usize> = Vec::new();
            assert(places(seen@) =~= Seq::<int>::empty());
            let b1: usize = grow(t, records, q, DEPTH, b, &mut seen);
            settle(t, records, q, measure(t, v), false, DEPTH, b1)
        },
        _ => b,
    }
}

fn spend_record(t: &Vec<Token>, records: &Vec<(Vec<char>, usize)>, p: usize, b: usize) -> (r: usize)
    ensures
        r as nat == spent_record(token_views(t@), name_views(records@), p as int, b as nat),
{
    if p >= t.len() {
        return b;
    }
    let start: usize = match find(t, p, "fields") {
        Some(f) => {
            if !has_mark(t, f, '[') {
                return b;
            }
            assert(f < t.len());
            f + 1
        },
        None => {
            return b;
        },
    };
    let ghost v = token_views(t@);
    let ghost rs = name_views(records@);
    let mut left: usize = b;
    let mut j: usize = start;
    while j < t.len() && !has_mark(t, j, ']')
        invariant
            start <= j <= t@.len(),
            v == token_views(t@),
            rs == name_views(records@),
            spent_record(v, rs, p as int, b as nat) == spent_fields(v, rs, j as int, left as nat),
        decreases t@.len() - j,
    {
        left = spend_field(t, records, j, left);
        let next: usize = outline::skip(t, j);
        if !has_mark(t, next, ',') {
            return left;
        }
        j = next + 1;
    }
    left
}

/// Whether the default values of a text come to an end.
pub(crate) fn check_defaults(t: &Vec<Token>) -> (r: bool)
    ensures
        r == defaults_end(token_views(t@)),
{
    let records: Vec<(Vec<char>, usize)> = outline::find_records(t);
    let ghost v = token_views(t@);
    let ghost rs = name_views(records@);
    let mut left: usize = WORK;
    let mut i: usize = 0;
    while i < records.len()
        invariant
            i <= records@.len(),
            v == token_views(t@),
            rs == name_views(records@),
            left as nat == spent(v, rs, i as nat, WORK as nat),
        decreases records@.len() - i,
    {
        assert(rs[i as int].1 == records@[i as int].1);
        left = spend_record(t, &records, records[i].1, left);
        i = i + 1;
    }
    left > 0
}

} // verus!
