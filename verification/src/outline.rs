//! The outline of a schema text: which texts the Avro library can take.
//!
//! The Avro library builds a schema's canonical form from the members that the Avro format
//! keeps, and takes for granted that these hold what they hold in a valid schema. A schema may
//! carry any other member besides, and a kept name may stand where the format does not
//! expect it. The texts on which the canonical form is defined are told apart here, by their
//! tokens. So are the texts in which a record can be found by its name.
use vstd::prelude::*;

use crate::json;
use crate::json::{token_views, Token, TokenView};
use crate::text;
use crate::unfold;

verus! {

/// How deep the values of a text may lie in one another. The Avro library reads no deeper text.
pub const DEPTH: usize = 128;

/// The least number of bytes whose bits do not fit 32 bits with a sign.
pub const MANY_BYTES: usize = 0x1000_0000;

/// The least number of characters that can take so many bytes.
pub const MANY_CHARS: usize = 0x400_0000;

// ---- values and members --------------------------------------------------------------------

pub open spec fn mark_at(t: Seq<TokenView>, p: int, c: char) -> bool {
    0 <= p < t.len() && t[p] == TokenView::Mark(c)
}

pub open spec fn literal_at(t: Seq<TokenView>, p: int, s: Seq<char>) -> bool {
    0 <= p < t.len() && t[p] == TokenView::Literal(s)
}

/// The position behind the mark that closes `depth` objects and arrays, from `j` on.
pub open spec fn closing(t: Seq<TokenView>, j: int, depth: nat) -> int
    decreases t.len() - j,
{
    if j < 0 || j >= t.len() {
        t.len() as int
    } else if mark_at(t, j, '{') || mark_at(t, j, '[') {
        closing(t, j + 1, depth + 1)
    } else if mark_at(t, j, '}') || mark_at(t, j, ']') {
        if depth <= 1 {
            j + 1
        } else {
            closing(t, j + 1, (depth - 1) as nat)
        }
    } else {
        closing(t, j + 1, depth)
    }
}

/// The position behind the value at `p`.
pub open spec fn behind(t: Seq<TokenView>, p: int) -> int {
    if mark_at(t, p, '{') || mark_at(t, p, '[') {
        closing(t, p + 1, 1)
    } else {
        p + 1
    }
}

/// A member begins at `j`: a key and a colon.
pub open spec fn key_at(t: Seq<TokenView>, j: int) -> bool {
    0 <= j && j + 2 < t.len() && t[j] is Literal && mark_at(t, j + 1, ':')
}

/// Where the value of the last member `k` stands, among the members from `j` on.
pub open spec fn member(t: Seq<TokenView>, j: int, k: Seq<char>) -> Option<int>
    decreases t.len() - j,
{
    if !key_at(t, j) {
        None
    } else {
        let n = behind(t, j + 2);
        let later = if j < n && mark_at(t, n, ',') {
            member(t, n + 1, k)
        } else {
            None
        };
        if later is Some {
            later
        } else if literal_at(t, j, k) {
            Some(j + 2)
        } else {
            None
        }
    }
}

/// Where the value of the member `k` of the object at `p` stands.
pub open spec fn of(t: Seq<TokenView>, p: int, k: Seq<char>) -> Option<int> {
    member(t, p + 1, k)
}

pub(crate) fn has_mark(t: &Vec<Token>, p: usize, c: char) -> (r: bool)
    ensures
        r == mark_at(token_views(t@), p as int, c),
{
    if p >= t.len() {
        return false;
    }
    assert(token_views(t@)[p as int] == t@[p as int]@);
    match &t[p] {
        Token::Mark(m) => *m == c,
        _ => false,
    }
}

pub(crate) fn has_literal(t: &Vec<Token>, p: usize, s: &str) -> (r: bool)
    ensures
        r == literal_at(token_views(t@), p as int, s@),
{
    if p >= t.len() {
        return false;
    }
    assert(token_views(t@)[p as int] == t@[p as int]@);
    match &t[p] {
        Token::Literal(l) => text::is_text(l, s),
        _ => false,
    }
}

pub(crate) fn skip(t: &Vec<Token>, p: usize) -> (r: usize)
    requires
        p < t@.len(),
    ensures
        r as int == behind(token_views(t@), p as int),
        p < r <= t@.len(),
{
    let ghost v = token_views(t@);
    assert(p < t.len());
    if !has_mark(t, p, '{') && !has_mark(t, p, '[') {
        return p + 1;
    }
    let mut depth: usize = 1;
    let mut j: usize = p + 1;
    while j < t.len()
        invariant
            p < j <= t@.len(),
            v == token_views(t@),
            1 <= depth <= j,
            mark_at(v, p as int, '{') || mark_at(v, p as int, '['),
            closing(v, p + 1, 1) == closing(v, j as int, depth as nat),
        decreases t@.len() - j,
    {
        if has_mark(t, j, '{') || has_mark(t, j, '[') {
            depth = depth + 1;
        } else if has_mark(t, j, '}') || has_mark(t, j, ']') {
            if depth == 1 {
                return j + 1;
            }
            depth = depth - 1;
        }
        j = j + 1;
    }
    j
}

pub(crate) fn find(t: &Vec<Token>, p: usize, k: &str) -> (r: Option<usize>)
    requires
        p < t@.len(),
    ensures
        match r {
            Some(q) => of(token_views(t@), p as int, k@) == Some(q as int) && p < q < t@.len(),
            None => of(token_views(t@), p as int, k@) is None,
        },
{
    let ghost v = token_views(t@);
    assert(p < t.len());
    let mut found: Option<usize> = None;
    let mut j: usize = p + 1;
    loop
        invariant
            p < j <= t@.len(),
            v == token_views(t@),
            found matches Some(q) ==> p < q < t@.len(),
            member(v, p + 1, k@) == (match member(v, j as int, k@) {
                Some(q) => Some(q),
                None => match found {
                    Some(q) => Some(q as int),
                    None => None,
                },
            }),
        decreases t@.len() - j,
    {
        if j >= t.len() || t.len() - j <= 2 || !has_mark(t, j + 1, ':') {
            return found;
        }
        assert(v[j as int] == t@[j as int]@);
        match &t[j] {
            Token::Literal(_) => {},
            _ => {
                return found;
            },
        }
        if has_literal(t, j, k) {
            found = Some(j + 2);
        }
        let n: usize = skip(t, j + 2);
        if !has_mark(t, n, ',') {
            return found;
        }
        j = n + 1;
    }
}

// ---- the canonical form --------------------------------------------------------------------

/// What a value is: a schema, a field of a record, or one that the canonical form writes out
/// as it is.
#[derive(Clone, Copy, Debug, PartialEq, Eq, Structural)]
pub enum Role {
    Schema,
    Field,
    Kept,
}

/// The member `k` of the object at `p`, if there is one, can be written out as a number.
pub open spec fn numeric(t: Seq<TokenView>, p: int, k: Seq<char>) -> bool {
    match of(t, p, k) {
        None => true,
        Some(q) => match t[q] {
            TokenView::Word(w) => json::whole_word(w),
            TokenView::Literal(l) => json::whole_literal(l),
            TokenView::Mark(_) => false,
        },
    }
}

/// The member `k` of the object at `p` is a number that is taken, and not written out.
pub open spec fn outsized(t: Seq<TokenView>, p: int, k: Seq<char>) -> bool {
    of(t, p, k) matches Some(q) && t[q] matches TokenView::Word(w) && json::large_word(w)
}

/// The object at `p` says that it has this type.
pub open spec fn has_type(t: Seq<TokenView>, p: int, name: Seq<char>) -> bool {
    of(t, p, "type"@) matches Some(q) && literal_at(t, q, name)
}

/// The canonical form of what stands at `p` is defined.
pub open spec fn fits(t: Seq<TokenView>, p: int, role: Role, d: nat) -> bool
    decreases d, 0int, 0int,
{
    if d == 0 || !(0 <= p < t.len()) {
        true
    } else {
        let e = (d - 1) as nat;
        match t[p] {
            TokenView::Literal(_) => true,
            TokenView::Word(_) => role != Role::Kept,
            TokenView::Mark(c) => if c == '[' {
                role == Role::Field || each_fits(t, p + 1, role, e)
            } else if c == '{' {
                match role {
                    Role::Schema => schema_fits(t, p, e),
                    Role::Field => under_fits(t, p, "type"@, Role::Schema, e) && extras_fit(
                        t,
                        p,
                        ""@,
                        e,
                    ),
                    Role::Kept => {
                        &&& under_fits(t, p, "type"@, Role::Kept, e)
                        &&& extras_fit(t, p, ""@, e)
                        &&& has_type(t, p, "record"@) || has_type(t, p, "enum"@) || has_type(
                            t,
                            p,
                            "fixed"@,
                        ) || has_type(t, p, "ref"@) || under_fits(t, p, "name"@, Role::Kept, e)
                    },
                }
            } else {
                true
            },
        }
    }
}

/// So is that of every value of an array, from `j` on.
pub open spec fn each_fits(t: Seq<TokenView>, j: int, role: Role, d: nat) -> bool
    decreases d, 1int, t.len() - j,
{
    if !(0 <= j < t.len()) || mark_at(t, j, ']') {
        true
    } else {
        let n = behind(t, j);
        &&& fits(t, j, role, d)
        &&& j < n && mark_at(t, n, ',') ==> each_fits(t, n + 1, role, d)
    }
}

/// So is that of the member `k` of the object at `p`, if there is one.
pub open spec fn under_fits(t: Seq<TokenView>, p: int, k: Seq<char>, role: Role, d: nat) -> bool
    decreases d, 1int, 0int,
{
    match of(t, p, k) {
        None => true,
        Some(q) => fits(t, q, role, d),
    }
}

/// So is that of the members of the object at `p` that its type does not call for, where its
/// type calls for `own`.
pub open spec fn extras_fit(t: Seq<TokenView>, p: int, own: Seq<char>, d: nat) -> bool
    decreases d, 2int, 0int,
{
    &&& own == "fields"@ || under_fits(t, p, "fields"@, Role::Kept, d)
    &&& own == "symbols"@ || under_fits(t, p, "symbols"@, Role::Kept, d)
    &&& own == "items"@ || under_fits(t, p, "items"@, Role::Kept, d)
    &&& own == "values"@ || under_fits(t, p, "values"@, Role::Kept, d)
    &&& under_fits(t, p, "order"@, Role::Kept, d)
    &&& own == "size"@ || numeric(t, p, "size"@)
    &&& numeric(t, p, "precision"@)
    &&& numeric(t, p, "scale"@)
}

/// So is that of the schema that the object at `p` is.
pub open spec fn schema_fits(t: Seq<TokenView>, p: int, d: nat) -> bool
    decreases d, 3int, 0int,
{
    &&& (of(t, p, "logicalType"@) matches Some(q) && literal_at(t, q, "decimal"@)) ==> !outsized(
        t,
        p,
        "precision"@,
    )
    &&& match of(t, p, "type"@) {
        None => true,
        Some(q) => match t[q] {
            TokenView::Word(_) => true,
            TokenView::Mark(_) => fits(t, q, Role::Schema, d),
            TokenView::Literal(l) => if l == "record"@ {
                extras_fit(t, p, "fields"@, d) && match of(t, p, "fields"@) {
                    None => true,
                    Some(f) => mark_at(t, f, '[') ==> each_fits(t, f + 1, Role::Field, d),
                }
            } else if l == "enum"@ {
                extras_fit(t, p, "symbols"@, d)
            } else if l == "array"@ {
                extras_fit(t, p, "items"@, d) && under_fits(t, p, "items"@, Role::Schema, d)
            } else if l == "map"@ {
                extras_fit(t, p, "values"@, d) && under_fits(t, p, "values"@, Role::Schema, d)
            } else if l == "fixed"@ {
                extras_fit(t, p, "size"@, d) && !outsized(t, p, "size"@)
            } else {
                true
            },
        },
    }
}

fn is_numeric(t: &Vec<Token>, p: usize, k: &str) -> (r: bool)
    requires
        p < t@.len(),
    ensures
        r == numeric(token_views(t@), p as int, k@),
{
    match find(t, p, k) {
        None => true,
        Some(q) => {
            assert(token_views(t@)[q as int] == t@[q as int]@);
            match &t[q] {
                Token::Word(w) => json::is_whole_word(w),
                Token::Literal(l) => json::is_whole_literal(l),
                Token::Mark(_) => false,
            }
        },
    }
}

fn is_outsized(t: &Vec<Token>, p: usize, k: &str) -> (r: bool)
    requires
        p < t@.len(),
    ensures
        r == outsized(token_views(t@), p as int, k@),
{
    match find(t, p, k) {
        None => false,
        Some(q) => {
            assert(token_views(t@)[q as int] == t@[q as int]@);
            match &t[q] {
                Token::Word(w) => json::is_large_word(w),
                _ => false,
            }
        },
    }
}

fn says_type(t: &Vec<Token>, p: usize, name: &str) -> (r: bool)
    requires
        p < t@.len(),
    ensures
        r == has_type(token_views(t@), p as int, name@),
{
    match find(t, p, "type") {
        None => false,
        Some(q) => has_literal(t, q, name),
    }
}

fn check(t: &Vec<Token>, p: usize, role: Role, d: usize) -> (r: bool)
    ensures
        r == fits(token_views(t@), p as int, role, d as nat),
    decreases d, 0int, 0int,
{
    if d == 0 || p >= t.len() {
        return true;
    }
    assert(token_views(t@)[p as int] == t@[p as int]@);
    match &t[p] {
        Token::Literal(_) => true,
        Token::Word(_) => match role {
            Role::Kept => false,
            _ => true,
        },
        Token::Mark(c) => if *c == '[' {
            match role {
                Role::Field => true,
                _ => check_each(t, p + 1, role, d - 1),
            }
        } else if *c == '{' {
            match role {
                Role::Schema => check_schema(t, p, d - 1),
                Role::Field => check_under(t, p, "type", Role::Schema, d - 1) && check_extras(
                    t,
                    p,
                    "",
                    d - 1,
                ),
                Role::Kept => check_under(t, p, "type", Role::Kept, d - 1) && check_extras(
                    t,
                    p,
                    "",
                    d - 1,
                ) && (says_type(t, p, "record") || says_type(t, p, "enum") || says_type(
                    t,
                    p,
                    "fixed",
                ) || says_type(t, p, "ref") || check_under(t, p, "name", Role::Kept, d - 1)),
            }
        } else {
            true
        },
    }
}

fn check_each(t: &Vec<Token>, start: usize, role: Role, d: usize) -> (r: bool)
    requires
        start <= t@.len(),
    ensures
        r == each_fits(token_views(t@), start as int, role, d as nat),
    decreases d, 1int, 0int,
{
    let ghost v = token_views(t@);
    let mut j: usize = start;
    while j < t.len() && !has_mark(t, j, ']')
        invariant
            start <= j <= t@.len(),
            v == token_views(t@),
            each_fits(v, start as int, role, d as nat) == each_fits(v, j as int, role, d as nat),
        decreases t@.len() - j,
    {
        if !check(t, j, role, d) {
            return false;
        }
        let n: usize = skip(t, j);
        if !has_mark(t, n, ',') {
            return true;
        }
        j = n + 1;
    }
    true
}

fn check_under(t: &Vec<Token>, p: usize, k: &str, role: Role, d: usize) -> (r: bool)
    requires
        p < t@.len(),
    ensures
        r == under_fits(token_views(t@), p as int, k@, role, d as nat),
    decreases d, 1int, 0int,
{
    match find(t, p, k) {
        None => true,
        Some(q) => check(t, q, role, d),
    }
}

fn check_extras(t: &Vec<Token>, p: usize, own: &str, d: usize) -> (r: bool)
    requires
        p < t@.len(),
    ensures
        r == extras_fit(token_views(t@), p as int, own@, d as nat),
    decreases d, 2int, 0int,
{
    (text::same_text(own, "fields") || check_under(t, p, "fields", Role::Kept, d)) && (
    text::same_text(own, "symbols") || check_under(t, p, "symbols", Role::Kept, d)) && (
    text::same_text(own, "items") || check_under(t, p, "items", Role::Kept, d)) && (text::same_text(
        own,
        "values",
    ) || check_under(t, p, "values", Role::Kept, d)) && check_under(t, p, "order", Role::Kept, d)
        && (text::same_text(own, "size") || is_numeric(t, p, "size")) && is_numeric(
        t,
        p,
        "precision",
    ) && is_numeric(t, p, "scale")
}

fn check_schema(t: &Vec<Token>, p: usize, d: usize) -> (r: bool)
    requires
        p < t@.len(),
    ensures
        r == schema_fits(token_views(t@), p as int, d as nat),
    decreases d, 3int, 0int,
{
    let decimal: bool = match find(t, p, "logicalType") {
        None => false,
        Some(q) => has_literal(t, q, "decimal"),
    };
    if decimal && is_outsized(t, p, "precision") {
        return false;
    }
    let q: usize = match find(t, p, "type") {
        None => {
            return true;
        },
        Some(q) => q,
    };
    assert(token_views(t@)[q as int] == t@[q as int]@);
    assert(q < t.len());
    match &t[q] {
        Token::Word(_) => true,
        Token::Mark(_) => check(t, q, Role::Schema, d),
        Token::Literal(l) => if text::is_text(l, "record") {
            check_extras(t, p, "fields", d) && match find(t, p, "fields") {
                None => true,
                Some(f) => {
                    assert(f < t.len());
                    !has_mark(t, f, '[') || check_each(t, f + 1, Role::Field, d)
                },
            }
        } else if text::is_text(l, "enum") {
            check_extras(t, p, "symbols", d)
        } else if text::is_text(l, "array") {
            check_extras(t, p, "items", d) && check_under(t, p, "items", Role::Schema, d)
        } else if text::is_text(l, "map") {
            check_extras(t, p, "values", d) && check_under(t, p, "values", Role::Schema, d)
        } else if text::is_text(l, "fixed") {
            check_extras(t, p, "size", d) && !is_outsized(t, p, "size")
        } else {
            true
        },
    }
}

// ---- the names of records ------------------------------------------------------------------

/// What stands in front of the last dot of a name, nothing where there is none.
pub open spec fn space_of(name: Seq<char>) -> Seq<char>
    decreases name.len(),
{
    if name.len() == 0 {
        Seq::empty()
    } else if name.last() == '.' {
        name.drop_last()
    } else {
        space_of(name.drop_last())
    }
}

/// What stands behind the last dot of a name.
pub open spec fn base_of(name: Seq<char>) -> Seq<char>
    decreases name.len(),
{
    if name.len() == 0 || name.last() == '.' {
        Seq::empty()
    } else {
        base_of(name.drop_last()).push(name.last())
    }
}

/// A name in full, in a namespace that is empty where there is none. A dot in front stands for
/// no namespace.
pub open spec fn qualified(name: Seq<char>, space: Seq<char>) -> Seq<char> {
    if name.len() > 0 && name[0] == '.' {
        name.skip(1)
    } else if name.contains('.') || space.len() == 0 {
        name
    } else {
        space + seq!['.'] + name
    }
}

/// The literal that the member `k` of the object at `p` is.
pub open spec fn literal_of(t: Seq<TokenView>, p: int, k: Seq<char>) -> Option<Seq<char>> {
    match of(t, p, k) {
        Some(q) => match t[q] {
            TokenView::Literal(l) => Some(l),
            _ => None,
        },
        None => None,
    }
}

/// The name in full of the record that the object at `p` describes.
pub open spec fn full_name(t: Seq<TokenView>, p: int, space: Seq<char>) -> Seq<char> {
    let name = match literal_of(t, p, "name"@) {
        Some(n) => n,
        None => Seq::empty(),
    };
    match literal_of(t, p, "namespace"@) {
        Some(s) => qualified(name, s),
        None => qualified(name, space),
    }
}

/// The literals of an array in full, from `j` on, each with the position `owner`.
pub open spec fn literals_from(
    t: Seq<TokenView>,
    j: int,
    space: Seq<char>,
    owner: int,
) -> Seq<(Seq<char>, int)>
    decreases t.len() - j,
{
    if !(0 <= j < t.len()) || mark_at(t, j, ']') {
        Seq::empty()
    } else {
        let n = behind(t, j);
        let first = match t[j] {
            TokenView::Literal(l) => seq![(qualified(l, space), owner)],
            _ => Seq::empty(),
        };
        if j < n && mark_at(t, n, ',') {
            first + literals_from(t, n + 1, space, owner)
        } else {
            first
        }
    }
}

/// The other names in full of the record that the object at `p` describes.
pub open spec fn other_names(t: Seq<TokenView>, p: int, space: Seq<char>) -> Seq<(Seq<char>, int)> {
    match of(t, p, "aliases"@) {
        Some(q) => if mark_at(t, q, '[') {
            literals_from(t, q + 1, space, p)
        } else {
            Seq::empty()
        },
        None => Seq::empty(),
    }
}

/// The names of the records that are described at `p`, each with where its record is described;
/// `space` is the namespace.
pub open spec fn names_at(
    t: Seq<TokenView>,
    p: int,
    role: Role,
    space: Seq<char>,
    d: nat,
) -> Seq<(Seq<char>, int)>
    decreases d, 0int, 0int,
{
    if d == 0 || !(0 <= p < t.len()) {
        Seq::empty()
    } else {
        let e = (d - 1) as nat;
        if mark_at(t, p, '[') {
            if role == Role::Schema {
                names_each(t, p + 1, role, space, e)
            } else {
                Seq::empty()
            }
        } else if !mark_at(t, p, '{') {
            Seq::empty()
        } else if role == Role::Field {
            names_under(t, p, "type"@, space, e)
        } else if has_type(t, p, "record"@) {
            let name = full_name(t, p, space);
            seq![(name, p)] + other_names(t, p, space_of(name)) + match of(t, p, "fields"@) {
                Some(f) => if mark_at(t, f, '[') {
                    names_each(t, f + 1, Role::Field, space_of(name), e)
                } else {
                    Seq::empty()
                },
                None => Seq::empty(),
            }
        } else if has_type(t, p, "array"@) {
            names_under(t, p, "items"@, space, e)
        } else if has_type(t, p, "map"@) {
            names_under(t, p, "values"@, space, e)
        } else {
            names_under(t, p, "type"@, space, e)
        }
    }
}

/// The names of the records in the values of an array, from `j` on.
pub open spec fn names_each(
    t: Seq<TokenView>,
    j: int,
    role: Role,
    space: Seq<char>,
    d: nat,
) -> Seq<(Seq<char>, int)>
    decreases d, 1int, t.len() - j,
{
    if !(0 <= j < t.len()) || mark_at(t, j, ']') {
        Seq::empty()
    } else {
        let n = behind(t, j);
        let first = names_at(t, j, role, space, d);
        if j < n && mark_at(t, n, ',') {
            first + names_each(t, n + 1, role, space, d)
        } else {
            first
        }
    }
}

/// The names of the records in the schema that is the member `k` of the object at `p`.
pub open spec fn names_under(
    t: Seq<TokenView>,
    p: int,
    k: Seq<char>,
    space: Seq<char>,
    d: nat,
) -> Seq<(Seq<char>, int)>
    decreases d, 1int, 0int,
{
    match of(t, p, k) {
        Some(q) => names_at(t, q, Role::Schema, space, d),
        None => Seq::empty(),
    }
}

/// The names of all records that a schema describes, each with where its record is described.
pub open spec fn record_names(t: Seq<TokenView>) -> Seq<(Seq<char>, int)> {
    names_at(t, 0, Role::Schema, Seq::empty(), DEPTH as nat)
}

/// One of two names can be taken for the other: they are the same, or would be in the namespace
/// of one of them.
pub open spec fn alike(a: Seq<char>, b: Seq<char>) -> bool {
    a == b || base_of(a) == base_of(b) && !(a.contains('.') && b.contains('.'))
}

/// Two of the names can be taken for each other.
pub open spec fn ambiguous(names: Seq<(Seq<char>, int)>) -> bool {
    exists|i: int, j: int|
        0 <= i < j < names.len() && alike((#[trigger] names[i]).0, (#[trigger] names[j]).0)
}

/// Something in the text has other names.
pub open spec fn has_aliases(t: Seq<TokenView>) -> bool {
    exists|p: int| #[trigger] literal_at(t, p, "aliases"@) && mark_at(t, p + 1, ':')
}

/// An object begins in a default value.
pub open spec fn object_in_default(t: Seq<TokenView>, p: int, q: int) -> bool {
    literal_at(t, p, "default"@) && mark_at(t, p + 1, ':') && p + 2 <= q < behind(t, p + 2)
        && mark_at(t, q, '{')
}

/// Some default value is or holds an object.
pub open spec fn has_object_default(t: Seq<TokenView>) -> bool {
    exists|p: int, q: int| #[trigger] object_in_default(t, p, q)
}

/// The object at `p` is a field or a type with a name.
pub open spec fn is_named(t: Seq<TokenView>, p: int) -> bool {
    mark_at(t, p, '{') && of(t, p, "name"@) is Some && of(t, p, "type"@) is Some
}

/// A member that documents something stands at `i`.
pub open spec fn doc_at(t: Seq<TokenView>, i: int) -> bool {
    literal_at(t, i, "doc"@) && mark_at(t, i + 1, ':') && i + 2 < t.len() && t[i + 2] is Literal
}

/// The tokens from `i` on without the documentation of fields and of types with names, where
/// `inside` says of every object and array around `i` whether it is such a field or type.
pub open spec fn undocumented(t: Seq<TokenView>, i: int, inside: Seq<bool>) -> Seq<TokenView>
    decreases t.len() - i,
{
    if !(0 <= i < t.len()) {
        Seq::empty()
    } else if inside.len() > 0 && inside.last() && mark_at(t, i, ',') && doc_at(t, i + 1) {
        undocumented(t, i + 4, inside)
    } else if inside.len() > 0 && inside.last() && doc_at(t, i) {
        undocumented(
            t,
            if mark_at(t, i + 3, ',') {
                i + 4
            } else {
                i + 3
            },
            inside,
        )
    } else {
        let around = if mark_at(t, i, '{') || mark_at(t, i, '[') {
            inside.push(is_named(t, i))
        } else if (mark_at(t, i, '}') || mark_at(t, i, ']')) && inside.len() > 0 {
            inside.drop_last()
        } else {
            inside
        };
        seq![t[i]] + undocumented(t, i + 1, around)
    }
}

/// Tokens without documentation are as they are.
pub proof fn law_nothing_documented(t: Seq<TokenView>, i: int, inside: Seq<bool>)
    requires
        0 <= i <= t.len(),
        forall|j: int| i <= j < t.len() ==> !#[trigger] doc_at(t, j),
    ensures
        undocumented(t, i, inside) == t.skip(i),
    decreases t.len() - i,
{
    if i < t.len() {
        let around = if mark_at(t, i, '{') || mark_at(t, i, '[') {
            inside.push(is_named(t, i))
        } else if (mark_at(t, i, '}') || mark_at(t, i, ']')) && inside.len() > 0 {
            inside.drop_last()
        } else {
            inside
        };
        law_nothing_documented(t, i + 1, around);
        assert(!doc_at(t, i));
        assert(!doc_at(t, i + 1));
        assert(seq![t[i]] + t.skip(i + 1) =~= t.skip(i));
    } else {
        assert(t.skip(i) =~= Seq::<TokenView>::empty());
    }
}

/// A number of bytes whose bits do not fit the numbers that the Avro library counts them with.
pub open spec fn uncounted(w: Seq<char>) -> bool {
    json::is_digits(w) && MANY_BYTES <= json::digits_value(w) <= i32::MAX
}

/// The text speaks of decimals.
pub open spec fn has_decimals(t: Seq<TokenView>) -> bool {
    exists|p: int| #[trigger]
        literal_at(t, p, "logicalType"@) && mark_at(t, p + 1, ':') && literal_at(
            t,
            p + 2,
            "decimal"@,
        )
}

/// The text speaks of a size that is not counted.
pub open spec fn has_uncounted(t: Seq<TokenView>) -> bool {
    exists|p: int| #[trigger]
        literal_at(t, p, "size"@) && mark_at(t, p + 1, ':') && p + 2 < t.len() && (t[p
            + 2] matches TokenView::Word(w) && uncounted(w))
}

/// A literal of the text is as long, or the text has as many tokens, as a number of bytes whose
/// bits are not counted.
pub open spec fn has_many(t: Seq<TokenView>) -> bool {
    ||| t.len() >= MANY_BYTES
    ||| exists|p: int|
        0 <= p < t.len() && ((#[trigger] t[p]) matches TokenView::Literal(l) && l.len()
            >= MANY_CHARS)
}

/// The decimals of a text, if there are any, have sizes and default values whose bits are
/// counted.
pub open spec fn decimals_fit(t: Seq<TokenView>) -> bool {
    has_decimals(t) ==> !has_many(t) && !has_uncounted(t)
}

/// The canonical form of this text, if it is a schema, is defined: every member that is written
/// out holds names, nested schemas or, where the format says so, a number. And the Avro library
/// comes to an end with its default values.
pub open spec fn has_canonical_form(text: Seq<char>) -> bool {
    let t = json::plain_tokens(text);
    &&& fits(t, 0, Role::Schema, DEPTH as nat)
    &&& unfold::defaults_end(t)
    &&& decimals_fit(t)
}

/// Nothing in this schema text has other names, and no record can be taken for another.
pub open spec fn plainly_named(text: Seq<char>) -> bool {
    let t = json::plain_tokens(text);
    !has_aliases(t) && !ambiguous(record_names(t))
}

fn find_space(name: &Vec<char>) -> (r: Vec<char>)
    ensures
        r@ == space_of(name@),
{
    let mut n: usize = name.len();
    proof {
        assert(name@.take(n as int) =~= name@);
    }
    while n > 0
        invariant
            n <= name@.len(),
            space_of(name@) == space_of(name@.take(n as int)),
        decreases n,
    {
        proof {
            assert(name@.take(n as int).last() == name@[n - 1]);
            assert(name@.take(n as int).drop_last() =~= name@.take(n - 1));
        }
        if name[n - 1] == '.' {
            return json::first_chars(name, n - 1);
        }
        n = n - 1;
    }
    let r: Vec<char> = Vec::new();
    assert(r@ =~= Seq::<char>::empty());
    r
}

fn find_base(name: &Vec<char>) -> (r: Vec<char>)
    ensures
        r@ == base_of(name@),
{
    let mut r: Vec<char> = Vec::new();
    let mut i: usize = 0;
    proof {
        assert(name@.take(0) =~= Seq::<char>::empty());
    }
    while i < name.len()
        invariant
            i <= name@.len(),
            r@ == base_of(name@.take(i as int)),
        decreases name@.len() - i,
    {
        let c: char = name[i];
        proof {
            assert(name@.take(i + 1).drop_last() =~= name@.take(i as int));
            assert(name@.take(i + 1).last() == c);
        }
        if c == '.' {
            r = Vec::new();
            assert(r@ =~= Seq::<char>::empty());
        } else {
            r.push(c);
        }
        i = i + 1;
    }
    assert(name@.take(i as int) =~= name@);
    r
}

fn has_dot(name: &Vec<char>) -> (r: bool)
    ensures
        r == name@.contains('.'),
{
    let mut i: usize = 0;
    while i < name.len()
        invariant
            i <= name@.len(),
            forall|j: int| 0 <= j < i ==> name@[j] != '.',
        decreases name@.len() - i,
    {
        if name[i] == '.' {
            return true;
        }
        i = i + 1;
    }
    false
}

pub(crate) fn qualify(name: &Vec<char>, space: &Vec<char>) -> (r: Vec<char>)
    ensures
        r@ == qualified(name@, space@),
{
    if name.len() > 0 && name[0] == '.' {
        json::chars_from(name, 1)
    } else if has_dot(name) || space.len() == 0 {
        json::copy_chars(name)
    } else {
        let mut r: Vec<char> = json::copy_chars(space);
        r.push('.');
        let mut i: usize = 0;
        while i < name.len()
            invariant
                i <= name@.len(),
                r@ == space@ + seq!['.'] + name@.take(i as int),
            decreases name@.len() - i,
        {
            r.push(name[i]);
            i = i + 1;
            assert(r@ =~= space@ + seq!['.'] + name@.take(i as int));
        }
        assert(name@.take(i as int) =~= name@);
        r
    }
}

pub(crate) fn find_literal(t: &Vec<Token>, p: usize, k: &str) -> (r: Option<Vec<char>>)
    requires
        p < t@.len(),
    ensures
        match r {
            Some(l) => literal_of(token_views(t@), p as int, k@) == Some(l@),
            None => literal_of(token_views(t@), p as int, k@) is None,
        },
{
    match find(t, p, k) {
        Some(q) => {
            assert(token_views(t@)[q as int] == t@[q as int]@);
            match &t[q] {
                Token::Literal(l) => Some(json::copy_chars(l)),
                _ => None,
            }
        },
        None => None,
    }
}

fn find_name(t: &Vec<Token>, p: usize, space: &Vec<char>) -> (r: Vec<char>)
    requires
        p < t@.len(),
    ensures
        r@ == full_name(token_views(t@), p as int, space@),
{
    let name: Vec<char> = match find_literal(t, p, "name") {
        Some(n) => n,
        None => {
            let none: Vec<char> = Vec::new();
            assert(none@ =~= Seq::<char>::empty());
            none
        },
    };
    match find_literal(t, p, "namespace") {
        Some(s) => qualify(&name, &s),
        None => qualify(&name, space),
    }
}

/// The views of a list of names.
pub open spec fn name_views(v: Seq<(Vec<char>, usize)>) -> Seq<(Seq<char>, int)> {
    v.map_values(|n: (Vec<char>, usize)| (n.0@, n.1 as int))
}

fn add_literals(
    t: &Vec<Token>,
    start: usize,
    space: &Vec<char>,
    owner: usize,
    out: &mut Vec<(Vec<char>, usize)>,
)
    requires
        start <= t@.len(),
    ensures
        name_views(final(out)@) == name_views(old(out)@) + literals_from(
            token_views(t@),
            start as int,
            space@,
            owner as int,
        ),
{
    let ghost v = token_views(t@);
    let ghost all = literals_from(v, start as int, space@, owner as int);
    let ghost before = name_views(out@);
    let mut j: usize = start;
    proof {
        assert(before + all =~= name_views(out@) + all);
    }
    while j < t.len() && !has_mark(t, j, ']')
        invariant
            start <= j <= t@.len(),
            v == token_views(t@),
            before == name_views(old(out)@),
            all == literals_from(v, start as int, space@, owner as int),
            before + all == name_views(out@) + literals_from(v, j as int, space@, owner as int),
        decreases t@.len() - j,
    {
        let ghost out0 = out@;
        let ghost rest = literals_from(v, j as int, space@, owner as int);
        assert(v[j as int] == t@[j as int]@);
        match &t[j] {
            Token::Literal(l) => {
                out.push((qualify(l, space), owner));
                assert(name_views(out@) =~= name_views(out0).push((qualified(l@, space@), owner as int)));
            },
            _ => {},
        }
        let n: usize = skip(t, j);
        if !has_mark(t, n, ',') {
            assert(name_views(out@) =~= name_views(out0) + rest);
            return;
        }
        j = n + 1;
        assert(name_views(out@) + literals_from(v, j as int, space@, owner as int) =~= name_views(out0) + rest);
    }
    assert(literals_from(v, j as int, space@, owner as int) =~= Seq::<(Seq<char>, int)>::empty());
    assert(name_views(out@) =~= before + all);
}

fn add_names(
    t: &Vec<Token>,
    p: usize,
    role: Role,
    space: &Vec<char>,
    d: usize,
    out: &mut Vec<(Vec<char>, usize)>,
)
    ensures
        name_views(final(out)@) == name_views(old(out)@) + names_at(
            token_views(t@),
            p as int,
            role,
            space@,
            d as nat,
        ),
    decreases d, 0int, 0int,
{
    let ghost before = name_views(out@);
    assert(before + Seq::<(Seq<char>, int)>::empty() =~= before);
    if d == 0 || p >= t.len() {
        return;
    }
    assert(p < t.len());
    if has_mark(t, p, '[') {
        match role {
            Role::Schema => add_each(t, p + 1, role, space, d - 1, out),
            _ => {},
        }
        return;
    }
    if !has_mark(t, p, '{') {
        return;
    }
    if let Role::Field = role {
        add_under(t, p, "type", space, d - 1, out);
        return;
    }
    if says_type(t, p, "record") {
        let name: Vec<char> = find_name(t, p, space);
        let inner: Vec<char> = find_space(&name);
        let ghost full = name@;
        out.push((name, p));
        let ghost one = name_views(out@);
        assert(one =~= before + seq![(full, p as int)]);
        if let Some(q) = find(t, p, "aliases") {
            assert(q < t.len());
            if has_mark(t, q, '[') {
                add_literals(t, q + 1, &inner, p, out);
            }
        }
        let ghost two = name_views(out@);
        assert(two =~= one + other_names(token_views(t@), p as int, inner@));
        if let Some(f) = find(t, p, "fields") {
            assert(f < t.len());
            if has_mark(t, f, '[') {
                add_each(t, f + 1, Role::Field, &inner, d - 1, out);
            }
        }
        assert(name_views(out@) =~= before + names_at(
            token_views(t@),
            p as int,
            role,
            space@,
            d as nat,
        ));
    } else if says_type(t, p, "array") {
        add_under(t, p, "items", space, d - 1, out);
    } else if says_type(t, p, "map") {
        add_under(t, p, "values", space, d - 1, out);
    } else {
        add_under(t, p, "type", space, d - 1, out);
    }
}

fn add_each(
    t: &Vec<Token>,
    start: usize,
    role: Role,
    space: &Vec<char>,
    d: usize,
    out: &mut Vec<(Vec<char>, usize)>,
)
    requires
        start <= t@.len(),
    ensures
        name_views(final(out)@) == name_views(old(out)@) + names_each(
            token_views(t@),
            start as int,
            role,
            space@,
            d as nat,
        ),
    decreases d, 1int, 0int,
{
    let ghost v = token_views(t@);
    let ghost all = names_each(v, start as int, role, space@, d as nat);
    let ghost before = name_views(out@);
    let mut j: usize = start;
    while j < t.len() && !has_mark(t, j, ']')
        invariant
            start <= j <= t@.len(),
            v == token_views(t@),
            before == name_views(old(out)@),
            all == names_each(v, start as int, role, space@, d as nat),
            before + all == name_views(out@) + names_each(v, j as int, role, space@, d as nat),
        decreases t@.len() - j,
    {
        let ghost out0 = name_views(out@);
        let ghost rest = names_each(v, j as int, role, space@, d as nat);
        add_names(t, j, role, space, d, out);
        let n: usize = skip(t, j);
        if !has_mark(t, n, ',') {
            assert(name_views(out@) =~= out0 + rest);
            return;
        }
        j = n + 1;
        assert(name_views(out@) + names_each(v, j as int, role, space@, d as nat) =~= out0 + rest);
    }
    assert(names_each(v, j as int, role, space@, d as nat) =~= Seq::<(Seq<char>, int)>::empty());
    assert(name_views(out@) =~= before + all);
}

fn add_under(
    t: &Vec<Token>,
    p: usize,
    k: &str,
    space: &Vec<char>,
    d: usize,
    out: &mut Vec<(Vec<char>, usize)>,
)
    requires
        p < t@.len(),
    ensures
        name_views(final(out)@) == name_views(old(out)@) + names_under(
            token_views(t@),
            p as int,
            k@,
            space@,
            d as nat,
        ),
    decreases d, 1int, 0int,
{
    let ghost before = name_views(out@);
    assert(before + Seq::<(Seq<char>, int)>::empty() =~= before);
    if let Some(q) = find(t, p, k) {
        add_names(t, q, Role::Schema, space, d, out);
    }
}

pub(crate) fn are_alike(a: &Vec<char>, b: &Vec<char>) -> (r: bool)
    ensures
        r == alike(a@, b@),
{
    text::same_chars(a, b) || (text::same_chars(&find_base(a), &find_base(b)) && !(has_dot(a)
        && has_dot(b)))
}

pub(crate) fn find_records(t: &Vec<Token>) -> (r: Vec<(Vec<char>, usize)>)
    ensures
        name_views(r@) == record_names(token_views(t@)),
{
    let mut names: Vec<(Vec<char>, usize)> = Vec::new();
    let none: Vec<char> = Vec::new();
    assert(none@ =~= Seq::<char>::empty());
    add_names(t, 0, Role::Schema, &none, DEPTH, &mut names);
    assert(name_views(names@) =~= record_names(token_views(t@)));
    names
}

fn are_ambiguous(t: &Vec<Token>) -> (r: bool)
    ensures
        r == ambiguous(record_names(token_views(t@))),
{
    let names: Vec<(Vec<char>, usize)> = find_records(t);
    let ghost v = record_names(token_views(t@));
    let mut i: usize = 0;
    while i < names.len()
        invariant
            i <= names@.len(),
            v == name_views(names@),
            v == record_names(token_views(t@)),
            forall|a: int, b: int|
                0 <= a < i && a < b < v.len() ==> !alike((#[trigger] v[a]).0, (#[trigger] v[b]).0),
        decreases names@.len() - i,
    {
        assert(v[i as int].0 == names@[i as int].0@);
        let mut j: usize = i + 1;
        while j < names.len()
            invariant
                i < j <= names@.len(),
                v == name_views(names@),
                v == record_names(token_views(t@)),
                v[i as int].0 == names@[i as int].0@,
                forall|b: int| i < b < j ==> !alike(v[i as int].0, (#[trigger] v[b]).0),
            decreases names@.len() - j,
        {
            assert(v[j as int].0 == names@[j as int].0@);
            if are_alike(&names[i].0, &names[j].0) {
                assert(alike(v[i as int].0, v[j as int].0));
                return true;
            }
            j = j + 1;
        }
        i = i + 1;
    }
    false
}

fn are_aliases(t: &Vec<Token>) -> (r: bool)
    ensures
        r == has_aliases(token_views(t@)),
{
    let ghost v = token_views(t@);
    let mut p: usize = 0;
    while p < t.len()
        invariant
            p <= t@.len(),
            v == token_views(t@),
            forall|i: int|
                0 <= i < p ==> !(#[trigger] literal_at(v, i, "aliases"@) && mark_at(v, i + 1, ':')),
        decreases t@.len() - p,
    {
        if has_literal(t, p, "aliases") && has_mark(t, p + 1, ':') {
            return true;
        }
        p = p + 1;
    }
    false
}

fn are_decimals(t: &Vec<Token>) -> (r: bool)
    ensures
        r == has_decimals(token_views(t@)),
{
    let ghost v = token_views(t@);
    let mut p: usize = 0;
    while p < t.len()
        invariant
            p <= t@.len(),
            v == token_views(t@),
            forall|i: int|
                0 <= i < p ==> !(#[trigger] literal_at(v, i, "logicalType"@) && mark_at(
                    v,
                    i + 1,
                    ':',
                ) && literal_at(v, i + 2, "decimal"@)),
        decreases t@.len() - p,
    {
        if has_literal(t, p, "logicalType") && has_mark(t, p + 1, ':') && t.len() - p > 2
            && has_literal(t, p + 2, "decimal") {
            return true;
        }
        p = p + 1;
    }
    false
}

fn are_many(t: &Vec<Token>) -> (r: bool)
    ensures
        r == has_many(token_views(t@)),
{
    let ghost v = token_views(t@);
    if t.len() >= MANY_BYTES {
        return true;
    }
    let mut p: usize = 0;
    while p < t.len()
        invariant
            p <= t@.len(),
            v == token_views(t@),
            forall|i: int|
                0 <= i < p ==> !((#[trigger] v[i]) matches TokenView::Literal(l) && l.len()
                    >= MANY_CHARS),
        decreases t@.len() - p,
    {
        assert(v[p as int] == t@[p as int]@);
        if let Token::Literal(l) = &t[p] {
            if l.len() >= MANY_CHARS {
                return true;
            }
        }
        p = p + 1;
    }
    false
}

fn are_uncounted(t: &Vec<Token>) -> (r: bool)
    ensures
        r == has_uncounted(token_views(t@)),
{
    let ghost v = token_views(t@);
    let mut p: usize = 0;
    while p < t.len()
        invariant
            p <= t@.len(),
            v == token_views(t@),
            forall|i: int|
                0 <= i < p ==> !(#[trigger] literal_at(v, i, "size"@) && mark_at(v, i + 1, ':')
                    && i + 2 < v.len() && (v[i + 2] matches TokenView::Word(w) && uncounted(w))),
        decreases t@.len() - p,
    {
        if has_literal(t, p, "size") && has_mark(t, p + 1, ':') && t.len() - p > 2 {
            assert(v[p + 2] == t@[p + 2]@);
            if let Token::Word(w) = &t[p + 2] {
                if json::is_between(w, MANY_BYTES as u64, 0x7fff_ffff) {
                    return true;
                }
            }
        }
        p = p + 1;
    }
    false
}

/// Whether a text is one that the canonical form is defined on.
pub fn check_canonical_form(text: &str) -> (r: bool)
    ensures
        r == has_canonical_form(text@),
{
    let t: Vec<Token> = json::outline(&text::chars_of(text));
    check(&t, 0, Role::Schema, DEPTH) && unfold::check_defaults(&t) && (!are_decimals(&t) || (
    !are_many(&t) && !are_uncounted(&t)))
}

/// Whether nothing in a text has other names, and no record can be taken for another.
pub fn check_plainly_named(text: &str) -> (r: bool)
    ensures
        r == plainly_named(text@),
{
    let t: Vec<Token> = json::outline(&text::chars_of(text));
    !are_aliases(&t) && !are_ambiguous(&t)
}

// ---- laws ----------------------------------------------------------------------------------

/// A text whose numbers and other words are default values, and that says of nothing how large it
/// is.
pub open spec fn tame(t: Seq<TokenView>) -> bool {
    forall|p: int|
        0 <= p < t.len() ==> match #[trigger] t[p] {
            TokenView::Word(_) => literal_at(t, p - 2, "default"@) && mark_at(t, p - 1, ':'),
            TokenView::Literal(l) => l != "size"@ && l != "precision"@ && l != "scale"@ && l
                != "decimal"@,
            TokenView::Mark(_) => true,
        }
}

/// A text without default values.
pub open spec fn without_defaults(t: Seq<TokenView>) -> bool {
    forall|p: int| !#[trigger] literal_at(t, p, "default"@)
}

proof fn lemma_member_is_there(t: Seq<TokenView>, j: int, k: Seq<char>)
    ensures
        member(t, j, k) matches Some(q) ==> 2 <= q < t.len() && literal_at(t, q - 2, k) && mark_at(
            t,
            q - 1,
            ':',
        ),
    decreases t.len() - j,
{
    if key_at(t, j) {
        let n = behind(t, j + 2);
        if j < n && mark_at(t, n, ',') {
            lemma_member_is_there(t, n + 1, k);
        }
    }
}

/// The keys whose values the canonical form keeps.
pub open spec fn is_kept_key(k: Seq<char>) -> bool {
    ||| k == "type"@ || k == "name"@ || k == "fields"@ || k == "symbols"@
    ||| k == "items"@ || k == "values"@ || k == "order"@
}

proof fn lemma_tame_member(t: Seq<TokenView>, p: int, k: Seq<char>)
    requires
        tame(t),
        is_kept_key(k),
    ensures
        of(t, p, k) matches Some(q) ==> 2 <= q < t.len() && !(t[q] is Word),
{
    lemma_member_is_there(t, p + 1, k);
    reveal_strlit("default");
    reveal_strlit("type");
    reveal_strlit("name");
    reveal_strlit("fields");
    reveal_strlit("symbols");
    reveal_strlit("items");
    reveal_strlit("values");
    reveal_strlit("order");
    assert(k[0] != "default"@[0]);
}

proof fn lemma_tame_lacks(t: Seq<TokenView>, p: int)
    requires
        tame(t),
    ensures
        of(t, p, "size"@) is None,
        of(t, p, "precision"@) is None,
        of(t, p, "scale"@) is None,
{
    lemma_member_is_there(t, p + 1, "size"@);
    lemma_member_is_there(t, p + 1, "precision"@);
    lemma_member_is_there(t, p + 1, "scale"@);
}

proof fn lemma_tame_fits(t: Seq<TokenView>, p: int, role: Role, d: nat)
    requires
        tame(t),
        0 <= p < t.len() ==> !(t[p] is Word),
    ensures
        fits(t, p, role, d),
    decreases d, 0int, 0int,
{
    if d > 0 && 0 <= p < t.len() && t[p] is Mark {
        let e = (d - 1) as nat;
        if mark_at(t, p, '[') {
            lemma_tame_each(t, p + 1, role, e);
        }
        lemma_tame_under(t, p, "type"@, Role::Schema, e);
        lemma_tame_under(t, p, "type"@, Role::Kept, e);
        lemma_tame_under(t, p, "name"@, Role::Kept, e);
        lemma_tame_extras(t, p, ""@, e);
        lemma_tame_schema(t, p, e);
    }
}

proof fn lemma_tame_each(t: Seq<TokenView>, j: int, role: Role, d: nat)
    requires
        tame(t),
        mark_at(t, j - 1, '[') || mark_at(t, j - 1, ','),
    ensures
        each_fits(t, j, role, d),
    decreases d, 1int, t.len() - j,
{
    if 0 <= j < t.len() && !mark_at(t, j, ']') {
        let n = behind(t, j);
        lemma_tame_fits(t, j, role, d);
        if j < n && mark_at(t, n, ',') {
            lemma_tame_each(t, n + 1, role, d);
        }
    }
}

proof fn lemma_tame_under(t: Seq<TokenView>, p: int, k: Seq<char>, role: Role, d: nat)
    requires
        tame(t),
        is_kept_key(k),
    ensures
        under_fits(t, p, k, role, d),
    decreases d, 1int, 0int,
{
    lemma_tame_member(t, p, k);
    if let Some(q) = of(t, p, k) {
        lemma_tame_fits(t, q, role, d);
    }
}

proof fn lemma_tame_extras(t: Seq<TokenView>, p: int, own: Seq<char>, d: nat)
    requires
        tame(t),
    ensures
        extras_fit(t, p, own, d),
    decreases d, 2int, 0int,
{
    lemma_tame_lacks(t, p);
    lemma_tame_under(t, p, "fields"@, Role::Kept, d);
    lemma_tame_under(t, p, "symbols"@, Role::Kept, d);
    lemma_tame_under(t, p, "items"@, Role::Kept, d);
    lemma_tame_under(t, p, "values"@, Role::Kept, d);
    lemma_tame_under(t, p, "order"@, Role::Kept, d);
}

proof fn lemma_tame_schema(t: Seq<TokenView>, p: int, d: nat)
    requires
        tame(t),
    ensures
        schema_fits(t, p, d),
    decreases d, 3int, 0int,
{
    lemma_tame_lacks(t, p);
    lemma_tame_extras(t, p, "fields"@, d);
    lemma_tame_extras(t, p, "symbols"@, d);
    lemma_tame_extras(t, p, "items"@, d);
    lemma_tame_extras(t, p, "values"@, d);
    lemma_tame_extras(t, p, "size"@, d);
    lemma_tame_under(t, p, "items"@, Role::Schema, d);
    lemma_tame_under(t, p, "values"@, Role::Schema, d);
    lemma_tame_member(t, p, "type"@);
    if let Some(q) = of(t, p, "type"@) {
        lemma_tame_fits(t, q, Role::Schema, d);
    }
    if let Some(f) = of(t, p, "fields"@) {
        if mark_at(t, f, '[') {
            lemma_tame_each(t, f + 1, Role::Field, d);
        }
    }
}

proof fn lemma_tame_decimals(t: Seq<TokenView>)
    requires
        tame(t),
    ensures
        decimals_fit(t),
{
    if has_decimals(t) {
        let p = choose|p: int| #[trigger]
            literal_at(t, p, "logicalType"@) && mark_at(t, p + 1, ':') && literal_at(
                t,
                p + 2,
                "decimal"@,
            );
        assert(t[p + 2] == TokenView::Literal("decimal"@));
    }
}

proof fn lemma_nothing_spent_fields(
    t: Seq<TokenView>,
    records: Seq<(Seq<char>, int)>,
    j: int,
    b: nat,
)
    requires
        without_defaults(t),
    ensures
        unfold::spent_fields(t, records, j, b) == b,
    decreases t.len() - j,
{
    if 0 <= j < t.len() && !mark_at(t, j, ']') {
        let next = behind(t, j);
        lemma_member_is_there(t, j + 1, "default"@);
        if j < next && mark_at(t, next, ',') {
            lemma_nothing_spent_fields(t, records, next + 1, b);
        }
    }
}

proof fn lemma_nothing_spent(t: Seq<TokenView>, records: Seq<(Seq<char>, int)>, n: nat, b: nat)
    requires
        without_defaults(t),
    ensures
        unfold::spent(t, records, n, b) == b,
    decreases n,
{
    if n > 0 && n <= records.len() {
        lemma_nothing_spent(t, records, (n - 1) as nat, b);
        let p = records[n - 1].1;
        if let Some(f) = of(t, p, "fields"@) {
            lemma_nothing_spent_fields(t, records, f + 1, b);
        }
    }
}

/// A text without numbers or other words, default values, decimals and sizes has a canonical form,
/// however long it is, however many records it describes and whatever they are called.
pub proof fn law_wordless_text_is_accepted(text: &str, r: bool)
    requires
        tame(json::plain_tokens(text@)),
        without_defaults(json::plain_tokens(text@)),
        call_ensures(check_canonical_form, (text,), r),
    ensures
        r,
{
    let t = json::plain_tokens(text@);
    assert(t.len() > 0 ==> !(t[0] is Word));
    lemma_tame_fits(t, 0, Role::Schema, DEPTH as nat);
    let records = record_names(t);
    lemma_nothing_spent(t, records, records.len(), unfold::WORK as nat);
    lemma_tame_decimals(t);
}

/// The text describes a record, whose fields have types with names.
pub open spec fn plain_record(t: Seq<TokenView>) -> bool {
    &&& mark_at(t, 0, '{')
    &&& has_type(t, 0, "record"@)
    &&& forall|p: int| !#[trigger] literal_at(t, p, "aliases"@)
    &&& forall|p: int|
        1 <= p && (#[trigger] of(t, p, "type"@)) is Some ==> !(t[of(t, p, "type"@)->Some_0] is Mark)
}

proof fn lemma_plain_fields(t: Seq<TokenView>, j: int, space: Seq<char>, d: nat)
    requires
        plain_record(t),
        j >= 1,
    ensures
        names_each(t, j, Role::Field, space, d) == Seq::<(Seq<char>, int)>::empty(),
    decreases t.len() - j,
{
    if 0 <= j < t.len() && !mark_at(t, j, ']') {
        let n = behind(t, j);
        assert(names_at(t, j, Role::Field, space, d) == Seq::<(Seq<char>, int)>::empty()) by {
            reveal_with_fuel(names_at, 2);
            lemma_member_is_there(t, j + 1, "type"@);
        }
        if j < n && mark_at(t, n, ',') {
            lemma_plain_fields(t, n + 1, space, d);
            assert(Seq::<(Seq<char>, int)>::empty() + Seq::<(Seq<char>, int)>::empty() =~= Seq::<
                (Seq<char>, int),
            >::empty());
        }
    }
}

proof fn lemma_plain_record_name(t: Seq<TokenView>)
    requires
        plain_record(t),
    ensures
        record_names(t) == seq![(full_name(t, 0, Seq::empty()), 0int)],
{
    let name = full_name(t, 0, Seq::empty());
    lemma_member_is_there(t, 1, "aliases"@);
    lemma_member_is_there(t, 1, "fields"@);
    if let Some(f) = of(t, 0, "fields"@) {
        lemma_plain_fields(t, f + 1, space_of(name), (DEPTH - 1) as nat);
    }
    let none = Seq::<(Seq<char>, int)>::empty();
    assert(other_names(t, 0, space_of(name)) == none);
    assert(seq![(name, 0int)] + none + none =~= seq![(name, 0int)]);
}

/// A record whose fields have types with names, and that has no other names, is plainly named.
pub proof fn law_plain_record_is_plainly_named(text: &str, r: bool)
    requires
        plain_record(json::plain_tokens(text@)),
        call_ensures(check_plainly_named, (text,), r),
    ensures
        r,
{
    lemma_plain_record_name(json::plain_tokens(text@));
}

/// No name in the text of a type can be taken for a record, and no default value is a list or an
/// object.
pub open spec fn plain_defaults(t: Seq<TokenView>) -> bool {
    &&& forall|p: int|
        1 <= p && (#[trigger] of(t, p, "type"@)) is Some ==> match t[of(t, p, "type"@)->Some_0] {
            TokenView::Literal(l) => !alike(
                qualified(l, Seq::empty()),
                full_name(t, 0, Seq::empty()),
            ),
            _ => true,
        }
    &&& forall|p: int|
        1 <= p && (#[trigger] of(t, p, "default"@)) is Some ==> !(t[of(
            t,
            p,
            "default"@,
        )->Some_0] is Mark)
}

proof fn lemma_plain_default_spent(t: Seq<TokenView>, j: int, b: nat)
    requires
        plain_record(t),
        plain_defaults(t),
        j >= 1,
        b > 0,
    ensures
        unfold::spent_field(t, seq![(full_name(t, 0, Seq::empty()), 0int)], j, b) == if of(
            t,
            j,
            "type"@,
        ) is Some && of(t, j, "default"@) is Some {
            b - 1
        } else {
            b as int
        },
{
    let records = seq![(full_name(t, 0, Seq::empty()), 0int)];
    lemma_member_is_there(t, j + 1, "type"@);
    lemma_member_is_there(t, j + 1, "default"@);
    if let (Some(q), Some(v)) = (of(t, j, "type"@), of(t, j, "default"@)) {
        reveal_with_fuel(unfold::depth_from, 2);
        assert(unfold::depth_of(t, v) == 0);
        assert(unfold::node_at(t, q) == unfold::NodeView::Leaf);
        if let TokenView::Literal(l) = t[q] {
            assert(!unfold::means(l, records[0]));
            assert(records.skip(1) =~= Seq::<(Seq<char>, int)>::empty());
            reveal_with_fuel(unfold::meant, 2);
            assert(unfold::meant(records, l) is None);
        }
        let g = unfold::Grown { left: b, seen: Seq::empty() };
        let one = unfold::Grown { left: (b - 1) as nat, seen: Seq::empty() };
        assert(unfold::grown(t, records, q, DEPTH as nat, g) == one) by {
            reveal_with_fuel(unfold::grown, 2);
            reveal_with_fuel(unfold::grown_name, 2);
            if let TokenView::Literal(l) = t[q] {
                assert(unfold::name_at(t, q) == Some(l));
                assert(unfold::grown_name(t, records, l, 127, one) == one);
            } else {
                assert(unfold::name_at(t, q) is None);
            }
        }
        assert(unfold::settled(t, records, q, 0, false, DEPTH as nat, one.left) == one.left);
    }
}

proof fn lemma_plain_defaults_left(t: Seq<TokenView>, j: int, b: nat)
    requires
        plain_record(t),
        plain_defaults(t),
        1 <= j <= t.len(),
        b > t.len() - j,
    ensures
        unfold::spent_fields(t, seq![(full_name(t, 0, Seq::empty()), 0int)], j, b) >= b - (t.len()
            - j),
    decreases t.len() - j,
{
    if j < t.len() && !mark_at(t, j, ']') {
        let next = behind(t, j);
        lemma_plain_default_spent(t, j, b);
        if j < next && mark_at(t, next, ',') {
            let records = seq![(full_name(t, 0, Seq::empty()), 0int)];
            let b1 = unfold::spent_field(t, records, j, b);
            lemma_plain_defaults_left(t, next + 1, b1);
        }
    }
}

/// A record whose fields have types with names that mean no record, with default values that are
/// literals, numbers or other words, has a canonical form: each default value takes one step, and
/// there may be 262144 of them.
pub proof fn law_plain_defaults_are_accepted(text: &str, r: bool)
    requires
        tame(json::plain_tokens(text@)),
        plain_record(json::plain_tokens(text@)),
        plain_defaults(json::plain_tokens(text@)),
        json::plain_tokens(text@).len() < 0x4_0000,
        call_ensures(check_canonical_form, (text,), r),
    ensures
        r,
{
    let t = json::plain_tokens(text@);
    lemma_tame_fits(t, 0, Role::Schema, DEPTH as nat);
    lemma_plain_record_name(t);
    lemma_tame_decimals(t);
    lemma_member_is_there(t, 1, "fields"@);
    let records = record_names(t);
    reveal_with_fuel(unfold::spent, 2);
    if let Some(f) = of(t, 0, "fields"@) {
        if mark_at(t, f, '[') {
            lemma_plain_defaults_left(t, f + 1, unfold::WORK as nat);
        }
    }
}

proof fn lemma_split_name(space: Seq<char>, base: Seq<char>)
    requires
        !base.contains('.'),
    ensures
        space_of(space + seq!['.'] + base) == space,
        base_of(space + seq!['.'] + base) == base,
        space_of(base) == Seq::<char>::empty(),
        base_of(base) == base,
    decreases base.len(),
{
    let name = space + seq!['.'] + base;
    if base.len() == 0 {
        assert(name.last() == '.');
        assert(name.drop_last() =~= space);
        assert(base =~= Seq::<char>::empty());
    } else {
        let front = base.drop_last();
        assert(base.contains(base.last()));
        assert forall|c: char| front.contains(c) implies #[trigger] base.contains(c) by {
            let i = choose|i: int| 0 <= i < front.len() && front[i] == c;
            assert(base[i] == c);
        }
        lemma_split_name(space, front);
        assert(name.last() == base.last());
        assert(name.drop_last() =~= space + seq!['.'] + front);
        assert(front.push(base.last()) =~= base);
    }
}

/// A name without a dot lies in the namespace around it, and one with a dot in its own. Names in
/// two namespaces are not taken for each other, and a name without one is taken for every name
/// that ends in it.
pub proof fn law_names_and_namespaces(a: Seq<char>, b: Seq<char>, base: Seq<char>, other: Seq<char>)
    requires
        !base.contains('.'),
        !other.contains('.'),
        base.len() > 0,
        a.len() > 0 && a[0] != '.',
        b.len() > 0,
    ensures
        qualified(base, Seq::empty()) == base,
        qualified(base, b) == b + seq!['.'] + base,
        qualified(a + seq!['.'] + base, b) == a + seq!['.'] + base,
        space_of(a + seq!['.'] + base) == a,
        alike(base, base) && alike(a + seq!['.'] + base, a + seq!['.'] + base),
        alike(base, a + seq!['.'] + base) && alike(a + seq!['.'] + base, base),
        alike(base, other) <==> base == other,
        alike(a + seq!['.'] + base, b + seq!['.'] + base) <==> a == b,
        alike(base, a + seq!['.'] + other) <==> base == other,
{
    let x = a + seq!['.'] + base;
    let y = b + seq!['.'] + base;
    lemma_split_name(a, base);
    lemma_split_name(b, base);
    lemma_split_name(a, other);
    assert(x[a.len() as int] == '.');
    assert(y[b.len() as int] == '.');
    assert(x[0] == a[0]);
    assert(base.contains(base[0]));
}

/// The bounds on a text: how deep its values may lie, how many steps its default values may take,
/// and how many bytes a decimal's size may have.
pub proof fn law_bounds_on_texts()
    ensures
        DEPTH == 128,
        unfold::WORK == 262144,
        MANY_BYTES == 0x1000_0000,
        MANY_CHARS == 0x400_0000,
{
}

/// A record whose symbols, items, values or order are a number or another word, or whose size,
/// precision or scale is a list or an object, has no canonical form.
pub proof fn law_misplaced_word_is_refused(text: &str, r: bool, k: Seq<char>)
    requires
        call_ensures(check_canonical_form, (text,), r),
        ({
            let t = json::plain_tokens(text@);
            &&& mark_at(t, 0, '{')
            &&& has_type(t, 0, "record"@)
            &&& of(t, 0, k) matches Some(q) && {
                ||| (k == "symbols"@ || k == "items"@ || k == "values"@ || k == "order"@)
                    && t[q] is Word
                ||| (k == "size"@ || k == "precision"@ || k == "scale"@) && t[q] is Mark
            }
        }),
    ensures
        !r,
{
    let t = json::plain_tokens(text@);
    lemma_member_is_there(t, 1, k);
    lemma_member_is_there(t, 1, "type"@);
    reveal_with_fuel(fits, 3);
    reveal_strlit("fields");
    reveal_strlit("symbols");
    reveal_strlit("items");
    reveal_strlit("values");
    reveal_strlit("size");
    let q = of(t, 0, k)->Some_0;
    assert("fields"@ != "symbols"@) by {
        assert("fields"@[0] != "symbols"@[0]);
    }
    assert("fields"@ != "items"@) by {
        assert("fields"@[0] != "items"@[0]);
    }
    assert("fields"@ != "values"@) by {
        assert("fields"@[0] != "values"@[0]);
    }
    assert("fields"@ != "size"@) by {
        assert("fields"@[0] != "size"@[0]);
    }
    assert(fits(t, 0, Role::Schema, 128) ==> schema_fits(t, 0, 127));
    assert(schema_fits(t, 0, 127) ==> extras_fit(t, 0, "fields"@, 127));
    assert(t[q] is Word ==> !fits(t, q, Role::Kept, 127));
}

/// A text that gives something another name is not plainly named.
pub proof fn law_aliases_are_no_plain_names(text: &str, r: bool, p: int)
    requires
        call_ensures(check_plainly_named, (text,), r),
        literal_at(json::plain_tokens(text@), p, "aliases"@),
        mark_at(json::plain_tokens(text@), p + 1, ':'),
    ensures
        !r,
{
}

} // verus!
