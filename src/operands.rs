use vstd::prelude::*;
use crate::lexical::{
    COLON, COMMA, DOT, GREATER, LBRACE, LBRACKET, LESS, RBRACE, RBRACKET, ParseError, Span,
    Identifier, ident, ident_text_end, number, number_text_end, sym1, sym2, identifier, symbol1,
    symbol2, unsigned_number,
};

verus! {

broadcast use crate::lexical::group_runs_bounded;

/// A constant expression: an unsigned number or an identifier.
#[derive(Debug, Clone, Copy, PartialEq, Eq, Structural)]
pub enum ConstantExpression {
    Number(Span),
    Identifier(Identifier),
}

/// A package scope `pkg::` in front of an identifier.
#[derive(Debug, Clone, Copy, PartialEq, Eq, Structural)]
pub struct PackageScope {
    pub package: Identifier,
}

/// A dotted path `a.b.c`; the last identifier is the name, the ones before
/// it the hierarchy.
#[derive(Debug, Clone, PartialEq, Eq)]
pub struct HierarchicalIdentifier {
    pub path: Vec<Identifier>,
}

/// A selector: bit selects `[e]` followed by an optional part select `[e:e]`.
#[derive(Debug, Clone, PartialEq, Eq)]
pub struct Select {
    pub bit_select: Vec<ConstantExpression>,
    pub part_select_range: Option<(ConstantExpression, ConstantExpression)>,
}

/// A constant expression at `pos`: a number if one stands there, else an
/// identifier.
pub open spec fn const_expr(s: Seq<u8>, pos: int) -> Option<int> {
    match number(s, pos) {
        Some(p) => Some(p),
        None => ident(s, pos),
    }
}

/// `e` is the constant expression that starts at `pos`.
pub open spec fn const_expr_node(s: Seq<u8>, pos: int, e: ConstantExpression) -> bool {
    match e {
        ConstantExpression::Number(sp) => number(s, pos) is Some && sp.start == pos
            && sp.end == number_text_end(s, pos),
        ConstantExpression::Identifier(id) => number(s, pos) is None && id.span.start == pos
            && id.span.end == ident_text_end(s, pos),
    }
}

/// A package scope `identifier ::` at `pos`.
pub open spec fn scope(s: Seq<u8>, pos: int) -> Option<int> {
    match ident(s, pos) {
        Some(p) => sym2(s, p, COLON, COLON),
        None => None,
    }
}

/// The cursor after an optional package scope at `pos`.
pub open spec fn opt_scope(s: Seq<u8>, pos: int) -> int {
    match scope(s, pos) {
        Some(p) => p,
        None => pos,
    }
}

/// The cursor after the run of `. identifier` that starts at `pos`.
pub open spec fn hier_tail(s: Seq<u8>, pos: int) -> int
    decreases s.len() - pos,
{
    if 0 <= pos <= s.len() {
        match sym1(s, pos, DOT) {
            Some(p) => match ident(s, p) {
                Some(q) => hier_tail(s, q),
                None => pos,
            },
            None => pos,
        }
    } else {
        pos
    }
}

/// A hierarchical identifier at `pos`.
pub open spec fn hier_ident(s: Seq<u8>, pos: int) -> Option<int> {
    match ident(s, pos) {
        Some(p) => Some(hier_tail(s, p)),
        None => None,
    }
}

/// Where the identifiers of the run of `. identifier` at `pos` start.
pub open spec fn hier_tail_starts(s: Seq<u8>, pos: int) -> Seq<int>
    decreases s.len() - pos,
{
    if 0 <= pos <= s.len() {
        match sym1(s, pos, DOT) {
            Some(p) => match ident(s, p) {
                Some(q) => seq![p] + hier_tail_starts(s, q),
                None => Seq::empty(),
            },
            None => Seq::empty(),
        }
    } else {
        Seq::empty()
    }
}

/// `id` is the identifier that starts at `pos`.
pub open spec fn ident_node(s: Seq<u8>, pos: int, id: Identifier) -> bool {
    id.span.start == pos && id.span.end == ident_text_end(s, pos)
}

/// `h` is the hierarchical identifier that starts at `pos`: one identifier
/// for each one in the text, in order.
pub open spec fn hier_node(s: Seq<u8>, pos: int, h: HierarchicalIdentifier) -> bool {
    let tail = hier_tail_starts(s, ident(s, pos).unwrap());
    &&& h.path@.len() == tail.len() + 1
    &&& ident_node(s, pos, h.path@[0])
    &&& forall|i: int| 0 <= i < tail.len() ==> ident_node(s, tail[i], #[trigger] h.path@[i + 1])
}

/// A bit select `[ constant_expression ]` at `pos`.
pub open spec fn bracket_expr(s: Seq<u8>, pos: int) -> Option<int> {
    match sym1(s, pos, LBRACKET) {
        Some(p) => match const_expr(s, p) {
            Some(q) => sym1(s, q, RBRACKET),
            None => None,
        },
        None => None,
    }
}

/// The cursor after the run of bit selects that starts at `pos`.
pub open spec fn bit_selects(s: Seq<u8>, pos: int) -> int
    decreases s.len() - pos,
{
    if 0 <= pos <= s.len() {
        match bracket_expr(s, pos) {
            Some(p) => bit_selects(s, p),
            None => pos,
        }
    } else {
        pos
    }
}

/// Where the expressions of the run of bit selects at `pos` start.
pub open spec fn bit_select_starts(s: Seq<u8>, pos: int) -> Seq<int>
    decreases s.len() - pos,
{
    if 0 <= pos <= s.len() {
        match bracket_expr(s, pos) {
            Some(p) => seq![sym1(s, pos, LBRACKET).unwrap()] + bit_select_starts(s, p),
            None => Seq::empty(),
        }
    } else {
        Seq::empty()
    }
}

/// `v` holds the expressions of the run of bit selects at `pos`, in order.
pub open spec fn bit_selects_node(s: Seq<u8>, pos: int, v: Seq<ConstantExpression>) -> bool {
    let st = bit_select_starts(s, pos);
    &&& v.len() == st.len()
    &&& forall|i: int| 0 <= i < st.len() ==> const_expr_node(s, st[i], #[trigger] v[i])
}

/// A part select `[ constant_expression : constant_expression ]` at `pos`.
pub open spec fn range_select(s: Seq<u8>, pos: int) -> Option<int> {
    match sym1(s, pos, LBRACKET) {
        Some(p) => match const_expr(s, p) {
            Some(q) => match sym1(s, q, COLON) {
                Some(r) => match const_expr(s, r) {
                    Some(t) => sym1(s, t, RBRACKET),
                    None => None,
                },
                None => None,
            },
            None => None,
        },
        None => None,
    }
}

/// The cursor after a selector at `pos`: bit selects, then an optional part
/// select. A selector may be empty.
pub open spec fn select_end(s: Seq<u8>, pos: int) -> int {
    let p = bit_selects(s, pos);
    match range_select(s, p) {
        Some(q) => q,
        None => p,
    }
}

/// `r` holds the two bounds of the part select at `pos`.
pub open spec fn range_node(s: Seq<u8>, pos: int, r: (ConstantExpression, ConstantExpression)) -> bool {
    let hi = sym1(s, pos, LBRACKET).unwrap();
    let lo = sym1(s, const_expr(s, hi).unwrap(), COLON).unwrap();
    const_expr_node(s, hi, r.0) && const_expr_node(s, lo, r.1)
}

/// `sel` is the selector at `pos`: its bit selects, then its part select if
/// the text has one.
pub open spec fn select_node(s: Seq<u8>, pos: int, sel: Select) -> bool {
    let p = bit_selects(s, pos);
    &&& bit_selects_node(s, pos, sel.bit_select@)
    &&& (sel.part_select_range is Some <==> range_select(s, p) is Some)
    &&& (sel.part_select_range is Some ==> range_node(s, p, sel.part_select_range.unwrap()))
}

/// Parses a constant expression at `pos`.
pub fn constant_expression(s: &[u8], pos: usize) -> (r: Result<(usize, ConstantExpression), ParseError>)
    requires
        pos <= s@.len(),
    ensures
        match r {
            Ok((p, e)) => const_expr(s@, pos as int) == Some(p as int) && pos < p <= s@.len()
                && const_expr_node(s@, pos as int, e),
            Err(e) => const_expr(s@, pos as int) is None && e.pos == pos,
        },
{
    match unsigned_number(s, pos) {
        Ok((p, sp)) => Ok((p, ConstantExpression::Number(sp))),
        Err(_) => match identifier(s, pos) {
            Ok((p, id)) => Ok((p, ConstantExpression::Identifier(id))),
            Err(e) => Err(e),
        },
    }
}

/// Parses a package scope `pkg::` at `pos`.
pub fn package_scope(s: &[u8], pos: usize) -> (r: Result<(usize, PackageScope), ParseError>)
    requires
        pos <= s@.len(),
    ensures
        match r {
            Ok((p, sc)) => scope(s@, pos as int) == Some(p as int) && pos < p <= s@.len()
                && sc.package.span.start == pos
                && sc.package.span.end == ident_text_end(s@, pos as int),
            Err(e) => scope(s@, pos as int) is None && e.pos == pos,
        },
{
    match identifier(s, pos) {
        Ok((p, id)) => match symbol2(s, p, COLON, COLON) {
            Ok(q) => Ok((q, PackageScope { package: id })),
            Err(_) => Err(ParseError { pos }),
        },
        Err(e) => Err(e),
    }
}

/// Parses an optional package scope at `pos`; where none stands there the
/// cursor does not move.
pub fn opt_package_scope(s: &[u8], pos: usize) -> (r: (usize, Option<PackageScope>))
    requires
        pos <= s@.len(),
    ensures
        r.0 == opt_scope(s@, pos as int),
        pos <= r.0 <= s@.len(),
        r.1 is Some <==> scope(s@, pos as int) is Some,
        r.1 is Some ==> r.1.unwrap().package.span.start == pos
            && r.1.unwrap().package.span.end == ident_text_end(s@, pos as int),
{
    match package_scope(s, pos) {
        Ok((p, sc)) => (p, Some(sc)),
        Err(_) => (pos, None),
    }
}

/// Parses a hierarchical identifier `a.b.c` at `pos`.
pub fn hierarchical_identifier(s: &[u8], pos: usize) -> (r: Result<(usize, HierarchicalIdentifier), ParseError>)
    requires
        pos <= s@.len(),
    ensures
        match r {
            Ok((p, h)) => hier_ident(s@, pos as int) == Some(p as int) && pos < p <= s@.len()
                && hier_node(s@, pos as int, h),
            Err(e) => hier_ident(s@, pos as int) is None && e.pos == pos,
        },
{
    let (p0, first) = match identifier(s, pos) {
        Ok(x) => x,
        Err(e) => {
            return Err(e);
        },
    };
    let mut path: Vec<Identifier> = Vec::new();
    path.push(first);
    let mut p: usize = p0;
    let ghost mut done: Seq<int> = Seq::empty();
    loop
        invariant
            pos < p0 <= p <= s@.len(),
            hier_tail(s@, p0 as int) == hier_tail(s@, p as int),
            hier_tail_starts(s@, p0 as int) == done + hier_tail_starts(s@, p as int),
            path@.len() == done.len() + 1,
            path@[0] == first,
            forall|i: int| 0 <= i < done.len() ==> ident_node(s@, done[i], #[trigger] path@[i + 1]),
        ensures
            hier_tail(s@, p0 as int) == p as int,
            pos < p <= s@.len(),
            hier_tail_starts(s@, p0 as int) == done,
            path@.len() == done.len() + 1,
            path@[0] == first,
            forall|i: int| 0 <= i < done.len() ==> ident_node(s@, done[i], #[trigger] path@[i + 1]),
        decreases s@.len() - p,
    {
        let q = match symbol1(s, p, DOT) {
            Ok(q) => q,
            Err(_) => {
                assert(done + hier_tail_starts(s@, p as int) =~= done);
                break ;
            },
        };
        match identifier(s, q) {
            Ok((q2, id)) => {
                path.push(id);
                proof {
                    assert(done + hier_tail_starts(s@, p as int) =~= done.push(q as int)
                        + hier_tail_starts(s@, q2 as int));
                    done = done.push(q as int);
                }
                p = q2;
            },
            Err(_) => {
                assert(done + hier_tail_starts(s@, p as int) =~= done);
                break ;
            },
        }
    }
    Ok((p, HierarchicalIdentifier { path }))
}

/// Parses a bit select `[e]` at `pos`.
fn bit_select(s: &[u8], pos: usize) -> (r: Result<(usize, ConstantExpression), ParseError>)
    requires
        pos <= s@.len(),
    ensures
        match r {
            Ok((p, e)) => bracket_expr(s@, pos as int) == Some(p as int) && pos < p <= s@.len()
                && const_expr_node(s@, sym1(s@, pos as int, LBRACKET).unwrap(), e),
            Err(e) => bracket_expr(s@, pos as int) is None && e.pos == pos,
        },
{
    match symbol1(s, pos, LBRACKET) {
        Ok(p) => match constant_expression(s, p) {
            Ok((q, e)) => match symbol1(s, q, RBRACKET) {
                Ok(t) => Ok((t, e)),
                Err(_) => Err(ParseError { pos }),
            },
            Err(_) => Err(ParseError { pos }),
        },
        Err(e) => Err(e),
    }
}

/// Parses the run of bit selects at `pos`, which may be empty.
fn bit_select_run(s: &[u8], pos: usize) -> (r: (usize, Vec<ConstantExpression>))
    requires
        pos <= s@.len(),
    ensures
        r.0 == bit_selects(s@, pos as int),
        pos <= r.0 <= s@.len(),
        bit_selects_node(s@, pos as int, r.1@),
{
    let mut v: Vec<ConstantExpression> = Vec::new();
    let mut p: usize = pos;
    let ghost mut done: Seq<int> = Seq::empty();
    loop
        invariant
            pos <= p <= s@.len(),
            bit_selects(s@, pos as int) == bit_selects(s@, p as int),
            bit_select_starts(s@, pos as int) == done + bit_select_starts(s@, p as int),
            v@.len() == done.len(),
            forall|i: int| 0 <= i < done.len() ==> const_expr_node(s@, done[i], #[trigger] v@[i]),
        ensures
            bit_selects(s@, pos as int) == p as int,
            pos <= p <= s@.len(),
            bit_select_starts(s@, pos as int) == done,
            v@.len() == done.len(),
            forall|i: int| 0 <= i < done.len() ==> const_expr_node(s@, done[i], #[trigger] v@[i]),
        decreases s@.len() - p,
    {
        match bit_select(s, p) {
            Ok((q, e)) => {
                v.push(e);
                proof {
                    let st = sym1(s@, p as int, LBRACKET).unwrap();
                    assert(done + bit_select_starts(s@, p as int) =~= done.push(st)
                        + bit_select_starts(s@, q as int));
                    done = done.push(st);
                }
                p = q;
            },
            Err(_) => {
                assert(done + bit_select_starts(s@, p as int) =~= done);
                break ;
            },
        }
    }
    (p, v)
}

/// Parses a part select `[e:e]` at `pos`.
fn part_select(s: &[u8], pos: usize) -> (r: Result<(usize, (ConstantExpression, ConstantExpression)), ParseError>)
    requires
        pos <= s@.len(),
    ensures
        match r {
            Ok((p, e)) => range_select(s@, pos as int) == Some(p as int) && pos < p <= s@.len()
                && range_node(s@, pos as int, e),
            Err(e) => range_select(s@, pos as int) is None && e.pos == pos,
        },
{
    let p = match symbol1(s, pos, LBRACKET) {
        Ok(p) => p,
        Err(e) => {
            return Err(e);
        },
    };
    let (q, hi) = match constant_expression(s, p) {
        Ok(x) => x,
        Err(_) => {
            return Err(ParseError { pos });
        },
    };
    let r0 = match symbol1(s, q, COLON) {
        Ok(r0) => r0,
        Err(_) => {
            return Err(ParseError { pos });
        },
    };
    let (t, lo) = match constant_expression(s, r0) {
        Ok(x) => x,
        Err(_) => {
            return Err(ParseError { pos });
        },
    };
    match symbol1(s, t, RBRACKET) {
        Ok(u) => Ok((u, (hi, lo))),
        Err(_) => Err(ParseError { pos }),
    }
}

/// Parses a selector at `pos`: bit selects, then an optional part select.
/// It always succeeds, possibly without moving the cursor.
pub fn select(s: &[u8], pos: usize) -> (r: (usize, Select))
    requires
        pos <= s@.len(),
    ensures
        r.0 == select_end(s@, pos as int),
        pos <= r.0 <= s@.len(),
        select_node(s@, pos as int, r.1),
{
    let (p, bits) = bit_select_run(s, pos);
    match part_select(s, p) {
        Ok((q, range)) => (q, Select { bit_select: bits, part_select_range: Some(range) }),
        Err(_) => (p, Select { bit_select: bits, part_select_range: None }),
    }
}

/// Parses a selector at `pos` that holds bit selects only.
/// It always succeeds, possibly without moving the cursor.
pub fn nonrange_select(s: &[u8], pos: usize) -> (r: (usize, Select))
    requires
        pos <= s@.len(),
    ensures
        r.0 == bit_selects(s@, pos as int),
        pos <= r.0 <= s@.len(),
        bit_selects_node(s@, pos as int, r.1.bit_select@),
        r.1.part_select_range is None,
{
    let (p, bits) = bit_select_run(s, pos);
    (p, Select { bit_select: bits, part_select_range: None })
}

/// The direction of a streaming concatenation: `<<` or `>>`.
#[derive(Debug, Clone, Copy, PartialEq, Eq, Structural)]
pub enum StreamOperator {
    Left,
    Right,
}

/// A streaming concatenation `{ >> { e, ... } }` or `{ << { e, ... } }`.
#[derive(Debug, Clone, PartialEq, Eq)]
pub struct StreamingConcatenation {
    pub operator: StreamOperator,
    pub exprs: Vec<ConstantExpression>,
}

/// The run of `, constant_expression` at `pos`: where it ends and where
/// each of its expressions starts.
pub open spec fn expr_tail(s: Seq<u8>, pos: int) -> (int, Seq<int>)
    decreases s.len() - pos,
{
    if 0 <= pos <= s.len() {
        match sym1(s, pos, COMMA) {
            Some(p) => match const_expr(s, p) {
                Some(q) => {
                    let t = expr_tail(s, q);
                    (t.0, seq![p] + t.1)
                },
                None => (pos, Seq::empty()),
            },
            None => (pos, Seq::empty()),
        }
    } else {
        (pos, Seq::empty())
    }
}

/// A stream operator at `pos`.
pub open spec fn stream_op(s: Seq<u8>, pos: int) -> Option<int> {
    match sym2(s, pos, GREATER, GREATER) {
        Some(p) => Some(p),
        None => sym2(s, pos, LESS, LESS),
    }
}

/// A streaming concatenation at `pos`: where it ends and where each of its
/// expressions starts.
pub open spec fn streaming(s: Seq<u8>, pos: int) -> Option<(int, Seq<int>)> {
    match sym1(s, pos, LBRACE) {
        Some(p1) => match stream_op(s, p1) {
            Some(p2) => match sym1(s, p2, LBRACE) {
                Some(p3) => match const_expr(s, p3) {
                    Some(p4) => {
                        let t = expr_tail(s, p4);
                        match sym1(s, t.0, RBRACE) {
                            Some(p5) => match sym1(s, p5, RBRACE) {
                                Some(p6) => Some((p6, seq![p3] + t.1)),
                                None => None,
                            },
                            None => None,
                        }
                    },
                    None => None,
                },
                None => None,
            },
            None => None,
        },
        None => None,
    }
}

/// `c` is the streaming concatenation at `pos`: its operator and its
/// expressions, in order.
pub open spec fn streaming_node(s: Seq<u8>, pos: int, c: StreamingConcatenation) -> bool {
    let st = streaming(s, pos).unwrap().1;
    &&& (c.operator is Right <==> sym2(s, sym1(s, pos, LBRACE).unwrap(), GREATER, GREATER) is Some)
    &&& c.exprs@.len() == st.len()
    &&& forall|i: int| 0 <= i < st.len() ==> const_expr_node(s, st[i], #[trigger] c.exprs@[i])
}

/// Parses a stream operator at `pos`.
fn stream_operator(s: &[u8], pos: usize) -> (r: Result<(usize, StreamOperator), ParseError>)
    requires
        pos <= s@.len(),
    ensures
        match r {
            Ok((p, op)) => stream_op(s@, pos as int) == Some(p as int) && pos < p <= s@.len()
                && (op is Right <==> sym2(s@, pos as int, GREATER, GREATER) is Some),
            Err(e) => stream_op(s@, pos as int) is None && e.pos == pos,
        },
{
    match symbol2(s, pos, GREATER, GREATER) {
        Ok(p) => Ok((p, StreamOperator::Right)),
        Err(_) => match symbol2(s, pos, LESS, LESS) {
            Ok(p) => Ok((p, StreamOperator::Left)),
            Err(e) => Err(e),
        },
    }
}

/// Parses a streaming concatenation `{ >> { e, ... } }` at `pos`.
pub fn streaming_concatenation(s: &[u8], pos: usize) -> (r: Result<(usize, StreamingConcatenation), ParseError>)
    requires
        pos <= s@.len(),
    ensures
        match r {
            Ok((p, c)) => streaming(s@, pos as int) is Some && streaming(s@, pos as int).unwrap().0
                == p && pos < p <= s@.len() && c.exprs@.len() >= 1 && streaming_node(
                s@,
                pos as int,
                c,
            ),
            Err(e) => streaming(s@, pos as int) is None && e.pos == pos,
        },
{
    let p1 = match symbol1(s, pos, LBRACE) {
        Ok(p) => p,
        Err(e) => {
            return Err(e);
        },
    };
    let (p2, op) = match stream_operator(s, p1) {
        Ok(x) => x,
        Err(_) => {
            return Err(ParseError { pos });
        },
    };
    let p3 = match symbol1(s, p2, LBRACE) {
        Ok(p) => p,
        Err(_) => {
            return Err(ParseError { pos });
        },
    };
    let (p4, first) = match constant_expression(s, p3) {
        Ok(x) => x,
        Err(_) => {
            return Err(ParseError { pos });
        },
    };
    let mut exprs: Vec<ConstantExpression> = Vec::new();
    exprs.push(first);
    let mut p: usize = p4;
    let ghost mut done: Seq<int> = seq![p3 as int];
    loop
        invariant
            pos < p4 <= p <= s@.len(),
            expr_tail(s@, p4 as int).0 == expr_tail(s@, p as int).0,
            seq![p3 as int] + expr_tail(s@, p4 as int).1 == done + expr_tail(s@, p as int).1,
            exprs@.len() == done.len(),
            forall|i: int| 0 <= i < done.len() ==> const_expr_node(s@, done[i], #[trigger] exprs@[i]),
        ensures
            pos < p <= s@.len(),
            expr_tail(s@, p4 as int).0 == p,
            seq![p3 as int] + expr_tail(s@, p4 as int).1 == done,
            exprs@.len() == done.len(),
            forall|i: int| 0 <= i < done.len() ==> const_expr_node(s@, done[i], #[trigger] exprs@[i]),
        decreases s@.len() - p,
    {
        let c = match symbol1(s, p, COMMA) {
            Ok(c) => c,
            Err(_) => {
                assert(done + expr_tail(s@, p as int).1 =~= done);
                break ;
            },
        };
        match constant_expression(s, c) {
            Ok((t, e)) => {
                exprs.push(e);
                proof {
                    assert(done + expr_tail(s@, p as int).1 =~= done.push(c as int) + expr_tail(
                        s@,
                        t as int,
                    ).1);
                    done = done.push(c as int);
                }
                p = t;
            },
            Err(_) => {
                assert(done + expr_tail(s@, p as int).1 =~= done);
                break ;
            },
        }
    }
    let p5 = match symbol1(s, p, RBRACE) {
        Ok(x) => x,
        Err(_) => {
            return Err(ParseError { pos });
        },
    };
    match symbol1(s, p5, RBRACE) {
        Ok(p6) => Ok((p6, StreamingConcatenation { operator: op, exprs })),
        Err(_) => Err(ParseError { pos }),
    }
}

/// A constant expression is fixed by the text it stands for.
pub proof fn lemma_const_expr_unique(s: Seq<u8>, pos: int, a: ConstantExpression, b: ConstantExpression)
    requires
        const_expr_node(s, pos, a),
        const_expr_node(s, pos, b),
    ensures
        a == b,
{
}

/// A hierarchical identifier is fixed by the text it stands for.
pub proof fn lemma_hier_unique(s: Seq<u8>, pos: int, a: HierarchicalIdentifier, b: HierarchicalIdentifier)
    requires
        hier_node(s, pos, a),
        hier_node(s, pos, b),
    ensures
        a.path@ == b.path@,
{
    let tail = hier_tail_starts(s, ident(s, pos).unwrap());
    assert forall|k: int| 0 <= k < a.path@.len() implies a.path@[k] == b.path@[k] by {
        if k > 0 {
            assert(ident_node(s, tail[k - 1], a.path@[(k - 1) + 1]));
            assert(ident_node(s, tail[k - 1], b.path@[(k - 1) + 1]));
        }
    }
    assert(a.path@ =~= b.path@);
}

/// The run of bit selects at `pos` is fixed by the text.
pub proof fn lemma_bit_selects_unique(
    s: Seq<u8>,
    pos: int,
    a: Seq<ConstantExpression>,
    b: Seq<ConstantExpression>,
)
    requires
        bit_selects_node(s, pos, a),
        bit_selects_node(s, pos, b),
    ensures
        a == b,
{
    let st = bit_select_starts(s, pos);
    assert forall|k: int| 0 <= k < a.len() implies a[k] == b[k] by {
        lemma_const_expr_unique(s, st[k], a[k], b[k]);
    }
    assert(a =~= b);
}

/// A selector is fixed by the text it stands for.
pub proof fn lemma_select_unique(s: Seq<u8>, pos: int, a: Select, b: Select)
    requires
        select_node(s, pos, a),
        select_node(s, pos, b),
    ensures
        a.bit_select@ == b.bit_select@,
        a.part_select_range == b.part_select_range,
{
    lemma_bit_selects_unique(s, pos, a.bit_select@, b.bit_select@);
    if a.part_select_range is Some {
        let p = bit_selects(s, pos);
        let hi = sym1(s, p, LBRACKET).unwrap();
        let lo = sym1(s, const_expr(s, hi).unwrap(), COLON).unwrap();
        let (a0, a1) = a.part_select_range.unwrap();
        let (b0, b1) = b.part_select_range.unwrap();
        lemma_const_expr_unique(s, hi, a0, b0);
        lemma_const_expr_unique(s, lo, a1, b1);
    }
}

/// A streaming concatenation is fixed by the text it stands for.
pub proof fn lemma_streaming_unique(s: Seq<u8>, pos: int, a: StreamingConcatenation, b: StreamingConcatenation)
    requires
        streaming_node(s, pos, a),
        streaming_node(s, pos, b),
    ensures
        a.operator == b.operator,
        a.exprs@ == b.exprs@,
{
    let st = streaming(s, pos).unwrap().1;
    assert forall|k: int| 0 <= k < a.exprs@.len() implies a.exprs@[k] == b.exprs@[k] by {
        lemma_const_expr_unique(s, st[k], a.exprs@[k], b.exprs@[k]);
    }
    assert(a.exprs@ =~= b.exprs@);
}

} // verus!
