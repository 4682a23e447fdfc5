use vstd::prelude::*;
use crate::lexical::{
    COMMA, EQUALS, LPAREN, RPAREN, STAR, ParseError, Identifier, ident, ident_text_end, sym1, sym2,
    identifier, symbol1, symbol2,
};
use crate::operands::{
    ConstantExpression, const_expr, const_expr_node, constant_expression, lemma_const_expr_unique,
};

verus! {

broadcast use crate::lexical::group_runs_bounded;

/// An attribute instance `(* spec, ... *)`; it holds at least one spec.
#[derive(Debug, Clone, PartialEq, Eq)]
pub struct AttributeInstance {
    pub specs: Vec<AttrSpec>,
}

/// An attribute: a name, optionally with `= value`.
#[derive(Debug, Clone, Copy, PartialEq, Eq, Structural)]
pub struct AttrSpec {
    pub name: Identifier,
    pub value: Option<ConstantExpression>,
}

/// Where the value `= constant_expression` after an attribute name at `pos`
/// starts, if one is there.
pub open spec fn attr_value_start(s: Seq<u8>, pos: int) -> Option<int> {
    match ident(s, pos) {
        Some(p) => match sym1(s, p, EQUALS) {
            Some(q) => match const_expr(s, q) {
                Some(_) => Some(q),
                None => None,
            },
            None => None,
        },
        None => None,
    }
}

/// An attribute spec `name [= value]` at `pos`.
pub open spec fn attr(s: Seq<u8>, pos: int) -> Option<int> {
    match ident(s, pos) {
        Some(p) => match attr_value_start(s, pos) {
            Some(q) => const_expr(s, q),
            None => Some(p),
        },
        None => None,
    }
}

/// `a` is the attribute spec that starts at `pos`.
pub open spec fn attr_node(s: Seq<u8>, pos: int, a: AttrSpec) -> bool {
    &&& a.name.span.start == pos
    &&& a.name.span.end == ident_text_end(s, pos)
    &&& (a.value is Some <==> attr_value_start(s, pos) is Some)
    &&& (a.value is Some ==> const_expr_node(s, attr_value_start(s, pos).unwrap(), a.value.unwrap()))
}

/// The run of `, attr_spec` at `pos`: where it ends and where each of its
/// specs starts.
pub open spec fn attr_tail(s: Seq<u8>, pos: int) -> (int, Seq<int>)
    decreases s.len() - pos,
{
    if 0 <= pos <= s.len() {
        match sym1(s, pos, COMMA) {
            Some(p) => match attr(s, p) {
                Some(q) => {
                    let t = attr_tail(s, q);
                    (t.0, seq![p] + t.1)
                },
                None => (pos, Seq::empty()),
            },
            None => (pos, Seq::empty()),
        }
    } else {
        (pos, Seq::empty())
    }
}

/// An attribute instance at `pos`: where it ends and where each of its specs
/// starts.
pub open spec fn attr_instance(s: Seq<u8>, pos: int) -> Option<(int, Seq<int>)> {
    match sym2(s, pos, LPAREN, STAR) {
        Some(p1) => match attr(s, p1) {
            Some(p2) => {
                let t = attr_tail(s, p2);
                match sym2(s, t.0, STAR, RPAREN) {
                    Some(p3) => Some((p3, seq![p1] + t.1)),
                    None => None,
                }
            },
            None => None,
        },
        None => None,
    }
}

/// Parses an attribute spec `name [= value]` at `pos`. Where `=` is not
/// followed by a constant expression, the spec ends after the name.
pub fn attr_spec(s: &[u8], pos: usize) -> (r: Result<(usize, AttrSpec), ParseError>)
    requires
        pos <= s@.len(),
    ensures
        match r {
            Ok((p, a)) => attr(s@, pos as int) == Some(p as int) && pos < p <= s@.len()
                && attr_node(s@, pos as int, a),
            Err(e) => attr(s@, pos as int) is None && e.pos == pos,
        },
{
    let (p, name) = match identifier(s, pos) {
        Ok(x) => x,
        Err(e) => {
            return Err(e);
        },
    };
    match symbol1(s, p, EQUALS) {
        Ok(q) => match constant_expression(s, q) {
            Ok((t, e)) => Ok((t, AttrSpec { name, value: Some(e) })),
            Err(_) => Ok((p, AttrSpec { name, value: None })),
        },
        Err(_) => Ok((p, AttrSpec { name, value: None })),
    }
}

/// `a` is the attribute instance at `pos`: one spec for each spec of the
/// text, in order.
pub open spec fn attr_instance_node(s: Seq<u8>, pos: int, a: AttributeInstance) -> bool {
    let st = attr_instance(s, pos).unwrap().1;
    &&& a.specs@.len() == st.len()
    &&& forall|i: int| 0 <= i < st.len() ==> attr_node(s, st[i], #[trigger] a.specs@[i])
}

/// Parses an attribute instance `(* spec, ... *)` at `pos`.
pub fn attribute_instance(s: &[u8], pos: usize) -> (r: Result<(usize, AttributeInstance), ParseError>)
    requires
        pos <= s@.len(),
    ensures
        match r {
            Ok((p, a)) => attr_instance(s@, pos as int) is Some && attr_instance(
                s@,
                pos as int,
            ).unwrap().0 == p && pos < p <= s@.len() && a.specs@.len() >= 1
                && attr_instance_node(s@, pos as int, a),
            Err(e) => attr_instance(s@, pos as int) is None && e.pos == pos,
        },
{
    let p1 = match symbol2(s, pos, LPAREN, STAR) {
        Ok(p) => p,
        Err(e) => {
            return Err(e);
        },
    };
    let (p2, first) = match attr_spec(s, p1) {
        Ok(x) => x,
        Err(_) => {
            return Err(ParseError { pos });
        },
    };
    let mut specs: Vec<AttrSpec> = Vec::new();
    specs.push(first);
    let mut p: usize = p2;
    let ghost mut done: Seq<int> = seq![p1 as int];
    loop
        invariant
            pos < p2 <= p <= s@.len(),
            attr_tail(s@, p2 as int).0 == attr_tail(s@, p as int).0,
            seq![p1 as int] + attr_tail(s@, p2 as int).1 == done + attr_tail(s@, p as int).1,
            specs@.len() == done.len(),
            forall|i: int| 0 <= i < done.len() ==> attr_node(s@, done[i], #[trigger] specs@[i]),
        ensures
            pos < p <= s@.len(),
            attr_tail(s@, p2 as int).0 == p,
            seq![p1 as int] + attr_tail(s@, p2 as int).1 == done,
            specs@.len() == done.len(),
            forall|i: int| 0 <= i < done.len() ==> attr_node(s@, done[i], #[trigger] specs@[i]),
        decreases s@.len() - p,
    {
        let c = match symbol1(s, p, COMMA) {
            Ok(c) => c,
            Err(_) => {
                assert(done + attr_tail(s@, p as int).1 =~= done);
                break ;
            },
        };
        match attr_spec(s, c) {
            Ok((t, a)) => {
                specs.push(a);
                proof {
                    assert(done + attr_tail(s@, p as int).1 =~= done.push(c as int) + attr_tail(
                        s@,
                        t as int,
                    ).1);
                    done = done.push(c as int);
                }
                p = t;
            },
            Err(_) => {
                assert(done + attr_tail(s@, p as int).1 =~= done);
                break ;
            },
        }
    }
    match symbol2(s, p, STAR, RPAREN) {
        Ok(p3) => Ok((p3, AttributeInstance { specs })),
        Err(_) => Err(ParseError { pos }),
    }
}

/// An attribute instance always holds at least one attribute spec.
pub proof fn lemma_attribute_instance_nonempty(s: Seq<u8>, pos: int)
    ensures
        attr_instance(s, pos) is Some ==> attr_instance(s, pos).unwrap().1.len() >= 1,
{
}

/// Parsing is deterministic: two attribute instances that both stand for
/// the text at `pos` hold the same specs.
pub proof fn lemma_attribute_instance_deterministic(
    s: Seq<u8>,
    pos: int,
    a: AttributeInstance,
    b: AttributeInstance,
)
    requires
        attr_instance(s, pos) is Some,
        attr_instance_node(s, pos, a),
        attr_instance_node(s, pos, b),
    ensures
        a.specs@ == b.specs@,
{
    let st = attr_instance(s, pos).unwrap().1;
    assert forall|k: int| 0 <= k < a.specs@.len() implies a.specs@[k] == b.specs@[k] by {
        let x = a.specs@[k];
        let y = b.specs@[k];
        if x.value is Some {
            lemma_const_expr_unique(s, attr_value_start(s, st[k]).unwrap(), x.value.unwrap(), y.value.unwrap());
        }
    }
    assert(a.specs@ =~= b.specs@);
}

} // verus!
