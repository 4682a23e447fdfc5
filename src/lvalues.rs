use vstd::prelude::*;
use crate::lexical::{
    APOSTROPHE, COMMA, LBRACE, RBRACE, ParseError, Identifier, ident, ident_text_end, sym1, sym2,
    identifier, symbol1, symbol2,
};
use crate::operands::{
    PackageScope, HierarchicalIdentifier, Select, scope, opt_scope, hier_ident, bit_selects,
    hier_node, ident_node, select_node, lemma_hier_unique, lemma_select_unique,
    lemma_bit_selects_unique, lemma_streaming_unique, bit_selects_node, select_end,
    opt_package_scope, hierarchical_identifier, select, nonrange_select, StreamingConcatenation,
    streaming, streaming_node, streaming_concatenation,
};

verus! {

broadcast use crate::lexical::group_runs_bounded;

/// The cursor after an optional pattern type (an identifier) at `pos`.
pub open spec fn opt_type(s: Seq<u8>, pos: int) -> int {
    match ident(s, pos) {
        Some(p) => p,
        None => pos,
    }
}

/// The identifier form at `pos`: optional scope, hierarchical identifier,
/// selector.
pub open spec fn ident_form(s: Seq<u8>, pos: int) -> Option<int> {
    match hier_ident(s, opt_scope(s, pos)) {
        Some(p) => Some(select_end(s, p)),
        None => None,
    }
}

/// The scope, path and selector of an identifier form stand for the text at
/// `pos`: the scope is there exactly when the text has one, the path holds
/// the identifiers after it, and the selector the bit selects and part
/// select that follow the path.
pub open spec fn ident_form_node(
    s: Seq<u8>,
    pos: int,
    sc: Option<PackageScope>,
    h: HierarchicalIdentifier,
    sel: Select,
) -> bool {
    let p0 = opt_scope(s, pos);
    &&& (sc is Some <==> scope(s, pos) is Some)
    &&& (sc is Some ==> sc.unwrap().package.span.start == pos
        && sc.unwrap().package.span.end == ident_text_end(s, pos))
    &&& hier_node(s, p0, h)
    &&& select_node(s, hier_ident(s, p0).unwrap(), sel)
}

/// A net lvalue: an identifier with a constant selector, a braced list of
/// net lvalues, or an assignment pattern of net lvalues.
#[derive(Debug, PartialEq, Eq)]
pub enum NetLvalue {
    Identifier(NetLvalueIdentifier),
    Lvalue(Vec<NetLvalue>),
    Pattern(NetLvaluePattern),
}

/// The identifier form of a net lvalue.
#[derive(Debug, PartialEq, Eq)]
pub struct NetLvalueIdentifier {
    pub scope: Option<PackageScope>,
    pub identifier: HierarchicalIdentifier,
    pub select: Select,
}

/// The pattern form of a net lvalue: an optional type, then `'{ ... }`.
#[derive(Debug, PartialEq, Eq)]
pub struct NetLvaluePattern {
    pub pattern_type: Option<Identifier>,
    pub lvalues: Vec<NetLvalue>,
}

/// A net lvalue at `pos`: the identifier form, else the list form, else the
/// pattern form.
pub open spec fn net_lv(s: Seq<u8>, pos: int) -> Option<int>
    decreases s.len() - pos, 1int,
{
    if 0 <= pos <= s.len() {
        match ident_form(s, pos) {
            Some(p) => Some(p),
            None => match net_lv_list(s, pos) {
                Some(p) => Some(p.0),
                None => match net_lv_pattern(s, pos) {
                    Some(p) => Some(p.0),
                    None => None,
                },
            },
        }
    } else {
        None
    }
}

/// The run of `, net_lvalue` at `pos`: where it ends and where each of its
/// elements starts.
pub open spec fn net_lv_tail(s: Seq<u8>, pos: int) -> (int, Seq<int>)
    decreases s.len() - pos, 0int,
{
    if 0 <= pos <= s.len() {
        match sym1(s, pos, COMMA) {
            Some(p) => match net_lv(s, p) {
                // a match always ends after its start and within the buffer
                Some(q) => if pos < q <= s.len() {
                    let t = net_lv_tail(s, q);
                    (t.0, seq![p] + t.1)
                } else {
                    (pos, Seq::empty())
                },
                None => (pos, Seq::empty()),
            },
            None => (pos, Seq::empty()),
        }
    } else {
        (pos, Seq::empty())
    }
}

/// A comma-separated, non-empty list of net lvalues at `pos`: where it ends
/// and where each element starts.
pub open spec fn net_lv_seq(s: Seq<u8>, pos: int) -> Option<(int, Seq<int>)>
    decreases s.len() - pos, 2int,
{
    if 0 <= pos <= s.len() {
        match net_lv(s, pos) {
            // a match always ends after its start and within the buffer
            Some(q) => if pos < q <= s.len() {
                let t = net_lv_tail(s, q);
                Some((t.0, seq![pos] + t.1))
            } else {
                None
            },
            None => None,
        }
    } else {
        None
    }
}

/// The list form `{ net_lvalue, ... }` at `pos`: where it ends and where
/// each element starts.
pub open spec fn net_lv_list(s: Seq<u8>, pos: int) -> Option<(int, Seq<int>)>
    decreases s.len() - pos, 0int,
{
    if 0 <= pos <= s.len() {
        match sym1(s, pos, LBRACE) {
            Some(p) => match net_lv_seq(s, p) {
                Some(q) => match sym1(s, q.0, RBRACE) {
                    Some(t) => Some((t, q.1)),
                    None => None,
                },
                None => None,
            },
            None => None,
        }
    } else {
        None
    }
}

/// The pattern form `[type] '{ net_lvalue, ... }` at `pos`: where it ends
/// and where each element starts.
pub open spec fn net_lv_pattern(s: Seq<u8>, pos: int) -> Option<(int, Seq<int>)>
    decreases s.len() - pos, 0int,
{
    if 0 <= pos <= s.len() {
        match sym2(s, opt_type(s, pos), APOSTROPHE, LBRACE) {
            Some(p) => match net_lv_seq(s, p) {
                Some(q) => match sym1(s, q.0, RBRACE) {
                    Some(t) => Some((t, q.1)),
                    None => None,
                },
                None => None,
            },
            None => None,
        }
    } else {
        None
    }
}

/// `n` is the net lvalue that the text at `pos` holds: the variant is the
/// first alternative that matches, and each element of a list or pattern is
/// the net lvalue at its own start.
pub open spec fn net_lv_node(s: Seq<u8>, pos: int, n: NetLvalue) -> bool
    decreases n,
{
    match n {
        NetLvalue::Identifier(x) => ident_form(s, pos) is Some
            && ident_form_node(s, pos, x.scope, x.identifier, x.select),
        NetLvalue::Lvalue(v) => ident_form(s, pos) is None && net_lv_list(s, pos) is Some && {
            let st = net_lv_list(s, pos).unwrap().1;
            &&& v@.len() == st.len()
            &&& forall|i: int| 0 <= i < st.len() ==> net_lv_node(s, st[i], #[trigger] v[i])
        },
        NetLvalue::Pattern(x) => ident_form(s, pos) is None && net_lv_list(s, pos) is None
            && net_lv_pattern(s, pos) is Some && (x.pattern_type is Some <==> ident(s, pos) is Some)
            && (x.pattern_type is Some ==> ident_node(s, pos, x.pattern_type.unwrap())) && {
            let st = net_lv_pattern(s, pos).unwrap().1;
            &&& x.lvalues@.len() == st.len()
            &&& forall|i: int| 0 <= i < st.len() ==> net_lv_node(s, st[i], #[trigger] x.lvalues[i])
        },
    }
}

/// Parses a net lvalue at `pos`, trying the identifier form, then the list
/// form, then the pattern form, each from `pos`.
pub fn net_lvalue(s: &[u8], pos: usize) -> (r: Result<(usize, NetLvalue), ParseError>)
    requires
        pos <= s@.len(),
    ensures
        match r {
            Ok((p, n)) => net_lv(s@, pos as int) == Some(p as int) && pos < p <= s@.len()
                && net_lv_node(s@, pos as int, n),
            Err(e) => net_lv(s@, pos as int) is None && e.pos == pos,
        },
    decreases s@.len() - pos, 1int,
{
    match net_lvalue_identifier(s, pos) {
        Ok(x) => {
            return Ok(x);
        },
        Err(_) => {},
    }
    match net_lvalue_lvalue(s, pos) {
        Ok(x) => {
            return Ok(x);
        },
        Err(_) => {},
    }
    net_lvalue_pattern(s, pos)
}

/// Parses the identifier form of a net lvalue at `pos`.
pub fn net_lvalue_identifier(s: &[u8], pos: usize) -> (r: Result<(usize, NetLvalue), ParseError>)
    requires
        pos <= s@.len(),
    ensures
        match r {
            Ok((p, n)) => ident_form(s@, pos as int) == Some(p as int) && pos < p <= s@.len()
                && n is Identifier && net_lv_node(s@, pos as int, n),
            Err(e) => ident_form(s@, pos as int) is None && e.pos == pos,
        },
{
    let (p0, sc) = opt_package_scope(s, pos);
    let (p1, h) = match hierarchical_identifier(s, p0) {
        Ok(x) => x,
        Err(_) => {
            return Err(ParseError { pos });
        },
    };
    let (p2, sel) = select(s, p1);
    Ok((p2, NetLvalue::Identifier(NetLvalueIdentifier { scope: sc, identifier: h, select: sel })))
}

/// Parses `net_lvalue { , net_lvalue }` at `pos`.
fn net_lvalue_seq(s: &[u8], pos: usize) -> (r: Result<(usize, Vec<NetLvalue>), ParseError>)
    requires
        pos <= s@.len(),
    ensures
        match r {
            Ok((p, v)) => net_lv_seq(s@, pos as int) is Some && pos < p <= s@.len() && {
                let (e, st) = net_lv_seq(s@, pos as int).unwrap();
                &&& e == p
                &&& v@.len() == st.len()
                &&& forall|i: int| 0 <= i < st.len() ==> net_lv_node(s@, st[i], #[trigger] v[i])
            },
            Err(e) => net_lv_seq(s@, pos as int) is None && e.pos == pos,
        },
    decreases s@.len() - pos, 2int,
{
    let (q, first) = match net_lvalue(s, pos) {
        Ok(x) => x,
        Err(e) => {
            return Err(e);
        },
    };
    let mut v: Vec<NetLvalue> = Vec::new();
    v.push(first);
    let mut p: usize = q;
    let ghost mut done: Seq<int> = seq![pos as int];
    loop
        invariant
            pos < q <= p <= s@.len(),
            net_lv_tail(s@, q as int).0 == net_lv_tail(s@, p as int).0,
            seq![pos as int] + net_lv_tail(s@, q as int).1 == done + net_lv_tail(s@, p as int).1,
            v@.len() == done.len(),
            forall|i: int| 0 <= i < done.len() ==> net_lv_node(s@, done[i], #[trigger] v[i]),
        ensures
            pos < p <= s@.len(),
            net_lv_tail(s@, q as int).0 == p,
            seq![pos as int] + net_lv_tail(s@, q as int).1 == done,
            v@.len() == done.len(),
            forall|i: int| 0 <= i < done.len() ==> net_lv_node(s@, done[i], #[trigger] v[i]),
        decreases s@.len() - p,
    {
        let c = match symbol1(s, p, COMMA) {
            Ok(c) => c,
            Err(_) => {
                assert(done + net_lv_tail(s@, p as int).1 =~= done);
                break ;
            },
        };
        match net_lvalue(s, c) {
            Ok((t, n)) => {
                v.push(n);
                proof {
                    assert(done + net_lv_tail(s@, p as int).1 =~= done.push(c as int)
                        + net_lv_tail(s@, t as int).1);
                    done = done.push(c as int);
                }
                p = t;
            },
            Err(_) => {
                assert(done + net_lv_tail(s@, p as int).1 =~= done);
                break ;
            },
        }
    }
    Ok((p, v))
}

/// Parses the list form `{ net_lvalue, ... }` at `pos`.
pub fn net_lvalue_lvalue(s: &[u8], pos: usize) -> (r: Result<(usize, NetLvalue), ParseError>)
    requires
        pos <= s@.len(),
    ensures
        match r {
            Ok((p, n)) => net_lv_list(s@, pos as int) is Some && net_lv_list(s@, pos as int).unwrap().0
                == p && pos < p <= s@.len() && n is Lvalue && n->Lvalue_0@.len() >= 1 && {
                let st = net_lv_list(s@, pos as int).unwrap().1;
                &&& n->Lvalue_0@.len() == st.len()
                &&& forall|i: int| 0 <= i < st.len() ==> net_lv_node(s@, st[i], #[trigger] n->Lvalue_0[i])
            },
            Err(e) => net_lv_list(s@, pos as int) is None && e.pos == pos,
        },
    decreases s@.len() - pos, 0int,
{
    let p = match symbol1(s, pos, LBRACE) {
        Ok(p) => p,
        Err(e) => {
            return Err(e);
        },
    };
    let (q, v) = match net_lvalue_seq(s, p) {
        Ok(x) => x,
        Err(_) => {
            return Err(ParseError { pos });
        },
    };
    match symbol1(s, q, RBRACE) {
        Ok(t) => Ok((t, NetLvalue::Lvalue(v))),
        Err(_) => Err(ParseError { pos }),
    }
}

/// Parses the pattern form `[type] '{ net_lvalue, ... }` at `pos`.
pub fn net_lvalue_pattern(s: &[u8], pos: usize) -> (r: Result<(usize, NetLvalue), ParseError>)
    requires
        pos <= s@.len(),
    ensures
        match r {
            Ok((p, n)) => net_lv_pattern(s@, pos as int) is Some && net_lv_pattern(
                s@,
                pos as int,
            ).unwrap().0 == p && pos < p <= s@.len() && n is Pattern
                && n->Pattern_0.lvalues@.len() >= 1
                && (n->Pattern_0.pattern_type is Some <==> ident(s@, pos as int) is Some)
                && (n->Pattern_0.pattern_type is Some ==> ident_node(
                s@,
                pos as int,
                n->Pattern_0.pattern_type.unwrap(),
            )) && {
                let st = net_lv_pattern(s@, pos as int).unwrap().1;
                &&& n->Pattern_0.lvalues@.len() == st.len()
                &&& forall|i: int|
                    0 <= i < st.len() ==> net_lv_node(s@, st[i], #[trigger] n->Pattern_0.lvalues[i])
            },
            Err(e) => net_lv_pattern(s@, pos as int) is None && e.pos == pos,
        },
    decreases s@.len() - pos, 0int,
{
    let (p0, ty) = match identifier(s, pos) {
        Ok((p0, id)) => (p0, Some(id)),
        Err(_) => (pos, None),
    };
    let p = match symbol2(s, p0, APOSTROPHE, LBRACE) {
        Ok(p) => p,
        Err(_) => {
            return Err(ParseError { pos });
        },
    };
    let (q, v) = match net_lvalue_seq(s, p) {
        Ok(x) => x,
        Err(_) => {
            return Err(ParseError { pos });
        },
    };
    match symbol1(s, q, RBRACE) {
        Ok(t) => Ok((t, NetLvalue::Pattern(NetLvaluePattern { pattern_type: ty, lvalues: v }))),
        Err(_) => Err(ParseError { pos }),
    }
}

/// A variable lvalue: an identifier with a selector, a braced list of
/// variable lvalues, an assignment pattern of variable lvalues, or a
/// streaming concatenation.
#[derive(Debug, PartialEq, Eq)]
pub enum VariableLvalue {
    Identifier(VariableLvalueIdentifier),
    Lvalue(Vec<VariableLvalue>),
    Pattern(VariableLvaluePattern),
    Concatenation(StreamingConcatenation),
}

/// The identifier form of a variable lvalue.
#[derive(Debug, PartialEq, Eq)]
pub struct VariableLvalueIdentifier {
    pub scope: Option<PackageScope>,
    pub identifier: HierarchicalIdentifier,
    pub select: Select,
}

/// The pattern form of a variable lvalue: an optional type, then `'{ ... }`.
#[derive(Debug, PartialEq, Eq)]
pub struct VariableLvaluePattern {
    pub pattern_type: Option<Identifier>,
    pub lvalues: Vec<VariableLvalue>,
}

/// A variable lvalue at `pos`: the identifier form, else the list form,
/// else the pattern form, else a streaming concatenation.
pub open spec fn var_lv(s: Seq<u8>, pos: int) -> Option<int>
    decreases s.len() - pos, 1int,
{
    if 0 <= pos <= s.len() {
        match ident_form(s, pos) {
            Some(p) => Some(p),
            None => match var_lv_list(s, pos) {
                Some(p) => Some(p.0),
                None => match var_lv_pattern(s, pos) {
                    Some(p) => Some(p.0),
                    None => match streaming(s, pos) {
                        Some(p) => Some(p.0),
                        None => None,
                    },
                },
            },
        }
    } else {
        None
    }
}

/// The run of `, variable_lvalue` at `pos`: where it ends and where each of its
/// elements starts.
pub open spec fn var_lv_tail(s: Seq<u8>, pos: int) -> (int, Seq<int>)
    decreases s.len() - pos, 0int,
{
    if 0 <= pos <= s.len() {
        match sym1(s, pos, COMMA) {
            Some(p) => match var_lv(s, p) {
                // a match always ends after its start and within the buffer
                Some(q) => if pos < q <= s.len() {
                    let t = var_lv_tail(s, q);
                    (t.0, seq![p] + t.1)
                } else {
                    (pos, Seq::empty())
                },
                None => (pos, Seq::empty()),
            },
            None => (pos, Seq::empty()),
        }
    } else {
        (pos, Seq::empty())
    }
}

/// A comma-separated, non-empty list of variable lvalues at `pos`: where it ends
/// and where each element starts.
pub open spec fn var_lv_seq(s: Seq<u8>, pos: int) -> Option<(int, Seq<int>)>
    decreases s.len() - pos, 2int,
{
    if 0 <= pos <= s.len() {
        match var_lv(s, pos) {
            // a match always ends after its start and within the buffer
            Some(q) => if pos < q <= s.len() {
                let t = var_lv_tail(s, q);
                Some((t.0, seq![pos] + t.1))
            } else {
                None
            },
            None => None,
        }
    } else {
        None
    }
}

/// The list form `{ variable_lvalue, ... }` at `pos`: where it ends and where
/// each element starts.
pub open spec fn var_lv_list(s: Seq<u8>, pos: int) -> Option<(int, Seq<int>)>
    decreases s.len() - pos, 0int,
{
    if 0 <= pos <= s.len() {
        match sym1(s, pos, LBRACE) {
            Some(p) => match var_lv_seq(s, p) {
                Some(q) => match sym1(s, q.0, RBRACE) {
                    Some(t) => Some((t, q.1)),
                    None => None,
                },
                None => None,
            },
            None => None,
        }
    } else {
        None
    }
}

/// The pattern form `[type] '{ variable_lvalue, ... }` at `pos`: where it ends
/// and where each element starts.
pub open spec fn var_lv_pattern(s: Seq<u8>, pos: int) -> Option<(int, Seq<int>)>
    decreases s.len() - pos, 0int,
{
    if 0 <= pos <= s.len() {
        match sym2(s, opt_type(s, pos), APOSTROPHE, LBRACE) {
            Some(p) => match var_lv_seq(s, p) {
                Some(q) => match sym1(s, q.0, RBRACE) {
                    Some(t) => Some((t, q.1)),
                    None => None,
                },
                None => None,
            },
            None => None,
        }
    } else {
        None
    }
}

/// `n` is the variable lvalue that the text at `pos` holds: the variant is the
/// first alternative that matches, and each element of a list or pattern is
/// the variable lvalue at its own start.
pub open spec fn var_lv_node(s: Seq<u8>, pos: int, n: VariableLvalue) -> bool
    decreases n,
{
    match n {
        VariableLvalue::Identifier(x) => ident_form(s, pos) is Some
            && ident_form_node(s, pos, x.scope, x.identifier, x.select),
        VariableLvalue::Lvalue(v) => ident_form(s, pos) is None && var_lv_list(s, pos) is Some && {
            let st = var_lv_list(s, pos).unwrap().1;
            &&& v@.len() == st.len()
            &&& forall|i: int| 0 <= i < st.len() ==> var_lv_node(s, st[i], #[trigger] v[i])
        },
        VariableLvalue::Pattern(x) => ident_form(s, pos) is None && var_lv_list(s, pos) is None
            && var_lv_pattern(s, pos) is Some && (x.pattern_type is Some <==> ident(s, pos) is Some)
            && (x.pattern_type is Some ==> ident_node(s, pos, x.pattern_type.unwrap())) && {
            let st = var_lv_pattern(s, pos).unwrap().1;
            &&& x.lvalues@.len() == st.len()
            &&& forall|i: int| 0 <= i < st.len() ==> var_lv_node(s, st[i], #[trigger] x.lvalues[i])
        },
        VariableLvalue::Concatenation(c) => ident_form(s, pos) is None && var_lv_list(s, pos) is None
            && var_lv_pattern(s, pos) is None && streaming(s, pos) is Some
            && streaming_node(s, pos, c),
    }
}

/// Parses a variable lvalue at `pos`, trying the identifier form, then the
/// list form, then the pattern form, then a streaming concatenation, each
/// from `pos`.
pub fn variable_lvalue(s: &[u8], pos: usize) -> (r: Result<(usize, VariableLvalue), ParseError>)
    requires
        pos <= s@.len(),
    ensures
        match r {
            Ok((p, n)) => var_lv(s@, pos as int) == Some(p as int) && pos < p <= s@.len()
                && var_lv_node(s@, pos as int, n),
            Err(e) => var_lv(s@, pos as int) is None && e.pos == pos,
        },
    decreases s@.len() - pos, 1int,
{
    match variable_lvalue_identifier(s, pos) {
        Ok(x) => {
            return Ok(x);
        },
        Err(_) => {},
    }
    match variable_lvalue_lvalue(s, pos) {
        Ok(x) => {
            return Ok(x);
        },
        Err(_) => {},
    }
    match variable_lvalue_pattern(s, pos) {
        Ok(x) => {
            return Ok(x);
        },
        Err(_) => {},
    }
    match streaming_concatenation(s, pos) {
        Ok((p, c)) => Ok((p, VariableLvalue::Concatenation(c))),
        Err(e) => Err(e),
    }
}

/// Parses the identifier form of a variable lvalue at `pos`.
pub fn variable_lvalue_identifier(s: &[u8], pos: usize) -> (r: Result<(usize, VariableLvalue), ParseError>)
    requires
        pos <= s@.len(),
    ensures
        match r {
            Ok((p, n)) => ident_form(s@, pos as int) == Some(p as int) && pos < p <= s@.len()
                && n is Identifier && var_lv_node(s@, pos as int, n),
            Err(e) => ident_form(s@, pos as int) is None && e.pos == pos,
        },
{
    let (p0, sc) = opt_package_scope(s, pos);
    let (p1, h) = match hierarchical_identifier(s, p0) {
        Ok(x) => x,
        Err(_) => {
            return Err(ParseError { pos });
        },
    };
    let (p2, sel) = select(s, p1);
    Ok((p2, VariableLvalue::Identifier(VariableLvalueIdentifier { scope: sc, identifier: h, select: sel })))
}

/// Parses `variable_lvalue { , variable_lvalue }` at `pos`.
fn variable_lvalue_seq(s: &[u8], pos: usize) -> (r: Result<(usize, Vec<VariableLvalue>), ParseError>)
    requires
        pos <= s@.len(),
    ensures
        match r {
            Ok((p, v)) => var_lv_seq(s@, pos as int) is Some && pos < p <= s@.len() && {
                let (e, st) = var_lv_seq(s@, pos as int).unwrap();
                &&& e == p
                &&& v@.len() == st.len()
                &&& forall|i: int| 0 <= i < st.len() ==> var_lv_node(s@, st[i], #[trigger] v[i])
            },
            Err(e) => var_lv_seq(s@, pos as int) is None && e.pos == pos,
        },
    decreases s@.len() - pos, 2int,
{
    let (q, first) = match variable_lvalue(s, pos) {
        Ok(x) => x,
        Err(e) => {
            return Err(e);
        },
    };
    let mut v: Vec<VariableLvalue> = Vec::new();
    v.push(first);
    let mut p: usize = q;
    let ghost mut done: Seq<int> = seq![pos as int];
    loop
        invariant
            pos < q <= p <= s@.len(),
            var_lv_tail(s@, q as int).0 == var_lv_tail(s@, p as int).0,
            seq![pos as int] + var_lv_tail(s@, q as int).1 == done + var_lv_tail(s@, p as int).1,
            v@.len() == done.len(),
            forall|i: int| 0 <= i < done.len() ==> var_lv_node(s@, done[i], #[trigger] v[i]),
        ensures
            pos < p <= s@.len(),
            var_lv_tail(s@, q as int).0 == p,
            seq![pos as int] + var_lv_tail(s@, q as int).1 == done,
            v@.len() == done.len(),
            forall|i: int| 0 <= i < done.len() ==> var_lv_node(s@, done[i], #[trigger] v[i]),
        decreases s@.len() - p,
    {
        let c = match symbol1(s, p, COMMA) {
            Ok(c) => c,
            Err(_) => {
                assert(done + var_lv_tail(s@, p as int).1 =~= done);
                break ;
            },
        };
        match variable_lvalue(s, c) {
            Ok((t, n)) => {
                v.push(n);
                proof {
                    assert(done + var_lv_tail(s@, p as int).1 =~= done.push(c as int)
                        + var_lv_tail(s@, t as int).1);
                    done = done.push(c as int);
                }
                p = t;
            },
            Err(_) => {
                assert(done + var_lv_tail(s@, p as int).1 =~= done);
                break ;
            },
        }
    }
    Ok((p, v))
}

/// Parses the list form `{ variable_lvalue, ... }` at `pos`.
pub fn variable_lvalue_lvalue(s: &[u8], pos: usize) -> (r: Result<(usize, VariableLvalue), ParseError>)
    requires
        pos <= s@.len(),
    ensures
        match r {
            Ok((p, n)) => var_lv_list(s@, pos as int) is Some && var_lv_list(s@, pos as int).unwrap().0
                == p && pos < p <= s@.len() && n is Lvalue && n->Lvalue_0@.len() >= 1 && {
                let st = var_lv_list(s@, pos as int).unwrap().1;
                &&& n->Lvalue_0@.len() == st.len()
                &&& forall|i: int| 0 <= i < st.len() ==> var_lv_node(s@, st[i], #[trigger] n->Lvalue_0[i])
            },
            Err(e) => var_lv_list(s@, pos as int) is None && e.pos == pos,
        },
    decreases s@.len() - pos, 0int,
{
    let p = match symbol1(s, pos, LBRACE) {
        Ok(p) => p,
        Err(e) => {
            return Err(e);
        },
    };
    let (q, v) = match variable_lvalue_seq(s, p) {
        Ok(x) => x,
        Err(_) => {
            return Err(ParseError { pos });
        },
    };
    match symbol1(s, q, RBRACE) {
        Ok(t) => Ok((t, VariableLvalue::Lvalue(v))),
        Err(_) => Err(ParseError { pos }),
    }
}

/// Parses the pattern form `[type] '{ variable_lvalue, ... }` at `pos`.
pub fn variable_lvalue_pattern(s: &[u8], pos: usize) -> (r: Result<(usize, VariableLvalue), ParseError>)
    requires
        pos <= s@.len(),
    ensures
        match r {
            Ok((p, n)) => var_lv_pattern(s@, pos as int) is Some && var_lv_pattern(
                s@,
                pos as int,
            ).unwrap().0 == p && pos < p <= s@.len() && n is Pattern
                && n->Pattern_0.lvalues@.len() >= 1
                && (n->Pattern_0.pattern_type is Some <==> ident(s@, pos as int) is Some)
                && (n->Pattern_0.pattern_type is Some ==> ident_node(
                s@,
                pos as int,
                n->Pattern_0.pattern_type.unwrap(),
            )) && {
                let st = var_lv_pattern(s@, pos as int).unwrap().1;
                &&& n->Pattern_0.lvalues@.len() == st.len()
                &&& forall|i: int|
                    0 <= i < st.len() ==> var_lv_node(s@, st[i], #[trigger] n->Pattern_0.lvalues[i])
            },
            Err(e) => var_lv_pattern(s@, pos as int) is None && e.pos == pos,
        },
    decreases s@.len() - pos, 0int,
{
    let (p0, ty) = match identifier(s, pos) {
        Ok((p0, id)) => (p0, Some(id)),
        Err(_) => (pos, None),
    };
    let p = match symbol2(s, p0, APOSTROPHE, LBRACE) {
        Ok(p) => p,
        Err(_) => {
            return Err(ParseError { pos });
        },
    };
    let (q, v) = match variable_lvalue_seq(s, p) {
        Ok(x) => x,
        Err(_) => {
            return Err(ParseError { pos });
        },
    };
    match symbol1(s, q, RBRACE) {
        Ok(t) => Ok((t, VariableLvalue::Pattern(VariableLvaluePattern { pattern_type: ty, lvalues: v }))),
        Err(_) => Err(ParseError { pos }),
    }
}

/// A variable lvalue restricted to bit selects, for places where a part
/// select is not allowed.
#[derive(Debug, PartialEq, Eq)]
pub struct NonrangeVariableLvalue {
    pub scope: Option<PackageScope>,
    pub identifier: HierarchicalIdentifier,
    pub select: Select,
}

/// A nonrange variable lvalue at `pos`: optional scope, hierarchical
/// identifier, bit selects.
pub open spec fn nonrange_lv(s: Seq<u8>, pos: int) -> Option<int> {
    match hier_ident(s, opt_scope(s, pos)) {
        Some(p) => Some(bit_selects(s, p)),
        None => None,
    }
}

/// `n` is the nonrange variable lvalue at `pos`: its scope, path and bit
/// selects are those of the text, and it has no part select.
pub open spec fn nonrange_node(s: Seq<u8>, pos: int, n: NonrangeVariableLvalue) -> bool {
    let p0 = opt_scope(s, pos);
    &&& (n.scope is Some <==> scope(s, pos) is Some)
    &&& (n.scope is Some ==> n.scope.unwrap().package.span.start == pos
        && n.scope.unwrap().package.span.end == ident_text_end(s, pos))
    &&& hier_node(s, p0, n.identifier)
    &&& bit_selects_node(s, hier_ident(s, p0).unwrap(), n.select.bit_select@)
    &&& n.select.part_select_range is None
}

/// Parses a nonrange variable lvalue at `pos`.
pub fn nonrange_variable_lvalue(s: &[u8], pos: usize) -> (r: Result<(usize, NonrangeVariableLvalue), ParseError>)
    requires
        pos <= s@.len(),
    ensures
        match r {
            Ok((p, n)) => nonrange_lv(s@, pos as int) == Some(p as int) && pos < p <= s@.len()
                && nonrange_node(s@, pos as int, n),
            Err(e) => nonrange_lv(s@, pos as int) is None && e.pos == pos,
        },
{
    let (p0, sc) = opt_package_scope(s, pos);
    let (p1, h) = match hierarchical_identifier(s, p0) {
        Ok(x) => x,
        Err(_) => {
            return Err(ParseError { pos });
        },
    };
    let (p2, sel) = nonrange_select(s, p1);
    Ok((p2, NonrangeVariableLvalue { scope: sc, identifier: h, select: sel }))
}

/// No production yields an empty list: wherever the list or pattern form of
/// a net or variable lvalue, or a streaming concatenation, matches, it holds
/// at least one element.
pub proof fn lemma_lists_nonempty(s: Seq<u8>, pos: int)
    ensures
        net_lv_list(s, pos) is Some ==> net_lv_list(s, pos).unwrap().1.len() >= 1,
        net_lv_pattern(s, pos) is Some ==> net_lv_pattern(s, pos).unwrap().1.len() >= 1,
        var_lv_list(s, pos) is Some ==> var_lv_list(s, pos).unwrap().1.len() >= 1,
        var_lv_pattern(s, pos) is Some ==> var_lv_pattern(s, pos).unwrap().1.len() >= 1,
        streaming(s, pos) is Some ==> streaming(s, pos).unwrap().1.len() >= 1,
{
    reveal_with_fuel(net_lv_seq, 2);
    reveal_with_fuel(var_lv_seq, 2);
}

/// `a` and `b` stand for the same identifier form: the same scope, path and
/// selector.
pub open spec fn same_ident_form(
    sc1: Option<PackageScope>,
    h1: HierarchicalIdentifier,
    sel1: Select,
    sc2: Option<PackageScope>,
    h2: HierarchicalIdentifier,
    sel2: Select,
) -> bool {
    &&& sc1 == sc2
    &&& h1.path@ == h2.path@
    &&& sel1.bit_select@ == sel2.bit_select@
    &&& sel1.part_select_range == sel2.part_select_range
}

/// `a` and `b` are the same net lvalue: the same form and the same leaves,
/// and the same children, element by element.
pub open spec fn same_net_lvalue(a: NetLvalue, b: NetLvalue) -> bool
    decreases a,
{
    match a {
        NetLvalue::Identifier(x) => b is Identifier && {
            let y = b->Identifier_0;
            same_ident_form(x.scope, x.identifier, x.select, y.scope, y.identifier, y.select)
        },
        NetLvalue::Lvalue(v) => b is Lvalue && {
            let w = b->Lvalue_0;
            &&& v@.len() == w@.len()
            &&& forall|i: int| 0 <= i < v@.len() ==> same_net_lvalue(#[trigger] v[i], w[i])
        },
        NetLvalue::Pattern(x) => b is Pattern && {
            let y = b->Pattern_0;
            &&& x.pattern_type == y.pattern_type
            &&& x.lvalues@.len() == y.lvalues@.len()
            &&& forall|i: int|
                0 <= i < x.lvalues@.len() ==> same_net_lvalue(#[trigger] x.lvalues[i], y.lvalues[i])
        },
    }
}

/// `a` and `b` are the same variable lvalue: the same form and the same
/// leaves, and the same children, element by element.
pub open spec fn same_variable_lvalue(a: VariableLvalue, b: VariableLvalue) -> bool
    decreases a,
{
    match a {
        VariableLvalue::Identifier(x) => b is Identifier && {
            let y = b->Identifier_0;
            same_ident_form(x.scope, x.identifier, x.select, y.scope, y.identifier, y.select)
        },
        VariableLvalue::Lvalue(v) => b is Lvalue && {
            let w = b->Lvalue_0;
            &&& v@.len() == w@.len()
            &&& forall|i: int| 0 <= i < v@.len() ==> same_variable_lvalue(#[trigger] v[i], w[i])
        },
        VariableLvalue::Pattern(x) => b is Pattern && {
            let y = b->Pattern_0;
            &&& x.pattern_type == y.pattern_type
            &&& x.lvalues@.len() == y.lvalues@.len()
            &&& forall|i: int|
                0 <= i < x.lvalues@.len() ==> same_variable_lvalue(
                    #[trigger] x.lvalues[i],
                    y.lvalues[i],
                )
        },
        VariableLvalue::Concatenation(c) => b is Concatenation && {
            let d = b->Concatenation_0;
            c.operator == d.operator && c.exprs@ == d.exprs@
        },
    }
}

proof fn lemma_ident_form_unique(
    s: Seq<u8>,
    pos: int,
    sc1: Option<PackageScope>,
    h1: HierarchicalIdentifier,
    sel1: Select,
    sc2: Option<PackageScope>,
    h2: HierarchicalIdentifier,
    sel2: Select,
)
    requires
        ident_form(s, pos) is Some,
        ident_form_node(s, pos, sc1, h1, sel1),
        ident_form_node(s, pos, sc2, h2, sel2),
    ensures
        same_ident_form(sc1, h1, sel1, sc2, h2, sel2),
{
    let p0 = opt_scope(s, pos);
    lemma_hier_unique(s, p0, h1, h2);
    lemma_select_unique(s, hier_ident(s, p0).unwrap(), sel1, sel2);
}

/// Parsing is deterministic: two net lvalues that both stand for the text at
/// `pos` are the same tree.
pub proof fn lemma_net_lvalue_deterministic(s: Seq<u8>, pos: int, a: NetLvalue, b: NetLvalue)
    requires
        net_lv_node(s, pos, a),
        net_lv_node(s, pos, b),
    ensures
        same_net_lvalue(a, b),
    decreases a,
{
    match a {
        NetLvalue::Identifier(x) => {
            let y = b->Identifier_0;
            lemma_ident_form_unique(s, pos, x.scope, x.identifier, x.select, y.scope, y.identifier, y.select);
        },
        NetLvalue::Lvalue(v) => {
            let w = b->Lvalue_0;
            let st = net_lv_list(s, pos).unwrap().1;
            assert forall|i: int| 0 <= i < v@.len() implies same_net_lvalue(#[trigger] v[i], w[i]) by {
                assert(net_lv_node(s, st[i], v[i]));
                assert(net_lv_node(s, st[i], w[i]));
                lemma_net_lvalue_deterministic(s, st[i], v[i], w[i]);
            }
        },
        NetLvalue::Pattern(x) => {
            let y = b->Pattern_0;
            let st = net_lv_pattern(s, pos).unwrap().1;
            assert forall|i: int| 0 <= i < x.lvalues@.len() implies same_net_lvalue(
                #[trigger] x.lvalues[i],
                y.lvalues[i],
            ) by {
                assert(net_lv_node(s, st[i], x.lvalues[i]));
                assert(net_lv_node(s, st[i], y.lvalues[i]));
                lemma_net_lvalue_deterministic(s, st[i], x.lvalues[i], y.lvalues[i]);
            }
        },
    }
}

/// Parsing is deterministic: two variable lvalues that both stand for the
/// text at `pos` are the same tree.
pub proof fn lemma_variable_lvalue_deterministic(
    s: Seq<u8>,
    pos: int,
    a: VariableLvalue,
    b: VariableLvalue,
)
    requires
        var_lv_node(s, pos, a),
        var_lv_node(s, pos, b),
    ensures
        same_variable_lvalue(a, b),
    decreases a,
{
    match a {
        VariableLvalue::Identifier(x) => {
            let y = b->Identifier_0;
            lemma_ident_form_unique(s, pos, x.scope, x.identifier, x.select, y.scope, y.identifier, y.select);
        },
        VariableLvalue::Lvalue(v) => {
            let w = b->Lvalue_0;
            let st = var_lv_list(s, pos).unwrap().1;
            assert forall|i: int| 0 <= i < v@.len() implies same_variable_lvalue(#[trigger] v[i], w[i]) by {
                assert(var_lv_node(s, st[i], v[i]));
                assert(var_lv_node(s, st[i], w[i]));
                lemma_variable_lvalue_deterministic(s, st[i], v[i], w[i]);
            }
        },
        VariableLvalue::Pattern(x) => {
            let y = b->Pattern_0;
            let st = var_lv_pattern(s, pos).unwrap().1;
            assert forall|i: int| 0 <= i < x.lvalues@.len() implies same_variable_lvalue(
                #[trigger] x.lvalues[i],
                y.lvalues[i],
            ) by {
                assert(var_lv_node(s, st[i], x.lvalues[i]));
                assert(var_lv_node(s, st[i], y.lvalues[i]));
                lemma_variable_lvalue_deterministic(s, st[i], x.lvalues[i], y.lvalues[i]);
            }
        },
        VariableLvalue::Concatenation(c) => {
            lemma_streaming_unique(s, pos, c, b->Concatenation_0);
        },
    }
}

/// Parsing is deterministic: two nonrange variable lvalues that both stand
/// for the text at `pos` have the same scope, path and selector.
pub proof fn lemma_nonrange_variable_lvalue_deterministic(
    s: Seq<u8>,
    pos: int,
    a: NonrangeVariableLvalue,
    b: NonrangeVariableLvalue,
)
    requires
        nonrange_lv(s, pos) is Some,
        nonrange_node(s, pos, a),
        nonrange_node(s, pos, b),
    ensures
        same_ident_form(a.scope, a.identifier, a.select, b.scope, b.identifier, b.select),
{
    let p0 = opt_scope(s, pos);
    lemma_hier_unique(s, p0, a.identifier, b.identifier);
    lemma_bit_selects_unique(s, hier_ident(s, p0).unwrap(), a.select.bit_select@, b.select.bit_select@);
}

} // verus!
