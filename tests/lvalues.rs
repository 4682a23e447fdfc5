use hdl_lvalues::{
    net_lvalue, nonrange_variable_lvalue, variable_lvalue, ConstantExpression, NetLvalue,
    NetLvalueIdentifier, Span, VariableLvalue, VariableLvalueIdentifier, StreamOperator,
    net_lvalue_lvalue, net_lvalue_identifier, net_lvalue_pattern, variable_lvalue_identifier,
    variable_lvalue_lvalue, variable_lvalue_pattern, Select, HierarchicalIdentifier,
};

fn text(s: &[u8], sp: Span) -> &str {
    std::str::from_utf8(&s[sp.start..sp.end]).unwrap()
}

fn expr_text(s: &[u8], e: &ConstantExpression) -> String {
    match e {
        ConstantExpression::Number(sp) => format!("num:{}", text(s, *sp)),
        ConstantExpression::Identifier(id) => format!("id:{}", text(s, id.span)),
    }
}

fn path_text(s: &[u8], h: &HierarchicalIdentifier) -> Vec<String> {
    h.path.iter().map(|id| text(s, id.span).to_string()).collect()
}

fn select_text(s: &[u8], sel: &Select) -> (Vec<String>, Option<(String, String)>) {
    let bits = sel.bit_select.iter().map(|e| expr_text(s, e)).collect();
    let range = sel.part_select_range.as_ref().map(|(a, b)| (expr_text(s, a), expr_text(s, b)));
    (bits, range)
}

fn net_ident<'a>(n: &'a NetLvalue) -> &'a NetLvalueIdentifier {
    match n {
        NetLvalue::Identifier(x) => x,
        _ => panic!("not the identifier form: {:?}", n),
    }
}

fn var_ident<'a>(n: &'a VariableLvalue) -> &'a VariableLvalueIdentifier {
    match n {
        VariableLvalue::Identifier(x) => x,
        _ => panic!("not the identifier form: {:?}", n),
    }
}

fn strs(v: &[&str]) -> Vec<String> {
    v.iter().map(|x| x.to_string()).collect()
}

#[test]
fn expression_leftside_values_test() {
    let s = b"a";
    let (p, n) = net_lvalue(s, 0).unwrap();
    assert_eq!(p, 1);
    let x = net_ident(&n);
    assert!(x.scope.is_none());
    assert_eq!(path_text(s, &x.identifier), strs(&["a"]));
    assert_eq!(select_text(s, &x.select), (vec![], None));

    let s = b"a[1][2]";
    let (p, n) = net_lvalue(s, 0).unwrap();
    assert_eq!(p, s.len());
    let x = net_ident(&n);
    assert_eq!(path_text(s, &x.identifier), strs(&["a"]));
    assert_eq!(select_text(s, &x.select), (strs(&["num:1", "num:2"]), None));

    let s = b"a[1][10:5]";
    let (p, n) = net_lvalue(s, 0).unwrap();
    assert_eq!(p, s.len());
    let x = net_ident(&n);
    assert_eq!(
        select_text(s, &x.select),
        (strs(&["num:1"]), Some(("num:10".to_string(), "num:5".to_string())))
    );

    let s = b"{a, b[1], c}";
    let (p, n) = net_lvalue(s, 0).unwrap();
    assert_eq!(p, s.len());
    match &n {
        NetLvalue::Lvalue(v) => {
            assert_eq!(v.len(), 3);
            assert_eq!(path_text(s, &net_ident(&v[0]).identifier), strs(&["a"]));
            assert_eq!(select_text(s, &net_ident(&v[0]).select), (vec![], None));
            assert_eq!(path_text(s, &net_ident(&v[1]).identifier), strs(&["b"]));
            assert_eq!(select_text(s, &net_ident(&v[1]).select), (strs(&["num:1"]), None));
            assert_eq!(path_text(s, &net_ident(&v[2]).identifier), strs(&["c"]));
            assert_eq!(select_text(s, &net_ident(&v[2]).select), (vec![], None));
        }
        _ => panic!("not the list form"),
    }

    let s = b"a";
    let (p, n) = variable_lvalue(s, 0).unwrap();
    assert_eq!(p, 1);
    let x = var_ident(&n);
    assert!(x.scope.is_none());
    assert_eq!(path_text(s, &x.identifier), strs(&["a"]));
    assert_eq!(select_text(s, &x.select), (vec![], None));

    let s = b"a[1][2]";
    let (p, n) = variable_lvalue(s, 0).unwrap();
    assert_eq!(p, s.len());
    assert_eq!(select_text(s, &var_ident(&n).select), (strs(&["num:1", "num:2"]), None));

    let s = b"a[1][10:5]";
    let (p, n) = variable_lvalue(s, 0).unwrap();
    assert_eq!(p, s.len());
    assert_eq!(
        select_text(s, &var_ident(&n).select),
        (strs(&["num:1"]), Some(("num:10".to_string(), "num:5".to_string())))
    );

    let s = b"{a, b[1], c}";
    let (p, n) = variable_lvalue(s, 0).unwrap();
    assert_eq!(p, s.len());
    match &n {
        VariableLvalue::Lvalue(v) => {
            assert_eq!(v.len(), 3);
            assert_eq!(path_text(s, &var_ident(&v[0]).identifier), strs(&["a"]));
            assert_eq!(select_text(s, &var_ident(&v[1]).select), (strs(&["num:1"]), None));
            assert_eq!(path_text(s, &var_ident(&v[2]).identifier), strs(&["c"]));
        }
        _ => panic!("not the list form"),
    }

    let s = b"a";
    let (p, n) = nonrange_variable_lvalue(s, 0).unwrap();
    assert_eq!(p, 1);
    assert!(n.scope.is_none());
    assert_eq!(path_text(s, &n.identifier), strs(&["a"]));
    assert_eq!(select_text(s, &n.select), (vec![], None));

    let s = b"a[1][2]";
    let (p, n) = nonrange_variable_lvalue(s, 0).unwrap();
    assert_eq!(p, s.len());
    assert_eq!(select_text(s, &n.select), (strs(&["num:1", "num:2"]), None));
}

#[test]
fn net_lvalue_single_identifier() {
    let s = b"a";
    let (p, n) = net_lvalue(s, 0).unwrap();
    assert_eq!(p, 1);
    let x = net_ident(&n);
    assert_eq!(x.identifier.path.len(), 1);
    assert_eq!(x.identifier.path[0].span, Span { start: 0, end: 1 });
    assert!(x.select.bit_select.is_empty());
    assert!(x.select.part_select_range.is_none());
}

#[test]
fn net_lvalue_two_bit_selects() {
    let s = b"a[1][2]";
    let (_, n) = net_lvalue(s, 0).unwrap();
    let x = net_ident(&n);
    assert_eq!(
        x.select.bit_select,
        vec![
            ConstantExpression::Number(Span { start: 2, end: 3 }),
            ConstantExpression::Number(Span { start: 5, end: 6 }),
        ]
    );
    assert!(x.select.part_select_range.is_none());
}

#[test]
fn net_lvalue_bit_select_and_range() {
    let s = b"a[1][10:5]";
    let (_, n) = net_lvalue(s, 0).unwrap();
    let x = net_ident(&n);
    assert_eq!(x.select.bit_select, vec![ConstantExpression::Number(Span { start: 2, end: 3 })]);
    assert_eq!(
        x.select.part_select_range,
        Some((
            ConstantExpression::Number(Span { start: 5, end: 7 }),
            ConstantExpression::Number(Span { start: 8, end: 9 }),
        ))
    );
}

#[test]
fn net_lvalue_braced_list() {
    let s = b"{a, b[1], c}";
    let (p, n) = net_lvalue(s, 0).unwrap();
    assert_eq!(p, 12);
    match n {
        NetLvalue::Lvalue(v) => {
            assert_eq!(v.len(), 3);
            assert!(v.iter().all(|e| matches!(e, NetLvalue::Identifier(_))));
        }
        _ => panic!("not the list form"),
    }
}

#[test]
fn net_lvalue_rejects_empty_braces() {
    assert_eq!(net_lvalue(b"{}", 0).unwrap_err().pos, 0);
    assert_eq!(net_lvalue_lvalue(b"{}", 0).unwrap_err().pos, 0);
}

#[test]
fn failed_alternative_keeps_cursor() {
    let s = b"x = {a, }";
    assert_eq!(net_lvalue(s, 4).unwrap_err().pos, 4);
    assert_eq!(net_lvalue_identifier(s, 4).unwrap_err().pos, 4);
    assert_eq!(net_lvalue_pattern(s, 4).unwrap_err().pos, 4);
    assert_eq!(variable_lvalue(s, 4).unwrap_err().pos, 4);
}

#[test]
fn remaining_text_is_left_untouched() {
    let s = b"a[3] = b;";
    let (p, _) = net_lvalue(s, 0).unwrap();
    assert_eq!(p, 5);
    assert_eq!(&s[p..], b"= b;");
    let (p, _) = variable_lvalue(b"{a,b}  ;", 0).unwrap();
    assert_eq!(p, 7);
}

#[test]
fn parsing_twice_gives_the_same_tree() {
    let s = b"{a.b[1], p::q[2][3:0], '{c, d}}";
    let first = net_lvalue(s, 0).unwrap();
    let second = net_lvalue(s, 0).unwrap();
    assert_eq!(first, second);
    assert_eq!(first.0, s.len());
}

#[test]
fn net_lvalue_pattern_form() {
    let s = b"t'{c, d}";
    // the identifier form comes first and matches `t` alone
    let (p, n) = net_lvalue(s, 0).unwrap();
    assert_eq!(p, 1);
    assert!(matches!(n, NetLvalue::Identifier(_)));
    let (p, n) = net_lvalue_pattern(s, 0).unwrap();
    assert_eq!(p, s.len());
    match n {
        NetLvalue::Pattern(x) => {
            assert_eq!(x.pattern_type.unwrap().span, Span { start: 0, end: 1 });
            assert_eq!(x.lvalues.len(), 2);
        }
        _ => panic!("not the pattern form"),
    }
    let (_, n) = net_lvalue_pattern(b"'{c}", 0).unwrap();
    assert!(matches!(n, NetLvalue::Pattern(ref x) if x.pattern_type.is_none()));
}

#[test]
fn scoped_and_hierarchical_identifier() {
    let s = b"pkg::top.sub.sig[0]";
    let (p, n) = variable_lvalue_identifier(s, 0).unwrap();
    assert_eq!(p, s.len());
    let x = var_ident(&n);
    assert_eq!(text(s, x.scope.unwrap().package.span), "pkg");
    assert_eq!(path_text(s, &x.identifier), strs(&["top", "sub", "sig"]));
    assert_eq!(select_text(s, &x.select), (strs(&["num:0"]), None));
}

#[test]
fn variable_lvalue_streaming_concatenation() {
    let s = b"{>> {a, b, 4}}";
    let (p, n) = variable_lvalue(s, 0).unwrap();
    assert_eq!(p, s.len());
    match n {
        VariableLvalue::Concatenation(c) => {
            assert_eq!(c.operator, StreamOperator::Right);
            assert_eq!(c.exprs.len(), 3);
            assert_eq!(expr_text(s, &c.exprs[2]), "num:4");
        }
        _ => panic!("not a streaming concatenation"),
    }
    assert!(variable_lvalue_lvalue(s, 0).is_err());
    let (_, n) = variable_lvalue(b"{<< {x}}", 0).unwrap();
    assert!(matches!(n, VariableLvalue::Concatenation(ref c) if c.operator == StreamOperator::Left));
}

#[test]
fn variable_lvalue_list_and_pattern() {
    let (p, n) = variable_lvalue_lvalue(b"{ a , {b, c} }", 0).unwrap();
    assert_eq!(p, 14);
    match n {
        VariableLvalue::Lvalue(v) => {
            assert_eq!(v.len(), 2);
            assert!(matches!(&v[1], VariableLvalue::Lvalue(w) if w.len() == 2));
        }
        _ => panic!("not the list form"),
    }
    let (_, n) = variable_lvalue_pattern(b"'{a, b, c}", 0).unwrap();
    assert!(matches!(n, VariableLvalue::Pattern(ref x) if x.lvalues.len() == 3));
}

#[test]
fn nonrange_lvalue_stops_before_part_select() {
    let s = b"a[1][10:5]";
    let (p, n) = nonrange_variable_lvalue(s, 0).unwrap();
    assert_eq!(p, 4);
    assert_eq!(select_text(s, &n.select), (strs(&["num:1"]), None));
    assert_eq!(nonrange_variable_lvalue(b"[1]", 0).unwrap_err().pos, 0);
}

#[test]
fn comments_are_trivia_after_tokens() {
    let s = b"{a /* first */, // rest\n b}";
    let (p, n) = net_lvalue(s, 0).unwrap();
    assert_eq!(p, s.len());
    assert!(matches!(n, NetLvalue::Lvalue(ref v) if v.len() == 2));
    // an unclosed block comment is not trivia
    let (p, _) = net_lvalue(b"a /* open", 0).unwrap();
    assert_eq!(p, 2);
}
