use hdl_lvalues::{attr_spec, attribute_instance, ConstantExpression, Span};

fn text(s: &[u8], sp: Span) -> &str {
    std::str::from_utf8(&s[sp.start..sp.end]).unwrap()
}

fn value_text(s: &[u8], v: &Option<ConstantExpression>) -> Option<String> {
    v.as_ref().map(|e| match e {
        ConstantExpression::Number(sp) => text(s, *sp).to_string(),
        ConstantExpression::Identifier(id) => text(s, id.span).to_string(),
    })
}

#[test]
fn attributes_test() {
    let s = b"(* full_case, parallel_case *)";
    let (p, a) = attribute_instance(s, 0).unwrap();
    assert_eq!(p, s.len());
    assert_eq!(a.specs.len(), 2);
    assert_eq!(text(s, a.specs[0].name.span), "full_case");
    assert_eq!(value_text(s, &a.specs[0].value), None);
    assert_eq!(text(s, a.specs[1].name.span), "parallel_case");
    assert_eq!(value_text(s, &a.specs[1].value), None);

    let s = b"(* full_case=1 *)";
    let (p, a) = attribute_instance(s, 0).unwrap();
    assert_eq!(p, s.len());
    assert_eq!(a.specs.len(), 1);
    assert_eq!(text(s, a.specs[0].name.span), "full_case");
    assert_eq!(value_text(s, &a.specs[0].value), Some("1".to_string()));

    let s = b"(* full_case=1, parallel_case = 0 *)";
    let (p, a) = attribute_instance(s, 0).unwrap();
    assert_eq!(p, s.len());
    assert_eq!(a.specs.len(), 2);
    assert_eq!(text(s, a.specs[0].name.span), "full_case");
    assert_eq!(value_text(s, &a.specs[0].value), Some("1".to_string()));
    assert_eq!(text(s, a.specs[1].name.span), "parallel_case");
    assert_eq!(value_text(s, &a.specs[1].value), Some("0".to_string()));
}

#[test]
fn attribute_names_without_values() {
    let s = b"(* full_case, parallel_case *)";
    let (_, a) = attribute_instance(s, 0).unwrap();
    assert_eq!(a.specs.len(), 2);
    assert!(a.specs.iter().all(|x| x.value.is_none()));
}

#[test]
fn attribute_values_with_spaces_around_equals() {
    let s = b"(* full_case=1, parallel_case = 0 *)";
    let (_, a) = attribute_instance(s, 0).unwrap();
    assert_eq!(a.specs[0].value, Some(ConstantExpression::Number(Span { start: 13, end: 14 })));
    assert_eq!(a.specs[1].value, Some(ConstantExpression::Number(Span { start: 32, end: 33 })));
}

#[test]
fn attribute_instance_needs_a_spec_and_delimiters() {
    assert_eq!(attribute_instance(b"(* *)", 0).unwrap_err().pos, 0);
    assert_eq!(attribute_instance(b"(**)", 0).unwrap_err().pos, 0);
    assert_eq!(attribute_instance(b"(* a", 0).unwrap_err().pos, 0);
    assert_eq!(attribute_instance(b"( a *)", 0).unwrap_err().pos, 0);
}

#[test]
fn attr_spec_without_value_after_equals() {
    let s = b"a = ;";
    let (p, x) = attr_spec(s, 0).unwrap();
    assert_eq!(p, 2);
    assert!(x.value.is_none());
    let (p, x) = attr_spec(b"width = W ", 0).unwrap();
    assert_eq!(p, 10);
    assert_eq!(x.value, Some(ConstantExpression::Identifier(hdl_lvalues::Identifier { span: Span { start: 8, end: 9 } })));
}

#[test]
fn attribute_instance_with_comments() {
    let s = b"(* full_case /* a */ , parallel_case = 0 // b\n*) x";
    let (p, a) = attribute_instance(s, 0).unwrap();
    assert_eq!(p, s.len() - 1);
    assert_eq!(a.specs.len(), 2);
    assert_eq!(text(s, a.specs[1].name.span), "parallel_case");
    assert_eq!(value_text(s, &a.specs[1].value), Some("0".to_string()));
}
