use tp::{Arrow, Constructed, Type, Variable};

#[test]
fn variable_renders_with_number() {
    let v = Type::Variable(Variable { number: 3 });
    assert_eq!(v.show(true), "t3");
    let v0 = Type::Variable(Variable { number: 0 });
    assert_eq!(v0.show(true), "t0");
    let v12 = Type::Variable(Variable { number: 12 });
    assert_eq!(v12.show(true), "t12");
}

#[test]
fn variable_renders_largest_number() {
    let v = Type::Variable(Variable { number: 4294967295 });
    assert_eq!(v.show(true), "t4294967295");
}

#[test]
fn variable_ignores_position_flag() {
    let v = Type::Variable(Variable { number: 7 });
    assert_eq!(v.show(true), "t7");
    assert_eq!(v.show(false), "t7");
}

#[test]
fn bare_constructed_renders_name() {
    let b = Type::Constructed(Constructed { name: String::from("Bool"), args: vec![] });
    assert_eq!(b.show(true), "Bool");
    assert_eq!(b.show(false), "Bool");
}

#[test]
fn parameterized_constructed_renders_arguments() {
    let list_int = Type::Constructed(Constructed {
        name: String::from("List"),
        args: vec![Type::Constructed(Constructed { name: String::from("Int"), args: vec![] })],
    });
    assert_eq!(list_int.show(true), "List(Int)");
}

#[test]
fn multi_argument_constructed_joins_with_commas() {
    let pair = Type::Constructed(Constructed {
        name: String::from("Pair"),
        args: vec![
            Type::Constructed(Constructed { name: String::from("Int"), args: vec![] }),
            Type::Constructed(Constructed { name: String::from("Bool"), args: vec![] }),
            Type::Variable(Variable { number: 0 }),
        ],
    });
    assert_eq!(pair.show(true), "Pair(Int,Bool,t0)");
}

#[test]
fn simple_arrow_renders_in_both_positions() {
    let a = Type::Arrow(Arrow {
        arg: Box::new(Type::Constructed(Constructed { name: String::from("Int"), args: vec![] })),
        ret: Box::new(Type::Constructed(Constructed { name: String::from("Bool"), args: vec![] })),
    });
    assert_eq!(a.show(true), "Int → Bool");
    assert_eq!(a.show(false), "(Int → Bool)");
}

#[test]
fn curried_chain_renders_flat() {
    let chain = Type::Arrow(Arrow {
        arg: Box::new(Type::Constructed(Constructed { name: String::from("Int"), args: vec![] })),
        ret: Box::new(Type::Arrow(Arrow {
            arg: Box::new(Type::Constructed(Constructed {
                name: String::from("Int"),
                args: vec![],
            })),
            ret: Box::new(Type::Constructed(Constructed {
                name: String::from("Bool"),
                args: vec![],
            })),
        })),
    });
    assert_eq!(chain.show(true), "Int → Int → Bool");
}

#[test]
fn arrow_argument_is_parenthesized() {
    let a = Type::Arrow(Arrow {
        arg: Box::new(Type::Arrow(Arrow {
            arg: Box::new(Type::Constructed(Constructed {
                name: String::from("Int"),
                args: vec![],
            })),
            ret: Box::new(Type::Constructed(Constructed {
                name: String::from("Int"),
                args: vec![],
            })),
        })),
        ret: Box::new(Type::Constructed(Constructed { name: String::from("Bool"), args: vec![] })),
    });
    assert_eq!(a.show(true), "(Int → Int) → Bool");
}

#[test]
fn arrow_inside_constructor_argument_renders_in_return_position() {
    let f = Type::Constructed(Constructed {
        name: String::from("List"),
        args: vec![Type::Arrow(Arrow {
            arg: Box::new(Type::Constructed(Constructed {
                name: String::from("Int"),
                args: vec![],
            })),
            ret: Box::new(Type::Constructed(Constructed {
                name: String::from("Bool"),
                args: vec![],
            })),
        })],
    });
    assert_eq!(f.show(true), "List(Int → Bool)");
}

#[test]
fn variables_render_inside_arrows() {
    let chain = Type::Arrow(Arrow {
        arg: Box::new(Type::Variable(Variable { number: 0 })),
        ret: Box::new(Type::Arrow(Arrow {
            arg: Box::new(Type::Variable(Variable { number: 1 })),
            ret: Box::new(Type::Variable(Variable { number: 0 })),
        })),
    });
    assert_eq!(chain.show(true), "t0 → t1 → t0");
}

#[test]
fn rendering_twice_gives_identical_strings() {
    let a = Type::Arrow(Arrow {
        arg: Box::new(Type::Variable(Variable { number: 2 })),
        ret: Box::new(Type::Constructed(Constructed { name: String::from("Bool"), args: vec![] })),
    });
    assert_eq!(a.show(true), a.show(true));
    assert_eq!(a.show(false), a.show(false));
}

#[test]
fn variant_show_methods_match_type_show() {
    let arrow = Arrow {
        arg: Box::new(Type::Constructed(Constructed { name: String::from("Int"), args: vec![] })),
        ret: Box::new(Type::Variable(Variable { number: 5 })),
    };
    assert_eq!(arrow.show(true), "Int → t5");
    assert_eq!(arrow.show(false), "(Int → t5)");
    let con = Constructed {
        name: String::from("Map"),
        args: vec![
            Type::Constructed(Constructed { name: String::from("Int"), args: vec![] }),
            Type::Variable(Variable { number: 1 }),
        ],
    };
    assert_eq!(con.show(true), "Map(Int,t1)");
    let var = Variable { number: 9 };
    assert_eq!(var.show(false), "t9");
}
