use derive_toolkit::bounds::{
    add_generic_trait_bounds, get_assoc_type_where_clause_preds, infer_bounds, omit_bound,
    reads_parameter, GeneratedPredicates, ParamBounds,
};
use derive_toolkit::debug::{generate_code, generate_formatter, CompanionImplementation, FieldFormat};
use derive_toolkit::descriptor::{extract, ExtractError, StructuralError};
use derive_toolkit::directive::DirectiveSyntaxError;
use derive_toolkit::syntax::{
    Attribute, Data, Declaration, FieldDecl, GenericArg, GenericParam, MetaStyle, ParamKind,
    PathArguments, PathSegment, Token, TypeExpr,
};

fn plain(name: &str) -> TypeExpr {
    TypeExpr {
        text: name.to_string(),
        path: Some(vec![PathSegment { ident: name.to_string(), args: PathArguments::Empty }]),
    }
}

fn wrapped(wrapper: &str, inner: TypeExpr) -> TypeExpr {
    TypeExpr {
        text: format!("{}<{}>", wrapper, inner.text),
        path: Some(vec![PathSegment {
            ident: wrapper.to_string(),
            args: PathArguments::AngleBracketed(vec![GenericArg::Type(inner)]),
        }]),
    }
}

fn path(segments: &[&str]) -> TypeExpr {
    TypeExpr {
        text: segments.join("::"),
        path: Some(
            segments
                .iter()
                .map(|s| PathSegment { ident: s.to_string(), args: PathArguments::Empty })
                .collect(),
        ),
    }
}

fn type_param(name: &str) -> GenericParam {
    GenericParam { kind: ParamKind::Type, name: name.to_string(), bounds: vec![] }
}

fn field(name: &str, ty: TypeExpr) -> FieldDecl {
    FieldDecl { name: Some(name.to_string()), ty, attrs: vec![] }
}

fn format(template_literal: &str) -> Attribute {
    Attribute {
        path: vec!["debug".to_string()],
        style: MetaStyle::NameValue,
        tokens: vec![Token::Literal(template_literal.to_string())],
    }
}

fn bound(path_literal: &str) -> Attribute {
    Attribute {
        path: vec!["debug".to_string()],
        style: MetaStyle::List,
        tokens: vec![
            Token::Ident("bound".to_string()),
            Token::Punct('='),
            Token::Literal(path_literal.to_string()),
        ],
    }
}

fn record(generics: Vec<GenericParam>, fields: Vec<FieldDecl>) -> Declaration {
    Declaration { name: "Field".to_string(), attrs: vec![], generics, data: Data::Struct(fields) }
}

fn unbounded(name: &str) -> ParamBounds {
    ParamBounds { name: name.to_string(), bounds: vec![] }
}

fn debug_bounded(name: &str) -> ParamBounds {
    ParamBounds { name: name.to_string(), bounds: vec!["std::fmt::Debug".to_string()] }
}

#[test]
fn fields_are_printed_in_declaration_order() {
    let mut bitmask = field("bitmask", plain("u16"));
    bitmask.attrs.push(format("\"0b{:08b}\""));
    let decl = record(vec![], vec![field("name", TypeExpr { text: "&'static str".to_string(), path: None }), bitmask]);
    assert_eq!(
        derive_toolkit::debug::derive(&decl),
        Ok(CompanionImplementation {
            target: "Field".to_string(),
            params: vec![],
            predicates: vec![],
            fields: vec![
                FieldFormat { name: "name".to_string(), template: None },
                FieldFormat { name: "bitmask".to_string(), template: Some("0b{:08b}".to_string()) },
            ],
        })
    );
    assert_eq!(generate_code(&decl), derive_toolkit::debug::derive(&decl));
}

#[test]
fn debug_derive_refuses_what_is_no_record() {
    let mut decl = record(vec![], vec![]);
    decl.data = Data::Enum;
    assert_eq!(
        derive_toolkit::debug::derive(&decl),
        Err(ExtractError::Declaration(StructuralError::UnsupportedKind))
    );
    decl.data = Data::Union;
    assert_eq!(
        derive_toolkit::debug::derive(&decl),
        Err(ExtractError::Declaration(StructuralError::UnsupportedKind))
    );
    decl.data = Data::Struct(vec![FieldDecl { name: None, ty: plain("u8"), attrs: vec![] }]);
    assert_eq!(
        derive_toolkit::debug::derive(&decl),
        Err(ExtractError::Declaration(StructuralError::TupleRecord))
    );
}

#[test]
fn faulty_template_names_the_field() {
    let mut second = field("b", plain("u8"));
    second.attrs.push(format("5"));
    let decl = record(vec![], vec![field("a", plain("u8")), second]);
    assert_eq!(
        derive_toolkit::debug::derive(&decl),
        Err(ExtractError::Directive {
            field: 1,
            error: DirectiveSyntaxError::ExpectedFormatString
        })
    );
    let mut twice = field("a", plain("u8"));
    twice.attrs.push(format("\"{}\""));
    twice.attrs.push(format("\"{}\""));
    let decl = record(vec![], vec![twice]);
    assert_eq!(
        derive_toolkit::debug::derive(&decl),
        Err(ExtractError::Directive { field: 0, error: DirectiveSyntaxError::RepeatedFormat })
    );
}

#[test]
fn every_type_parameter_is_bounded_by_default() {
    let decl = record(
        vec![
            type_param("T"),
            GenericParam {
                kind: ParamKind::Lifetime,
                name: "'a".to_string(),
                bounds: vec!["'static".to_string()],
            },
            GenericParam {
                kind: ParamKind::Type,
                name: "U".to_string(),
                bounds: vec!["Clone".to_string()],
            },
            GenericParam { kind: ParamKind::Const, name: "N".to_string(), bounds: vec![] },
        ],
        vec![field("value", plain("T")), field("other", wrapped("Vec", plain("U")))],
    );
    let desc = extract(&decl).unwrap();
    assert_eq!(
        infer_bounds(&desc),
        GeneratedPredicates {
            params: vec![
                debug_bounded("T"),
                ParamBounds { name: "'a".to_string(), bounds: vec!["'static".to_string()] },
                ParamBounds {
                    name: "U".to_string(),
                    bounds: vec!["Clone".to_string(), "std::fmt::Debug".to_string()],
                },
                unbounded("N"),
            ],
            predicates: vec![],
        }
    );
}

#[test]
fn phantom_parameter_gets_no_bound() {
    let decl = record(
        vec![type_param("T"), type_param("U")],
        vec![
            field("marker", wrapped("PhantomData", plain("T"))),
            field("value", plain("U")),
        ],
    );
    let desc = extract(&decl).unwrap();
    assert!(omit_bound(&desc.fields[0], "T"));
    assert!(!omit_bound(&desc.fields[0], "U"));
    assert!(!omit_bound(&desc.fields[1], "U"));
    assert_eq!(
        infer_bounds(&desc),
        GeneratedPredicates { params: vec![unbounded("T"), debug_bounded("U")], predicates: vec![] }
    );
}

#[test]
fn phantom_marker_is_recognised_by_its_own_name_only() {
    let decl = record(
        vec![type_param("T")],
        vec![
            field("a", wrapped("Vec", plain("T"))),
            field("b", wrapped("PhantomData", wrapped("Vec", plain("T")))),
            field("c", plain("T")),
        ],
    );
    let desc = extract(&decl).unwrap();
    assert!(!omit_bound(&desc.fields[0], "T"));
    assert!(!omit_bound(&desc.fields[1], "T"));
    assert!(!omit_bound(&desc.fields[2], "T"));
    assert_eq!(infer_bounds(&desc).params, vec![debug_bounded("T")]);
}

#[test]
fn parameter_in_the_marker_that_is_also_read_keeps_the_bound() {
    let decl = record(
        vec![type_param("T")],
        vec![field("marker", wrapped("PhantomData", plain("T"))), field("value", plain("T"))],
    );
    let desc = extract(&decl).unwrap();
    assert!(omit_bound(&desc.fields[0], "T"));
    assert!(!reads_parameter(&desc.fields[0], "T"));
    assert!(reads_parameter(&desc.fields[1], "T"));
    assert_eq!(infer_bounds(&desc).params, vec![debug_bounded("T")]);
    let decl = record(
        vec![type_param("T")],
        vec![field("value", plain("T")), field("marker", wrapped("PhantomData", plain("T")))],
    );
    let desc = extract(&decl).unwrap();
    assert_eq!(infer_bounds(&desc).params, vec![debug_bounded("T")]);
}

#[test]
fn parameter_behind_an_associated_type_that_is_also_read_keeps_the_bound() {
    let decl = record(
        vec![type_param("T")],
        vec![field("a", wrapped("Vec", path(&["T", "Value"]))), field("b", plain("T"))],
    );
    let desc = extract(&decl).unwrap();
    assert_eq!(
        infer_bounds(&desc),
        GeneratedPredicates {
            params: vec![debug_bounded("T")],
            predicates: vec!["T::Value".to_string()],
        }
    );
}

#[test]
fn a_read_in_the_same_type_keeps_the_bound() {
    let map = TypeExpr {
        text: "HashMap<T::Key, T>".to_string(),
        path: Some(vec![PathSegment {
            ident: "HashMap".to_string(),
            args: PathArguments::AngleBracketed(vec![
                GenericArg::Type(path(&["T", "Key"])),
                GenericArg::Type(plain("T")),
            ]),
        }]),
    };
    let decl = record(vec![type_param("T")], vec![field("map", map)]);
    let desc = extract(&decl).unwrap();
    assert!(omit_bound(&desc.fields[0], "T"));
    assert!(reads_parameter(&desc.fields[0], "T"));
    assert_eq!(infer_bounds(&desc).params, vec![debug_bounded("T")]);
}

#[test]
fn a_read_inside_any_kind_of_type_keeps_the_bound() {
    for text in ["&'static T", "(u8, T)", "[T; 4]", "Box<dyn Fn(T) -> u8>", "* const T"] {
        let decl = record(
            vec![type_param("T")],
            vec![
                field("marker", wrapped("PhantomData", plain("T"))),
                field("value", TypeExpr { text: text.to_string(), path: None }),
            ],
        );
        let desc = extract(&decl).unwrap();
        assert!(reads_parameter(&desc.fields[1], "T"), "{text}");
        assert_eq!(infer_bounds(&desc).params, vec![debug_bounded("T")], "{text}");
    }
}

#[test]
fn other_names_are_no_reads() {
    for text in ["&'static str", "Tree", "(u8, aT)", "&'T u8", "T2", "_T"] {
        let decl = record(
            vec![type_param("T")],
            vec![
                field("marker", wrapped("PhantomData", plain("T"))),
                field("value", TypeExpr { text: text.to_string(), path: None }),
            ],
        );
        let desc = extract(&decl).unwrap();
        assert!(!reads_parameter(&desc.fields[1], "T"), "{text}");
        assert_eq!(infer_bounds(&desc).params, vec![unbounded("T")], "{text}");
    }
}

#[test]
fn marker_and_associated_type_are_found_at_any_depth() {
    let decl = record(
        vec![type_param("T"), type_param("U")],
        vec![
            field("deep", wrapped("Option", wrapped("PhantomData", plain("T")))),
            field("far", wrapped("Option", wrapped("Vec", path(&["U", "Item"])))),
        ],
    );
    let desc = extract(&decl).unwrap();
    assert!(omit_bound(&desc.fields[0], "T"));
    assert!(!reads_parameter(&desc.fields[0], "T"));
    assert!(omit_bound(&desc.fields[1], "U"));
    assert!(!reads_parameter(&desc.fields[1], "U"));
    assert_eq!(
        infer_bounds(&desc),
        GeneratedPredicates {
            params: vec![unbounded("T"), unbounded("U")],
            predicates: vec!["U::Item".to_string()],
        }
    );
}

#[test]
fn a_field_of_an_associated_type_reads_the_parameter() {
    let decl = record(vec![type_param("T")], vec![field("own", path(&["T", "Value"]))]);
    let desc = extract(&decl).unwrap();
    assert!(!omit_bound(&desc.fields[0], "T"));
    assert!(reads_parameter(&desc.fields[0], "T"));
    assert_eq!(
        infer_bounds(&desc),
        GeneratedPredicates { params: vec![debug_bounded("T")], predicates: vec![] }
    );
    let decl = record(
        vec![type_param("T")],
        vec![field("far", wrapped("Vec", path(&["T", "Value"]))), field("own", path(&["T", "Value"]))],
    );
    let desc = extract(&decl).unwrap();
    assert_eq!(
        infer_bounds(&desc),
        GeneratedPredicates {
            params: vec![debug_bounded("T")],
            predicates: vec!["T::Value".to_string()],
        }
    );
}

#[test]
fn a_declared_type_is_never_a_predicate() {
    let decl = record(
        vec![],
        vec![
            field("name", path(&["std", "string", "String"])),
            field("pair", path(&["a", "B"])),
            field("plain", plain("u8")),
            field("other", TypeExpr { text: "&'static a::B".to_string(), path: None }),
        ],
    );
    let desc = extract(&decl).unwrap();
    assert_eq!(get_assoc_type_where_clause_preds(&desc.fields), Vec::<String>::new());
    assert_eq!(
        infer_bounds(&desc),
        GeneratedPredicates { params: vec![], predicates: vec![] }
    );
    let decl = record(vec![], vec![field("names", wrapped("Vec", path(&["a", "B"])))]);
    let desc = extract(&decl).unwrap();
    assert_eq!(get_assoc_type_where_clause_preds(&desc.fields), vec!["a::B".to_string()]);
}

#[test]
fn associated_types_inside_an_associated_type_are_listed_after_it() {
    let inner = TypeExpr {
        text: "T::Map<U::Key>".to_string(),
        path: Some(vec![
            PathSegment { ident: "T".to_string(), args: PathArguments::Empty },
            PathSegment {
                ident: "Map".to_string(),
                args: PathArguments::AngleBracketed(vec![GenericArg::Type(path(&["U", "Key"]))]),
            },
        ]),
    };
    let decl = record(
        vec![type_param("T"), type_param("U")],
        vec![field("value", wrapped("Box", inner))],
    );
    let desc = extract(&decl).unwrap();
    assert_eq!(
        infer_bounds(&desc),
        GeneratedPredicates {
            params: vec![unbounded("T"), unbounded("U")],
            predicates: vec!["T::Map<U::Key>".to_string(), "U::Key".to_string()],
        }
    );
}

#[test]
fn a_read_at_any_depth_keeps_the_bound() {
    let decl = record(
        vec![type_param("T")],
        vec![
            field("marker", wrapped("PhantomData", plain("T"))),
            field("deep", wrapped("Option", wrapped("Vec", plain("T")))),
        ],
    );
    let desc = extract(&decl).unwrap();
    assert!(reads_parameter(&desc.fields[1], "T"));
    assert_eq!(infer_bounds(&desc).params, vec![debug_bounded("T")]);
}

#[test]
fn unused_parameter_is_bounded_by_default() {
    let decl = record(vec![type_param("T")], vec![field("value", plain("u8"))]);
    let desc = extract(&decl).unwrap();
    assert_eq!(infer_bounds(&desc).params, vec![debug_bounded("T")]);
}

#[test]
fn associated_type_gets_the_predicate() {
    let decl = record(
        vec![type_param("T")],
        vec![field("values", wrapped("Vec", path(&["T", "Value"])))],
    );
    let desc = extract(&decl).unwrap();
    assert!(omit_bound(&desc.fields[0], "T"));
    assert_eq!(get_assoc_type_where_clause_preds(&desc.fields), vec!["T::Value".to_string()]);
    assert_eq!(
        infer_bounds(&desc),
        GeneratedPredicates {
            params: vec![unbounded("T")],
            predicates: vec!["T::Value".to_string()],
        }
    );
}

#[test]
fn associated_types_are_listed_in_order() {
    let both = TypeExpr {
        text: "Map<K::Key, u8, V::Item>".to_string(),
        path: Some(vec![PathSegment {
            ident: "Map".to_string(),
            args: PathArguments::AngleBracketed(vec![
                GenericArg::Type(path(&["K", "Key"])),
                GenericArg::Type(plain("u8")),
                GenericArg::Other("'a".to_string()),
                GenericArg::Type(path(&["V", "Item"])),
            ]),
        }]),
    };
    let decl = record(
        vec![type_param("K"), type_param("V"), type_param("W")],
        vec![
            field("first", wrapped("Vec", path(&["W", "Out"]))),
            field("plain", path(&["W", "Out"])),
            field("map", both),
            field("again", wrapped("Box", path(&["W", "Out"]))),
        ],
    );
    let desc = extract(&decl).unwrap();
    assert_eq!(
        infer_bounds(&desc),
        GeneratedPredicates {
            params: vec![unbounded("K"), unbounded("V"), debug_bounded("W")],
            predicates: vec![
                "W::Out".to_string(),
                "K::Key".to_string(),
                "V::Item".to_string(),
                "W::Out".to_string(),
            ],
        }
    );
}

#[test]
fn explicit_bound_replaces_inference() {
    let mut decl = record(
        vec![type_param("T"), type_param("U")],
        vec![field("values", wrapped("Vec", path(&["T", "Value"]))), field("u", plain("U"))],
    );
    decl.attrs.push(bound("\"T::Value\""));
    let desc = extract(&decl).unwrap();
    assert_eq!(desc.bound, Some(vec!["T".to_string(), "Value".to_string()]));
    assert_eq!(
        infer_bounds(&desc),
        GeneratedPredicates {
            params: vec![unbounded("T"), unbounded("U")],
            predicates: vec!["T::Value".to_string()],
        }
    );
    let implementation = derive_toolkit::debug::derive(&decl).unwrap();
    assert_eq!(implementation.params, vec![unbounded("T"), unbounded("U")]);
    assert_eq!(implementation.predicates, vec!["T::Value".to_string()]);
}

#[test]
fn bounds_can_be_added_without_inference() {
    let decl = record(vec![type_param("T")], vec![field("value", plain("T"))]);
    let desc = extract(&decl).unwrap();
    assert_eq!(add_generic_trait_bounds(desc.generics, &desc.fields, false), vec![unbounded("T")]);
    assert_eq!(
        add_generic_trait_bounds(desc.generics, &desc.fields, true),
        vec![debug_bounded("T")]
    );
}

#[test]
fn formatter_takes_the_predicates_it_is_given() {
    let mut decl = record(vec![type_param("T")], vec![field("value", plain("T"))]);
    decl.data = Data::Struct(vec![{
        let mut f = field("value", plain("T"));
        f.attrs.push(format("\"<{}>\""));
        f
    }]);
    let desc = extract(&decl).unwrap();
    let predicates = GeneratedPredicates {
        params: vec![ParamBounds { name: "T".to_string(), bounds: vec!["X".to_string()] }],
        predicates: vec!["Y".to_string()],
    };
    assert_eq!(
        generate_formatter(&desc, predicates),
        CompanionImplementation {
            target: "Field".to_string(),
            params: vec![ParamBounds { name: "T".to_string(), bounds: vec!["X".to_string()] }],
            predicates: vec!["Y".to_string()],
            fields: vec![FieldFormat {
                name: "value".to_string(),
                template: Some("<{}>".to_string())
            }],
        }
    );
}
