use derive_toolkit::builder::{
    Accessor, Action, AssemblyOperation, AssemblyStep, CompanionType, Initial, Slot, Transfer,
};
use derive_toolkit::companion::{Argument, AssemblyError, Companion, FieldValue, Stored};
use derive_toolkit::syntax::{
    Attribute, Data, Declaration, FieldDecl, GenericArg, MetaStyle, PathArguments, PathSegment,
    Token, TypeExpr,
};

fn plain(name: &str) -> TypeExpr {
    TypeExpr {
        text: name.to_string(),
        path: Some(vec![PathSegment { ident: name.to_string(), args: PathArguments::Empty }]),
    }
}

fn wrapped(wrapper: &str, inner: TypeExpr) -> TypeExpr {
    TypeExpr {
        text: format!("{}<{}>", wrapper, inner.text),
        path: Some(vec![PathSegment {
            ident: wrapper.to_string(),
            args: PathArguments::AngleBracketed(vec![GenericArg::Type(inner)]),
        }]),
    }
}

fn each(name: &str) -> Attribute {
    Attribute {
        path: vec!["builder".to_string()],
        style: MetaStyle::List,
        tokens: vec![
            Token::Ident("each".to_string()),
            Token::Punct('='),
            Token::Literal(format!("\"{}\"", name)),
        ],
    }
}

fn field(name: &str, ty: TypeExpr, attrs: Vec<Attribute>) -> FieldDecl {
    FieldDecl { name: Some(name.to_string()), ty, attrs }
}

fn generated(fields: Vec<FieldDecl>) -> (CompanionType, AssemblyOperation) {
    let decl = Declaration {
        name: "Command".to_string(),
        attrs: vec![],
        generics: vec![],
        data: Data::Struct(fields),
    };
    derive_toolkit::builder::derive(&decl).unwrap()
}

/// executable: String, args: Vec<String> (each = "arg"), env: Vec<String>, current_dir: Option<String>
fn command() -> (CompanionType, AssemblyOperation) {
    generated(vec![
        field("executable", plain("String"), vec![]),
        field("args", wrapped("Vec", plain("String")), vec![each("arg")]),
        field("env", wrapped("Vec", plain("String")), vec![]),
        field("current_dir", wrapped("Option", plain("String")), vec![]),
    ])
}

fn bare_only() -> (CompanionType, AssemblyOperation) {
    generated(vec![
        field("a", plain("u8"), vec![]),
        field("b", plain("u8"), vec![]),
        field("c", plain("u8"), vec![]),
    ])
}

#[test]
fn fresh_companion_holds_nothing() {
    let (companion, _) = command();
    let state: Companion<&str> = Companion::new(&companion);
    assert_eq!(
        state.slots,
        vec![Stored::Absent, Stored::Items(vec![]), Stored::Items(vec![]), Stored::Absent]
    );
}

#[test]
fn build_fails_on_a_fresh_bare_record_naming_the_first_field() {
    let (companion, assembly) = bare_only();
    let state: Companion<u8> = Companion::new(&companion);
    let error = state.into_record(&assembly).unwrap_err();
    assert_eq!(error, AssemblyError { field: "a".to_string() });
    assert_eq!(error.message(), "a must be set");
}

#[test]
fn build_names_the_first_unset_field() {
    let (companion, assembly) = bare_only();
    let mut state: Companion<u8> = Companion::new(&companion);
    assert!(state.call(&companion, 0, Argument::One(1)));
    assert!(state.call(&companion, 2, Argument::One(3)));
    assert_eq!(state.into_record(&assembly), Err(AssemblyError { field: "b".to_string() }));

    let mut state: Companion<u8> = Companion::new(&companion);
    assert!(state.call(&companion, 2, Argument::One(3)));
    assert!(state.call(&companion, 1, Argument::One(2)));
    assert_eq!(state.into_record(&assembly), Err(AssemblyError { field: "a".to_string() }));

    let mut state: Companion<u8> = Companion::new(&companion);
    assert!(state.call(&companion, 0, Argument::One(1)));
    assert!(state.call(&companion, 1, Argument::One(2)));
    assert_eq!(state.into_record(&assembly).unwrap_err().message(), "c must be set");
}

#[test]
fn build_succeeds_once_every_bare_field_is_set() {
    let (companion, assembly) = bare_only();
    let mut state: Companion<u8> = Companion::new(&companion);
    assert!(state.call(&companion, 1, Argument::One(2)));
    assert!(state.call(&companion, 0, Argument::One(1)));
    assert!(state.call(&companion, 2, Argument::One(3)));
    assert_eq!(
        state.into_record(&assembly),
        Ok(vec![FieldValue::Value(1), FieldValue::Value(2), FieldValue::Value(3)])
    );
}

#[test]
fn omitted_optional_and_repeated_fields_do_not_fail() {
    let (companion, assembly) = command();
    let mut state: Companion<&str> = Companion::new(&companion);
    assert!(state.call(&companion, 0, Argument::One("cargo")));
    assert_eq!(
        state.into_record(&assembly),
        Ok(vec![
            FieldValue::Value("cargo"),
            FieldValue::Repeated(vec![]),
            FieldValue::Repeated(vec![]),
            FieldValue::Optional(None),
        ])
    );
}

#[test]
fn record_without_bare_fields_builds_at_once() {
    let (companion, assembly) = generated(vec![
        field("dir", wrapped("Option", plain("String")), vec![]),
        field("args", wrapped("Vec", plain("String")), vec![]),
    ]);
    let state: Companion<String> = Companion::new(&companion);
    assert_eq!(
        state.into_record(&assembly),
        Ok(vec![FieldValue::Optional(None), FieldValue::Repeated(vec![])])
    );
}

#[test]
fn round_trip_over_all_shapes() {
    let (companion, assembly) = command();
    let mut state: Companion<&str> = Companion::new(&companion);
    assert!(state.call(&companion, 0, Argument::One("cargo")));
    assert!(state.call(&companion, 1, Argument::One("build")));
    assert!(state.call(&companion, 2, Argument::Many(vec!["A=1", "B=2"])));
    assert!(state.call(&companion, 3, Argument::One("..")));
    assert_eq!(
        state.into_record(&assembly),
        Ok(vec![
            FieldValue::Value("cargo"),
            FieldValue::Repeated(vec!["build"]),
            FieldValue::Repeated(vec!["A=1", "B=2"]),
            FieldValue::Optional(Some("..")),
        ])
    );
}

#[test]
fn a_setter_keeps_the_last_value() {
    let (companion, assembly) = command();
    let mut state: Companion<&str> = Companion::new(&companion);
    assert!(state.call(&companion, 0, Argument::One("cargo")));
    assert!(state.call(&companion, 0, Argument::One("rustc")));
    assert!(state.call(&companion, 3, Argument::One("a")));
    assert!(state.call(&companion, 3, Argument::One("b")));
    let record = state.into_record(&assembly).unwrap();
    assert_eq!(record[0], FieldValue::Value("rustc"));
    assert_eq!(record[3], FieldValue::Optional(Some("b")));
}

#[test]
fn elements_accumulate_in_call_order() {
    let (companion, assembly) = command();
    let mut state: Companion<&str> = Companion::new(&companion);
    assert!(state.call(&companion, 1, Argument::One("build")));
    assert!(state.call(&companion, 0, Argument::One("cargo")));
    assert!(state.call(&companion, 1, Argument::One("--release")));
    assert!(state.call(&companion, 1, Argument::One("-q")));
    assert_eq!(state.slots[1], Stored::Items(vec!["build", "--release", "-q"]));
    let record = state.into_record(&assembly).unwrap();
    assert_eq!(record[1], FieldValue::Repeated(vec!["build", "--release", "-q"]));
}

#[test]
fn bulk_setter_replaces_what_was_there() {
    let (companion, assembly) = command();
    let mut state: Companion<&str> = Companion::new(&companion);
    assert!(state.call(&companion, 0, Argument::One("cargo")));
    assert!(state.call(&companion, 2, Argument::Many(vec!["A=1", "B=2"])));
    assert!(state.call(&companion, 2, Argument::Many(vec!["C=3"])));
    assert_eq!(state.slots[2], Stored::Items(vec!["C=3"]));
    assert!(state.call(&companion, 2, Argument::Many(vec![])));
    let record = state.into_record(&assembly).unwrap();
    assert_eq!(record[2], FieldValue::Repeated(vec![]));
}

#[test]
fn calls_that_do_not_exist_change_nothing() {
    let (companion, _) = command();
    let mut state: Companion<&str> = Companion::new(&companion);
    assert!(!state.call(&companion, 4, Argument::One("x")));
    assert!(!state.call(&companion, 0, Argument::Many(vec!["x"])));
    assert!(!state.call(&companion, 1, Argument::Many(vec!["x"])));
    assert!(!state.call(&companion, 2, Argument::One("x")));
    assert!(!state.call(&companion, 3, Argument::Many(vec![])));
    let fresh: Companion<&str> = Companion::new(&companion);
    assert_eq!(state, fresh);
}

#[test]
fn hand_made_companions_are_run_as_they_are() {
    let companion = CompanionType {
        name: "B".to_string(),
        target: "T".to_string(),
        slots: vec![Slot {
            name: "x".to_string(),
            storage: "Option<u8>".to_string(),
            initial: Initial::Absent,
        }],
        accessors: vec![
            Accessor {
                name: "push".to_string(),
                slot: 0,
                parameter: "u8".to_string(),
                action: Action::Append,
            },
            Accessor {
                name: "far".to_string(),
                slot: 7,
                parameter: "u8".to_string(),
                action: Action::Store,
            },
        ],
    };
    let mut state: Companion<u8> = Companion::new(&companion);
    assert!(!state.call(&companion, 0, Argument::One(1)));
    assert!(!state.call(&companion, 1, Argument::One(1)));
    assert_eq!(state.slots, vec![Stored::Absent]);
    let assembly = AssemblyOperation {
        target: "T".to_string(),
        steps: vec![
            AssemblyStep { field: "x".to_string(), transfer: Transfer::Through },
            AssemblyStep { field: "y".to_string(), transfer: Transfer::Through },
        ],
    };
    assert_eq!(
        state.into_record(&assembly),
        Ok(vec![FieldValue::Optional(None), FieldValue::Optional(None)])
    );
    let state: Companion<u8> = Companion { slots: vec![Stored::Items(vec![1])] };
    let assembly = AssemblyOperation {
        target: "T".to_string(),
        steps: vec![AssemblyStep { field: "x".to_string(), transfer: Transfer::Unwrap }],
    };
    assert_eq!(state.into_record(&assembly), Err(AssemblyError { field: "x".to_string() }));
}

#[test]
fn build_leaves_the_slots_as_they_were() {
    let (companion, assembly) = command();
    let mut state: Companion<String> = Companion::new(&companion);
    assert!(state.call(&companion, 0, Argument::One("cargo".to_string())));
    assert!(state.call(&companion, 1, Argument::One("build".to_string())));
    assert!(state.call(&companion, 1, Argument::One("-q".to_string())));
    let before = Companion {
        slots: vec![
            Stored::Present("cargo".to_string()),
            Stored::Items(vec!["build".to_string(), "-q".to_string()]),
            Stored::Items(vec![]),
            Stored::Absent,
        ],
    };
    assert_eq!(state, before);
    let (cargo, build, quiet) = ("cargo".to_string(), "build".to_string(), "-q".to_string());
    let expected = Ok(vec![
        FieldValue::Value(&cargo),
        FieldValue::Repeated(vec![&build, &quiet]),
        FieldValue::Repeated(vec![]),
        FieldValue::Optional(None),
    ]);
    assert_eq!(state.build(&assembly), expected);
    assert_eq!(state, before);
    assert_eq!(state.build(&assembly), expected);
    assert!(state.call(&companion, 3, Argument::One("..".to_string())));
    let dir = "..".to_string();
    assert_eq!(state.build(&assembly).unwrap()[3], FieldValue::Optional(Some(&dir)));
}

#[test]
fn a_failed_build_can_be_made_good() {
    let (companion, assembly) = bare_only();
    let mut state: Companion<u8> = Companion::new(&companion);
    assert!(state.call(&companion, 0, Argument::One(1)));
    assert!(state.call(&companion, 2, Argument::One(3)));
    assert_eq!(state.build(&assembly), Err(AssemblyError { field: "b".to_string() }));
    assert_eq!(state.build(&assembly), Err(AssemblyError { field: "b".to_string() }));
    assert!(state.call(&companion, 1, Argument::One(2)));
    assert_eq!(
        state.build(&assembly),
        Ok(vec![FieldValue::Value(&1), FieldValue::Value(&2), FieldValue::Value(&3)])
    );
}

#[test]
fn both_builds_give_the_same_record() {
    let (companion, assembly) = command();
    let mut state: Companion<u8> = Companion::new(&companion);
    assert!(state.call(&companion, 0, Argument::One(7)));
    assert!(state.call(&companion, 2, Argument::Many(vec![1, 2])));
    let borrowed: Vec<FieldValue<u8>> = state
        .build(&assembly)
        .unwrap()
        .into_iter()
        .map(|field| match field {
            FieldValue::Value(v) => FieldValue::Value(*v),
            FieldValue::Optional(v) => FieldValue::Optional(v.copied()),
            FieldValue::Repeated(items) => {
                FieldValue::Repeated(items.into_iter().copied().collect())
            }
        })
        .collect();
    assert_eq!(state.into_record(&assembly), Ok(borrowed));
}
