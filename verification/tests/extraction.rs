use complexity_radar::ast::{Block, Expr, FunctionItem, Item, SourceTree, Stmt};
use complexity_radar::complexity::{
    compute_cognitive_index, create_lang_evaluator, extract_functions,
    get_function_complexities_from_flake8, get_function_name, ComplexityError,
    FunctionComplexity, ProgrammingLang,
};

fn empty_function(name: &str) -> Item {
    Item::Fn(FunctionItem {
        name: name.to_string(),
        body: Block { stmts: vec![] },
    })
}

#[test]
fn extractor_keeps_declaration_order_and_skips_other_items() {
    let tree = SourceTree {
        items: vec![
            Item::Other,
            empty_function("first"),
            Item::Other,
            Item::Other,
            empty_function("second"),
            empty_function("third"),
        ],
    };
    let functions = extract_functions(tree);
    let names: Vec<String> = functions.iter().map(|f| get_function_name(f)).collect();
    assert_eq!(names, vec!["first", "second", "third"]);
}

#[test]
fn extractor_output_length_matches_function_count() {
    let tree = SourceTree {
        items: vec![
            empty_function("a"),
            Item::Other,
            empty_function("b"),
        ],
    };
    assert_eq!(extract_functions(tree).len(), 2);
}

#[test]
fn a_file_with_no_functions_yields_an_empty_listing() {
    let tree = SourceTree {
        items: vec![Item::Other, Item::Other],
    };
    assert_eq!(extract_functions(tree).len(), 0);
    let scored = compute_cognitive_index(
        ProgrammingLang::Rust,
        SourceTree { items: vec![Item::Other] },
    )
    .unwrap();
    assert_eq!(scored, Vec::<FunctionComplexity>::new());
}

#[test]
fn zero_complexity_functions_still_get_a_record() {
    let tree = SourceTree {
        items: vec![empty_function("noop"), empty_function("noop2")],
    };
    let scored = compute_cognitive_index(ProgrammingLang::Rust, tree).unwrap();
    assert_eq!(
        scored,
        vec![
            FunctionComplexity {
                function: "noop".to_string(),
                cognitive_complexity_value: 0,
            },
            FunctionComplexity {
                function: "noop2".to_string(),
                cognitive_complexity_value: 0,
            },
        ]
    );
}

#[test]
fn unsupported_grammars_fail_fast() {
    assert!(create_lang_evaluator(ProgrammingLang::Rust).is_ok());
    assert_eq!(
        create_lang_evaluator(ProgrammingLang::Python).err().unwrap(),
        ComplexityError::UnsupportedLanguage
    );
    assert_eq!(
        create_lang_evaluator(ProgrammingLang::Go).err().unwrap(),
        ComplexityError::UnsupportedLanguage
    );
    let tree = SourceTree { items: vec![empty_function("f")] };
    assert_eq!(
        compute_cognitive_index(ProgrammingLang::Go, tree).unwrap_err(),
        ComplexityError::UnsupportedLanguage
    );
}

#[test]
fn flake8_listing_is_empty_for_any_output() {
    let listing = get_function_complexities_from_flake8(
        "module.py:3:1: CCR001 Cognitive complexity is too high".to_string(),
    )
    .unwrap();
    assert_eq!(listing, Vec::<FunctionComplexity>::new());
}

#[test]
fn nested_functions_are_not_extracted_at_top_level() {
    // A function declared inside another body is an opaque statement of
    // that body; only the enclosing declaration is listed.
    let inner_declaration = Stmt::Other;
    let outer = Item::Fn(FunctionItem {
        name: "outer".to_string(),
        body: Block {
            stmts: vec![inner_declaration, Stmt::Expr(Expr::Other)],
        },
    });
    let tree = SourceTree { items: vec![outer] };
    let functions = extract_functions(tree);
    assert_eq!(functions.len(), 1);
    assert_eq!(get_function_name(&functions[0]), "outer");
}
