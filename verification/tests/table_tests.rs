use juno_ast::{
    AssignmentExpressionOperator, AtomTable, BinaryExpressionOperator, Context, ExportKind,
    ImportKind, LogicalExpressionOperator, MethodDefinitionKind, NodeString, PropertyKind,
    SourceId, SourceLoc, SourceManager, SourceRange, TemplateMetadata, UnaryExpressionOperator,
    UpdateExpressionOperator, VariableDeclarationKind,
};

#[test]
fn test_string_literal() {
    assert_eq!(
        "u\"ABC\"",
        NodeString { str: vec!['A' as u16, 'B' as u16, 'C' as u16] }.to_debug_string()
    );
}

#[test]
fn atoms_are_stable_and_deduplicated() {
    let mut table = AtomTable::new();
    let a = table.atom("foo");
    let b = table.atom("bar");
    let a2 = table.atom("foo");
    assert_ne!(a.0, 0);
    assert_ne!(b.0, 0);
    assert_ne!(a, b);
    assert_eq!(a, a2);
    assert_eq!(table.str(a), "foo");
    assert_eq!(table.str(b), "bar");
    assert_eq!(table.num_atoms(), 2);
}

#[test]
fn heap_interns_through_its_table() {
    let mut ctx = Context::new(1);
    let a = ctx.atom("ident");
    let b = ctx.atom("ident");
    assert_eq!(a, b);
    assert_eq!(ctx.str(a), "ident");
    assert_eq!(ctx.atom_table().num_atoms(), 1);
}

#[test]
fn binary_operator_strings_parse() {
    // S8: "===" names StrictEquals; unknown text is the recoverable error.
    assert_eq!(
        BinaryExpressionOperator::parse("==="),
        Ok(BinaryExpressionOperator::StrictEquals)
    );
    assert!(BinaryExpressionOperator::parse("foo").is_err());
    assert_eq!(
        BinaryExpressionOperator::parse("foo").unwrap_err().message(),
        "Invalid string property for AST node"
    );
}

#[test]
fn operator_text_round_trips() {
    assert_eq!(BinaryExpressionOperator::StrictEquals.as_str(), "===");
    assert_eq!(UnaryExpressionOperator::parse("typeof"), Ok(UnaryExpressionOperator::Typeof));
    assert_eq!(UnaryExpressionOperator::Delete.as_str(), "delete");
    assert_eq!(LogicalExpressionOperator::parse("??"), Ok(LogicalExpressionOperator::NullishCoalesce));
    assert_eq!(LogicalExpressionOperator::And.as_str(), "&&");
    assert_eq!(UpdateExpressionOperator::parse("++"), Ok(UpdateExpressionOperator::Increment));
    assert_eq!(UpdateExpressionOperator::Decrement.as_str(), "--");
    assert_eq!(
        AssignmentExpressionOperator::parse(">>>="),
        Ok(AssignmentExpressionOperator::RShift3Assign)
    );
    assert_eq!(AssignmentExpressionOperator::NullishCoalesceAssign.as_str(), "??=");
    assert_eq!(VariableDeclarationKind::parse("const"), Ok(VariableDeclarationKind::Const));
    assert_eq!(VariableDeclarationKind::Let.as_str(), "let");
    assert_eq!(PropertyKind::parse("set"), Ok(PropertyKind::Setter));
    assert_eq!(PropertyKind::Init.as_str(), "init");
    assert_eq!(MethodDefinitionKind::parse("constructor"), Ok(MethodDefinitionKind::Constructor));
    assert_eq!(MethodDefinitionKind::Setter.as_str(), "set");
    assert_eq!(ImportKind::parse("typeof"), Ok(ImportKind::Typeof));
    assert_eq!(ImportKind::Value.as_str(), "value");
    assert_eq!(ExportKind::parse("type"), Ok(ExportKind::Type));
    assert_eq!(ExportKind::Value.as_str(), "value");
    assert!(UnaryExpressionOperator::parse("===").is_err());
    assert!(VariableDeclarationKind::parse("").is_err());
}

#[test]
fn every_binary_operator_round_trips() {
    let all = [
        BinaryExpressionOperator::LooseEquals,
        BinaryExpressionOperator::LooseNotEquals,
        BinaryExpressionOperator::StrictEquals,
        BinaryExpressionOperator::StrictNotEquals,
        BinaryExpressionOperator::Less,
        BinaryExpressionOperator::LessEquals,
        BinaryExpressionOperator::Greater,
        BinaryExpressionOperator::GreaterEquals,
        BinaryExpressionOperator::LShift,
        BinaryExpressionOperator::RShift,
        BinaryExpressionOperator::RShift3,
        BinaryExpressionOperator::Plus,
        BinaryExpressionOperator::Minus,
        BinaryExpressionOperator::Mult,
        BinaryExpressionOperator::Div,
        BinaryExpressionOperator::Mod,
        BinaryExpressionOperator::BitOr,
        BinaryExpressionOperator::BitXor,
        BinaryExpressionOperator::BitAnd,
        BinaryExpressionOperator::Exp,
        BinaryExpressionOperator::In,
        BinaryExpressionOperator::Instanceof,
    ];
    for op in all {
        assert_eq!(BinaryExpressionOperator::parse(op.as_str()), Ok(op));
    }
}

#[test]
fn source_locations_build_ranges() {
    let loc = SourceLoc { line: 3, col: 7 };
    let range = SourceRange::from_loc(SourceId(2), loc);
    assert_eq!(range.file, SourceId(2));
    assert_eq!(range.start, loc);
    assert_eq!(range.end, loc);
    let invalid = SourceLoc::invalid();
    assert_eq!(invalid.line, 0);
    assert_eq!(invalid.col, 0);
    let dflt = TemplateMetadata::default();
    assert_eq!(dflt.range.file.0, u32::MAX);
    assert_eq!(dflt.range.start, invalid);
}

#[test]
fn source_manager_registers_files() {
    let mut sm = SourceManager::new();
    assert_eq!(sm.num_sources(), 0);
    let id = sm.add_source(String::from("main.js"));
    assert_eq!(id.0, 0);
    assert_eq!(sm.source_name(id), "main.js");
    assert_eq!(sm.num_sources(), 1);
    let mut ctx = Context::new(1);
    let id2 = ctx.sm_mut().add_source(String::from("lib.js"));
    assert_eq!(ctx.sm().source_name(id2), "lib.js");
}

#[test]
fn string_literals_keep_raw_code_units() {
    let s = NodeString { str: vec![0xD800] };
    // an unpaired surrogate renders as the replacement character
    let rendered = s.to_debug_string();
    assert!(rendered.starts_with("u\""));
    assert!(rendered.ends_with('"'));
    let t = s.clone();
    assert_eq!(t.str, vec![0xD800]);
}
