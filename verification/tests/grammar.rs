use header_outline::event::{Construct, Event, EventKind, ParseError};
use header_outline::parser::{
    optional, parseClass, parseDefine, parseFile, parseFunctionSignature, parseIdentifier,
    parseInclude, parseInheritedClasses, parseMember, parsePragma, parseScope, parseType,
    parseTypedef,
};
use header_outline::tokenizer::tokenize;

fn toks(items: &[&str]) -> Vec<String> {
    items.iter().map(|s| s.to_string()).collect()
}

fn ev(kind: EventKind, name: &str) -> Event {
    Event { kind, name: name.to_string() }
}

const UNSUPPORTED_BODY: ParseError = ParseError::Unsupported(Construct::FunctionBody);

#[test]
fn forward_declaration_is_one_declared_class() {
    let tokens = tokenize("class Foo;");
    assert_eq!(tokens, toks(&["class", "Foo", ";"]));
    let mut events = Vec::new();
    assert_eq!(parseScope(&tokens, 0, &mut events), Ok(3));
    assert_eq!(events, vec![ev(EventKind::DeclaredClass, "Foo")]);
}

#[test]
fn class_definition_reports_class_then_member_in_source_order() {
    let tokens = tokenize("class Foo { int x; };");
    let mut events = Vec::new();
    assert_eq!(parseScope(&tokens, 0, &mut events), Ok(8));
    assert_eq!(
        events,
        vec![
            ev(EventKind::DefinedClass, "Foo"),
            ev(EventKind::UsedType, "int"),
            ev(EventKind::DeclaredMember, "x"),
        ],
    );
}

#[test]
fn function_declaration_is_a_function_and_no_member() {
    let tokens = tokenize("void bar();");
    let mut events = Vec::new();
    assert_eq!(parseMember(&tokens, 0, &mut events), Ok(5));
    assert_eq!(events, vec![ev(EventKind::UsedType, "void"), ev(EventKind::DeclaredFunction, "bar")]);
    assert!(events.iter().all(|e| e.kind != EventKind::DeclaredMember));

    let mut events = Vec::new();
    assert_eq!(parseScope(&tokens, 0, &mut events), Ok(5));
    assert_eq!(events, vec![ev(EventKind::UsedType, "void"), ev(EventKind::DeclaredFunction, "bar")]);
}

#[test]
fn function_definition_is_unsupported() {
    let tokens = tokenize("void bar(){}");
    assert_eq!(tokens, toks(&["void", "bar", "(", ")", "{", "}"]));
    let mut events = Vec::new();
    assert_eq!(parseScope(&tokens, 0, &mut events), Err(UNSUPPORTED_BODY));
    assert_eq!(events, vec![ev(EventKind::UsedType, "void")]);

    let mut events = Vec::new();
    assert_eq!(parseMember(&tokens, 0, &mut events), Err(UNSUPPORTED_BODY));
}

#[test]
fn include_reports_the_next_token_as_path() {
    let tokens = tokenize("#include \"foo.h\"\n");
    let mut events = Vec::new();
    assert_eq!(parseScope(&tokens, 0, &mut events), Ok(2));
    assert_eq!(events, vec![ev(EventKind::Include, "\"foo.h\"")]);
}

#[test]
fn include_with_angle_brackets_takes_the_bracket_as_path() {
    let tokens = tokenize("#include <foo.h>\n");
    assert_eq!(tokens[0], "#include");
    let mut events = Vec::new();
    assert_eq!(parseInclude(&tokens, 1, &mut events), Ok(2));
    assert_eq!(events, vec![ev(EventKind::Include, "<")]);

    // The rest of the path is then read as a member, which runs off the end.
    let mut events = Vec::new();
    assert_eq!(parseScope(&tokens, 0, &mut events), Err(ParseError::OutOfRange));
    assert_eq!(events, vec![ev(EventKind::Include, "<"), ev(EventKind::UsedType, "foo.h")]);
}

#[test]
fn include_needs_a_path() {
    let tokens = toks(&["#include"]);
    let mut events = Vec::new();
    assert_eq!(parseInclude(&tokens, 1, &mut events), Err(ParseError::OutOfRange));
    assert_eq!(parseInclude(&tokens, 7, &mut events), Err(ParseError::OutOfRange));
    assert_eq!(parseScope(&tokens, 0, &mut events), Err(ParseError::OutOfRange));
    assert!(events.is_empty());
}

#[test]
fn pragma_passes_over_one_token() {
    let tokens = toks(&["#pragma", "once", "class", "A", ";"]);
    assert_eq!(parsePragma(&tokens, 1), Ok(2));
    assert_eq!(parsePragma(&tokens, 4), Ok(5));
    assert_eq!(parsePragma(&tokens, 5), Err(ParseError::OutOfRange));
    assert_eq!(parsePragma(&tokens, 9), Err(ParseError::OutOfRange));
    let mut events = Vec::new();
    assert_eq!(parseScope(&tokens, 0, &mut events), Ok(5));
    assert_eq!(events, vec![ev(EventKind::DeclaredClass, "A")]);
}

#[test]
fn define_is_unsupported() {
    let tokens = tokenize("class A; #define X 1\nclass B;");
    assert_eq!(parseDefine(&tokens, 4), Err(ParseError::Unsupported(Construct::Define)));
    assert_eq!(parseDefine(&tokens, 99), Err(ParseError::Unsupported(Construct::Define)));
    let mut events = Vec::new();
    assert_eq!(parseScope(&tokens, 0, &mut events), Err(ParseError::Unsupported(Construct::Define)));
    assert_eq!(events, vec![ev(EventKind::DeclaredClass, "A")]);
}

#[test]
fn inheritance_list_is_unsupported() {
    let tokens = toks(&["class", "A", ":", "public", "B", "{", "}", ";"]);
    assert_eq!(
        parseInheritedClasses(&tokens, 3),
        Err(ParseError::Unsupported(Construct::InheritanceList)),
    );
    let mut events = Vec::new();
    assert_eq!(
        parseClass(&tokens, 1, &mut events),
        Err(ParseError::Unsupported(Construct::InheritanceList)),
    );
    assert_eq!(events, vec![ev(EventKind::DefinedClass, "A")]);
}

#[test]
fn class_rule_by_its_second_token() {
    let tokens = toks(&["A", ";", "B", "{", "}", ";", "C", "x", "D"]);
    let mut events = Vec::new();
    assert_eq!(parseClass(&tokens, 0, &mut events), Ok(2));
    assert_eq!(parseClass(&tokens, 2, &mut events), Ok(6));
    assert_eq!(parseClass(&tokens, 6, &mut events), Ok(8));
    assert_eq!(parseClass(&tokens, 8, &mut events), Err(ParseError::OutOfRange));
    assert_eq!(parseClass(&tokens, 9, &mut events), Err(ParseError::OutOfRange));
    assert_eq!(events, vec![ev(EventKind::DeclaredClass, "A"), ev(EventKind::DefinedClass, "B")]);
}

#[test]
fn class_body_needs_its_closing_tokens() {
    let mut events = Vec::new();
    assert_eq!(
        parseScope(&toks(&["class", "A", "{", "}"]), 0, &mut events),
        Err(ParseError::OutOfRange),
    );
    assert_eq!(events, vec![ev(EventKind::DefinedClass, "A")]);
    let mut events = Vec::new();
    assert_eq!(
        parseScope(&toks(&["class", "A", "{"]), 0, &mut events),
        Err(ParseError::OutOfRange),
    );
    assert_eq!(events, vec![ev(EventKind::DefinedClass, "A")]);
}

#[test]
fn struct_is_read_like_class() {
    let tokens = tokenize("struct P { int x; int y; };");
    let mut events = Vec::new();
    assert_eq!(parseScope(&tokens, 0, &mut events), Ok(tokens.len()));
    assert_eq!(
        events,
        vec![
            ev(EventKind::DefinedClass, "P"),
            ev(EventKind::UsedType, "int"),
            ev(EventKind::DeclaredMember, "x"),
            ev(EventKind::UsedType, "int"),
            ev(EventKind::DeclaredMember, "y"),
        ],
    );
}

#[test]
fn nested_classes_and_access_specifiers() {
    let source = "class Outer {\npublic:\n  class Inner { char c; };\nprotected:\n  Inner* inner;\nprivate:\n  void run();\n};\nclass After;\n";
    let tokens = tokenize(source);
    let mut events = Vec::new();
    assert_eq!(parseScope(&tokens, 0, &mut events), Ok(tokens.len()));
    assert_eq!(
        events,
        vec![
            ev(EventKind::DefinedClass, "Outer"),
            ev(EventKind::DefinedClass, "Inner"),
            ev(EventKind::UsedType, "char"),
            ev(EventKind::DeclaredMember, "c"),
            ev(EventKind::ReferencedType, "Inner"),
            ev(EventKind::DeclaredMember, "inner"),
            ev(EventKind::UsedType, "void"),
            ev(EventKind::DeclaredFunction, "run"),
            ev(EventKind::DeclaredClass, "After"),
        ],
    );
}

#[test]
fn scope_ends_after_its_closing_brace() {
    let tokens = toks(&["int", "x", ";", "}", "int", "y", ";"]);
    let mut events = Vec::new();
    assert_eq!(parseScope(&tokens, 0, &mut events), Ok(4));
    assert_eq!(events, vec![ev(EventKind::UsedType, "int"), ev(EventKind::DeclaredMember, "x")]);
    assert_eq!(parseScope(&tokens, 3, &mut events), Ok(4));
    assert_eq!(events.len(), 2);
}

#[test]
fn scope_at_or_after_the_end_reads_nothing() {
    let tokens = toks(&["class", "A", ";"]);
    let mut events = Vec::new();
    assert_eq!(parseScope(&tokens, 3, &mut events), Ok(3));
    assert_eq!(parseScope(&tokens, 10, &mut events), Ok(10));
    assert_eq!(parseScope(&Vec::new(), 0, &mut events), Ok(0));
    assert!(events.is_empty());
}

#[test]
fn scope_appends_to_the_events_it_is_given() {
    let tokens = toks(&["class", "B", ";"]);
    let mut events = vec![ev(EventKind::DeclaredClass, "A")];
    assert_eq!(parseScope(&tokens, 0, &mut events), Ok(3));
    assert_eq!(events, vec![ev(EventKind::DeclaredClass, "A"), ev(EventKind::DeclaredClass, "B")]);
}

#[test]
fn optional_passes_over_a_matching_token_only() {
    let tokens = toks(&["const", "int"]);
    assert_eq!(optional("const", &tokens, 0), Ok(1));
    assert_eq!(optional("static", &tokens, 0), Ok(0));
    assert_eq!(optional("const", &tokens, 1), Ok(1));
    assert_eq!(optional("int", &tokens, 1), Ok(2));
    assert_eq!(optional("int", &tokens, 2), Err(ParseError::OutOfRange));
    assert_eq!(optional("cons", &tokens, 0), Ok(0));
    assert_eq!(optional("constant", &tokens, 0), Ok(0));
    assert_eq!(optional("", &tokens, 0), Ok(0));
}

#[test]
fn type_is_used_or_referenced() {
    let mut events = Vec::new();
    assert_eq!(parseType(&toks(&["int", "x", ";"]), 0, &mut events), Ok(1));
    assert_eq!(parseType(&toks(&["Foo", "*", "p", ";"]), 0, &mut events), Ok(2));
    assert_eq!(parseType(&toks(&["Bar", "&", "r", ";"]), 0, &mut events), Ok(2));
    assert_eq!(parseType(&toks(&["const", "Baz", "&", "r"]), 0, &mut events), Ok(3));
    assert_eq!(parseType(&toks(&["const", "Q", "q"]), 0, &mut events), Ok(2));
    assert_eq!(
        events,
        vec![
            ev(EventKind::UsedType, "int"),
            ev(EventKind::ReferencedType, "Foo"),
            ev(EventKind::ReferencedType, "Bar"),
            ev(EventKind::ReferencedType, "Baz"),
            ev(EventKind::UsedType, "Q"),
        ],
    );
}

#[test]
fn type_with_template_argument() {
    let tokens = toks(&["vector", "<", "int", ">", "v", ";"]);
    let mut events = Vec::new();
    assert_eq!(parseType(&tokens, 0, &mut events), Ok(4));
    assert_eq!(events, vec![ev(EventKind::UsedType, "vector"), ev(EventKind::UsedType, "int")]);
}

#[test]
fn type_with_comma_separated_arguments() {
    let tokens = toks(&["map", "<", "K", "*", ",", "const", "V", ">", "m", ";"]);
    let mut events = Vec::new();
    assert_eq!(parseType(&tokens, 0, &mut events), Ok(8));
    assert_eq!(
        events,
        vec![
            ev(EventKind::UsedType, "map"),
            ev(EventKind::ReferencedType, "K"),
            ev(EventKind::UsedType, "V"),
        ],
    );
}

#[test]
fn type_needs_the_tokens_after_its_name() {
    let mut events = Vec::new();
    assert_eq!(parseType(&toks(&[]), 0, &mut events), Err(ParseError::OutOfRange));
    assert_eq!(parseType(&toks(&["const"]), 0, &mut events), Err(ParseError::OutOfRange));
    assert_eq!(parseType(&toks(&["int"]), 0, &mut events), Err(ParseError::OutOfRange));
    assert_eq!(parseType(&toks(&["const", "int"]), 0, &mut events), Err(ParseError::OutOfRange));
    assert!(events.is_empty());
    // The name is reported before the token after `*` is found missing.
    assert_eq!(parseType(&toks(&["int", "*"]), 0, &mut events), Err(ParseError::OutOfRange));
    assert_eq!(events, vec![ev(EventKind::ReferencedType, "int")]);
    // The token that closes a bracket is passed over unseen, and must be there.
    let mut events = Vec::new();
    assert_eq!(parseType(&toks(&["v", "<", "int", "x"]), 0, &mut events), Ok(4));
    assert_eq!(events, vec![ev(EventKind::UsedType, "v"), ev(EventKind::UsedType, "int")]);
    let mut events = Vec::new();
    assert_eq!(
        parseType(&toks(&["a", "<", "b", "<", "c", ">"]), 0, &mut events),
        Err(ParseError::OutOfRange),
    );
    assert_eq!(
        events,
        vec![ev(EventKind::UsedType, "a"), ev(EventKind::UsedType, "b"), ev(EventKind::UsedType, "c")],
    );
}

#[test]
fn typedef_reports_the_alias() {
    let tokens = tokenize("typedef unsigned* handle; class A;");
    let mut events = Vec::new();
    assert_eq!(parseTypedef(&tokens, 1, &mut events), Ok(5));
    assert_eq!(
        events,
        vec![ev(EventKind::ReferencedType, "unsigned"), ev(EventKind::DefinedType, "handle")],
    );
    let mut events = Vec::new();
    assert_eq!(parseScope(&tokens, 0, &mut events), Ok(8));
    assert_eq!(
        events,
        vec![
            ev(EventKind::ReferencedType, "unsigned"),
            ev(EventKind::DefinedType, "handle"),
            ev(EventKind::DeclaredClass, "A"),
        ],
    );
}

#[test]
fn typedef_needs_its_terminator() {
    let mut events = Vec::new();
    assert_eq!(parseTypedef(&toks(&["int", "i32"]), 0, &mut events), Err(ParseError::OutOfRange));
    assert_eq!(events, vec![ev(EventKind::UsedType, "int"), ev(EventKind::DefinedType, "i32")]);
    let mut events = Vec::new();
    assert_eq!(parseTypedef(&toks(&["int", "i32", ";"]), 0, &mut events), Ok(3));
}

#[test]
fn identifier_is_a_type_and_a_name() {
    let mut events = Vec::new();
    assert_eq!(parseIdentifier(&toks(&["static", "int", "n", ";"]), 0, &mut events), Ok(3));
    assert_eq!(parseIdentifier(&toks(&["Foo", "&", "f", ")"]), 0, &mut events), Ok(3));
    assert_eq!(events, vec![ev(EventKind::UsedType, "int"), ev(EventKind::ReferencedType, "Foo")]);
    assert_eq!(parseIdentifier(&toks(&["int", ";"]), 0, &mut events), Ok(2));
    assert_eq!(parseIdentifier(&toks(&[]), 0, &mut events), Err(ParseError::OutOfRange));
    assert_eq!(parseIdentifier(&toks(&["static"]), 0, &mut events), Err(ParseError::OutOfRange));
}

#[test]
fn function_signature_with_parameters_and_qualifiers() {
    let tokens = tokenize("virtual int get(const Key& key, Value* out) const override;");
    let mut events = Vec::new();
    // `virtual` is read as the type and `int` as the name that is passed over.
    assert_eq!(parseFunctionSignature(&tokens, 4, &mut events), Ok(tokens.len()));
    assert_eq!(
        events,
        vec![
            ev(EventKind::ReferencedType, "Key"),
            ev(EventKind::ReferencedType, "Value"),
            ev(EventKind::DeclaredFunction, "get"),
        ],
    );
}

#[test]
fn function_signature_takes_the_name_two_tokens_back() {
    let tokens = toks(&["void", "bar", "(", ")", ";"]);
    let mut events = Vec::new();
    assert_eq!(parseFunctionSignature(&tokens, 3, &mut events), Ok(5));
    assert_eq!(events, vec![ev(EventKind::DeclaredFunction, "bar")]);
    let mut events = Vec::new();
    assert_eq!(parseFunctionSignature(&tokens, 1, &mut events), Err(ParseError::OutOfRange));
    assert_eq!(parseFunctionSignature(&tokens, 0, &mut events), Err(ParseError::OutOfRange));
    assert_eq!(parseFunctionSignature(&tokens, 7, &mut events), Err(ParseError::OutOfRange));
    assert!(events.is_empty());
}

#[test]
fn function_signature_needs_a_semicolon() {
    let mut events = Vec::new();
    assert_eq!(
        parseFunctionSignature(&toks(&["f", "(", ")", "=", "0", ";"]), 2, &mut events),
        Err(UNSUPPORTED_BODY),
    );
    assert_eq!(
        parseFunctionSignature(&toks(&["f", "(", ")", "const", "{"]), 2, &mut events),
        Err(UNSUPPORTED_BODY),
    );
    assert_eq!(
        parseFunctionSignature(&toks(&["f", "(", ")"]), 2, &mut events),
        Err(ParseError::OutOfRange),
    );
    assert_eq!(
        parseFunctionSignature(&toks(&["f", "(", ")", "const"]), 2, &mut events),
        Err(ParseError::OutOfRange),
    );
    assert_eq!(
        parseFunctionSignature(&toks(&["f", "(", "int", "a"]), 2, &mut events),
        Err(ParseError::OutOfRange),
    );
    assert_eq!(events, vec![ev(EventKind::UsedType, "int")]);
}

#[test]
fn member_is_data_or_function() {
    let mut events = Vec::new();
    assert_eq!(parseMember(&toks(&["static", "Foo", "*", "p", ";"]), 0, &mut events), Ok(5));
    assert_eq!(parseMember(&toks(&["int", "f", "(", "int", "a", ")", ";"]), 0, &mut events), Ok(7));
    assert_eq!(
        events,
        vec![
            ev(EventKind::ReferencedType, "Foo"),
            ev(EventKind::DeclaredMember, "p"),
            ev(EventKind::UsedType, "int"),
            ev(EventKind::UsedType, "int"),
            ev(EventKind::DeclaredFunction, "f"),
        ],
    );
    let mut events = Vec::new();
    assert_eq!(parseMember(&toks(&["int", "x"]), 0, &mut events), Err(ParseError::OutOfRange));
    assert_eq!(events, vec![ev(EventKind::UsedType, "int")]);
}

#[test]
fn parse_file_scans_and_reads_the_outermost_scope() {
    let outline = parseFile("#pragma once\n#include \"a.h\"\n// a point\nstruct P { int x; };\n");
    assert_eq!(outline.end, Ok(12));
    assert_eq!(
        outline.events,
        vec![
            ev(EventKind::Include, "\"a.h\""),
            ev(EventKind::DefinedClass, "P"),
            ev(EventKind::UsedType, "int"),
            ev(EventKind::DeclaredMember, "x"),
        ],
    );
}

#[test]
fn parse_file_of_nothing_is_empty() {
    let outline = parseFile(" \n\t");
    assert_eq!(outline.end, Ok(0));
    assert!(outline.events.is_empty());
}

#[test]
fn parse_file_keeps_the_events_before_a_failure() {
    let outline = parseFile("class A;\nclass B : public A { };\n");
    assert_eq!(outline.end, Err(ParseError::Unsupported(Construct::InheritanceList)));
    assert_eq!(
        outline.events,
        vec![ev(EventKind::DeclaredClass, "A"), ev(EventKind::DefinedClass, "B")],
    );
}

#[test]
fn parse_file_twice_gives_the_same_outline() {
    let source = "class Foo { int x; void f(Foo* other); };\n";
    let first = parseFile(source);
    let second = parseFile(source);
    assert_eq!(first.end, second.end);
    assert_eq!(first.events, second.events);
}

#[test]
fn white_space_between_tokens_does_not_change_the_outline() {
    let plain = parseFile("class Foo{int x;void f(Foo*other);};\n");
    let spread = parseFile("\n\nclass\tFoo\r\n{\n    int   x ;\n    void f ( Foo * other ) ;\n}\n;\n\n");
    assert_eq!(plain.end, Ok(16));
    assert_eq!(plain.end, spread.end);
    assert_eq!(plain.events, spread.events);
    assert_eq!(plain.events.len(), 6);
}
