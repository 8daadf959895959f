use picopb::grammar::match_at;
use picopb::parser::{Pair, ParserError, PicoPBParser, Rule, Span, StaticSpan};

fn node(rule: Rule, start: usize, text: &str, inner: Vec<Pair>) -> Pair {
    Pair { rule, span: Span { str: String::from(text), start, end: start + text.len() }, inner }
}

fn leaf(rule: Rule, start: usize, text: &str) -> Pair {
    node(rule, start, text, vec![])
}

fn parse_one(rule: Rule, text: &str) -> Pair {
    let mut pairs = PicoPBParser::parse(rule, text).unwrap();
    assert_eq!(pairs.len(), 1);
    pairs.pop().unwrap()
}

fn fails(rule: Rule, text: &str) {
    assert_eq!(
        PicoPBParser::parse(rule, text),
        Err(ParserError::PestRuleError(StaticSpan {
            start: 0,
            end: text.len(),
            string: String::from(text)
        }))
    );
}

#[test]
fn grammar_of_names() {
    assert_eq!(parse_one(Rule::identifier, "abc"), leaf(Rule::identifier, 0, "abc"));
    assert_eq!(parse_one(Rule::identifier, "_a1_B2 rest"), leaf(Rule::identifier, 0, "_a1_B2"));
    assert_eq!(parse_one(Rule::identifier, "Zz-top"), leaf(Rule::identifier, 0, "Zz"));
    assert_eq!(parse_one(Rule::field_type, "int32;"), leaf(Rule::field_type, 0, "int32"));
    fails(Rule::identifier, "1abc");
    fails(Rule::identifier, " abc");
    fails(Rule::identifier, "");
    fails(Rule::identifier, "éa");
}

#[test]
fn grammar_of_numbers() {
    assert_eq!(parse_one(Rule::number, "0"), leaf(Rule::number, 0, "0"));
    assert_eq!(parse_one(Rule::number, "0123456789x"), leaf(Rule::number, 0, "0123456789"));
    fails(Rule::number, "");
    fails(Rule::number, "x1");
    fails(Rule::number, "-1");
    fails(Rule::number, "+1");
}

#[test]
fn grammar_of_strings() {
    assert_eq!(parse_one(Rule::string, "\"\""), leaf(Rule::string, 0, "\"\""));
    assert_eq!(parse_one(Rule::string, "\"a b\" c"), leaf(Rule::string, 0, "\"a b\""));
    assert_eq!(parse_one(Rule::string, "\"é\n\"\""), leaf(Rule::string, 0, "\"é\n\""));
    fails(Rule::string, "\"abc");
    fails(Rule::string, "abc\"");
    fails(Rule::string, "");
}

#[test]
fn grammar_of_words() {
    assert_eq!(parse_one(Rule::qualifier, "optional"), leaf(Rule::qualifier, 0, "optional"));
    assert_eq!(parse_one(Rule::qualifier, "requiredx"), leaf(Rule::qualifier, 0, "required"));
    assert_eq!(parse_one(Rule::qualifier, "repeated "), leaf(Rule::qualifier, 0, "repeated"));
    fails(Rule::qualifier, "Optional");
    fails(Rule::qualifier, "option");
    assert_eq!(parse_one(Rule::bool, "true"), leaf(Rule::bool, 0, "true"));
    assert_eq!(parse_one(Rule::bool, "false"), leaf(Rule::bool, 0, "false"));
    fails(Rule::bool, "yes");
    assert_eq!(
        parse_one(Rule::max_size_option, "max_size"),
        leaf(Rule::max_size_option, 0, "max_size")
    );
    assert_eq!(
        parse_one(Rule::max_len_option, "max_len"),
        leaf(Rule::max_len_option, 0, "max_len")
    );
    fails(Rule::max_len_option, "max_size");
    fails(Rule::max_size_option, "max_len");
}

#[test]
fn grammar_of_the_end_of_input() {
    assert_eq!(parse_one(Rule::EOI, ""), leaf(Rule::EOI, 0, ""));
    fails(Rule::EOI, "x");
    assert_eq!(match_at(Rule::EOI, "abc", 3), Some((leaf(Rule::EOI, 3, ""), 3)));
    assert_eq!(match_at(Rule::EOI, "abc", 2), None);
    assert_eq!(match_at(Rule::EOI, "abc", 4), None);
}

#[test]
fn grammar_matches_at_a_place() {
    assert_eq!(match_at(Rule::number, "ab12 c", 2), Some((leaf(Rule::number, 2, "12"), 4)));
    assert_eq!(match_at(Rule::number, "ab12 c", 1), None);
    assert_eq!(match_at(Rule::number, "ab12 c", 100), None);
    assert_eq!(match_at(Rule::identifier, "ab12 c", 5), Some((leaf(Rule::identifier, 5, "c"), 6)));
    assert_eq!(match_at(Rule::proto_definition, " ", 1), None);
    // a place inside a character is none where a node can start
    assert_eq!(match_at(Rule::EOI, "é", 1), None);
}

#[test]
fn grammar_of_options() {
    assert_eq!(
        parse_one(Rule::packed_option, "packed = false"),
        node(Rule::packed_option, 0, "packed = false", vec![leaf(Rule::bool, 9, "false")])
    );
    assert_eq!(
        parse_one(Rule::nanopb_option, "(nanopb).max_len = 7"),
        node(
            Rule::nanopb_option,
            0,
            "(nanopb).max_len = 7",
            vec![leaf(Rule::max_len_option, 9, "max_len"), leaf(Rule::number, 19, "7")]
        )
    );
    fails(Rule::nanopb_option, "(nanopb) .max_len=7");
    fails(Rule::nanopb_option, "(nanopb).max=7");
    fails(Rule::packed_option, "packed=1");
    let text = "[ packed=true , (nanopb).max_size=8 ]";
    assert_eq!(
        parse_one(Rule::options, text),
        node(
            Rule::options,
            0,
            text,
            vec![
                node(
                    Rule::option,
                    2,
                    "packed=true",
                    vec![node(
                        Rule::packed_option,
                        2,
                        "packed=true",
                        vec![leaf(Rule::bool, 9, "true")]
                    )]
                ),
                node(
                    Rule::option,
                    16,
                    "(nanopb).max_size=8",
                    vec![node(
                        Rule::nanopb_option,
                        16,
                        "(nanopb).max_size=8",
                        vec![
                            leaf(Rule::max_size_option, 25, "max_size"),
                            leaf(Rule::number, 34, "8")
                        ]
                    )]
                ),
            ]
        )
    );
    fails(Rule::options, "[]");
    fails(Rule::options, "[packed=true,]");
    fails(Rule::options, "[packed=true");
    fails(Rule::options, "[packed=true packed=false]");
}

#[test]
fn grammar_of_a_field_without_options_takes_the_white_space_after_it() {
    let text = "message A { required int32 a = 1; }";
    let tree = parse_one(Rule::message_definition, text);
    assert_eq!(
        tree,
        node(
            Rule::message_definition,
            0,
            text,
            vec![
                leaf(Rule::identifier, 8, "A"),
                node(
                    Rule::message_field,
                    12,
                    "required int32 a = 1; ",
                    vec![
                        leaf(Rule::qualifier, 12, "required"),
                        leaf(Rule::field_type, 21, "int32"),
                        leaf(Rule::identifier, 27, "a"),
                        leaf(Rule::number, 31, "1"),
                    ]
                ),
            ]
        )
    );
}

#[test]
fn grammar_needs_no_white_space_between_parts() {
    let text = "enum E{A=1;B=2;}";
    assert_eq!(
        parse_one(Rule::enum_definition, text),
        node(
            Rule::enum_definition,
            0,
            text,
            vec![
                leaf(Rule::identifier, 5, "E"),
                node(
                    Rule::enum_field,
                    7,
                    "A=1;",
                    vec![leaf(Rule::identifier, 7, "A"), leaf(Rule::number, 9, "1")]
                ),
                node(
                    Rule::enum_field,
                    11,
                    "B=2;",
                    vec![leaf(Rule::identifier, 11, "B"), leaf(Rule::number, 13, "2")]
                ),
            ]
        )
    );
    let field = parse_one(Rule::message_field, "optionalint32 a=1;");
    assert_eq!(field.inner[0], leaf(Rule::qualifier, 0, "optional"));
    assert_eq!(field.inner[1], leaf(Rule::field_type, 8, "int32"));
}

#[test]
fn grammar_of_statements() {
    let text = "import \"a.proto\" ;";
    let import = node(
        Rule::import_statement,
        0,
        text,
        vec![leaf(Rule::string, 7, "\"a.proto\"")],
    );
    assert_eq!(parse_one(Rule::import_statement, text), import);
    assert_eq!(parse_one(Rule::statement, text), node(Rule::statement, 0, text, vec![import]));
    let text = "enum E { }";
    let definition = node(Rule::enum_definition, 0, text, vec![leaf(Rule::identifier, 5, "E")]);
    let block = node(Rule::block_statement, 0, text, vec![definition]);
    assert_eq!(parse_one(Rule::block_statement, text), block);
    assert_eq!(parse_one(Rule::statement, text), node(Rule::statement, 0, text, vec![block]));
    fails(Rule::statement, "syntax = \"proto2\";");
    fails(Rule::block_statement, "import \"a\";");
    fails(Rule::import_statement, "import a;");
    fails(Rule::version_decl, "syntax \"proto2\";");
    fails(Rule::message_definition, "message { }");
    fails(Rule::message_definition, "message A { required int32 a = 1 }");
    fails(Rule::enum_definition, "enum E { A = x; }");
}

#[test]
fn grammar_of_a_whole_text() {
    let text = " import \"a\";\nsyntax = \"proto2\"; ";
    let tree = parse_one(Rule::proto_definition, text);
    assert_eq!(tree.rule, Rule::proto_definition);
    assert_eq!(tree.span, Span { str: String::from(text), start: 0, end: text.len() });
    let rules: Vec<Rule> = tree.inner.iter().map(|p| p.rule).collect();
    assert_eq!(rules, vec![Rule::statement, Rule::version_decl, Rule::EOI]);
    assert_eq!(tree.inner[0].span, Span { str: String::from("import \"a\";"), start: 1, end: 12 });
    assert_eq!(tree.inner[2], leaf(Rule::EOI, text.len(), ""));
    assert_eq!(tree.inner[1].as_str(), "syntax = \"proto2\";");
}

#[test]
fn grammar_reports_what_could_not_be_read() {
    let text = "syntax = \"proto2\";\n  message é { }";
    assert_eq!(
        PicoPBParser::parse(Rule::proto_definition, text),
        Err(ParserError::PestRuleError(StaticSpan {
            start: 21,
            end: text.len(),
            string: String::from("message é { }")
        }))
    );
    assert_eq!(
        PicoPBParser::parse(Rule::proto_definition, "é"),
        Err(ParserError::PestRuleError(StaticSpan {
            start: 0,
            end: 2,
            string: String::from("é")
        }))
    );
}
