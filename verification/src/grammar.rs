//! The grammar of the schema language: from the bytes of a schema text to its
//! parse tree.
//!
//! A rule is matched at a place of the text and gives, where it matches, a
//! node and the place where the match ends. Between the parts of a rule white
//! space is passed over. Of alternatives the first that matches is taken, and a
//! repetition takes as many as match.

use crate::parser::{
    pairs_view, Node, Pair, ParserError, ParserErrorView, Rule, Span, SpanView,
    StaticSpan,
};
use vstd::prelude::*;
use vstd::string::StringSliceAdditionalSpecFns;
use vstd::utf8::{decode_utf8, encode_utf8, is_char_boundary};

verus! {

/// The kinds of bytes that a run is made of.
#[derive(Debug, Clone, Copy, PartialEq, Eq, Structural)]
pub enum ByteClass {
    /// A blank, a tab, a line feed or a carriage return.
    Space,
    /// A decimal digit.
    Digit,
    /// A letter, a digit or an underscore.
    NamePart,
    /// Anything but a double quote.
    NotQuote,
}

/// Whether a name can start with the byte: a letter or an underscore.
pub open spec fn is_name_start(b: u8) -> bool {
    (0x61 <= b <= 0x7a) || (0x41 <= b <= 0x5a) || b == 0x5f
}

/// Whether the byte is of the class.
pub open spec fn in_class(class: ByteClass, b: u8) -> bool {
    match class {
        ByteClass::Space => b == 0x20 || b == 0x09 || b == 0x0a || b == 0x0d,
        ByteClass::Digit => 0x30 <= b <= 0x39,
        ByteClass::NamePart => is_name_start(b) || (0x30 <= b <= 0x39),
        ByteClass::NotQuote => b != 0x22,
    }
}

/// The place where the run of bytes of the class that starts at `pos` ends.
pub open spec fn run_end(input: Seq<u8>, pos: int, class: ByteClass) -> int
    decreases input.len() - pos,
{
    if 0 <= pos < input.len() && in_class(class, input[pos]) {
        run_end(input, pos + 1, class)
    } else {
        pos
    }
}

/// The place of the first byte from `pos` on that is no white space.
pub open spec fn skip(input: Seq<u8>, pos: int) -> int {
    run_end(input, pos, ByteClass::Space)
}

/// Whether the bytes `word` stand at the place `pos`.
pub open spec fn word_at(input: Seq<u8>, pos: int, word: Seq<u8>) -> bool {
    0 <= pos && pos + word.len() <= input.len() && input.subrange(pos, pos + word.len()) == word
}

/// The node of the rule `rule` that matched the text from `start` to `end`
/// with the nodes `inner` inside it, where that stretch is one of whole
/// characters.
pub open spec fn node_at(rule: Rule, input: Seq<u8>, start: int, end: int, inner: Seq<Node>) -> Option<
    (Node, int),
> {
    if 0 <= start <= end <= input.len() && input.len() <= usize::MAX && is_char_boundary(
        input,
        start,
    ) && is_char_boundary(input, end) {
        Some(
            (
                Node {
                    rule,
                    span: SpanView {
                        start: start as usize,
                        end: end as usize,
                        text: decode_utf8(input.subrange(start, end)),
                    },
                    inner,
                },
                end,
            ),
        )
    } else {
        None
    }
}

/// A rule that is one of the words `first`, `second` and `third`, tried in
/// this order.
pub open spec fn match_words(
    rule: Rule,
    input: Seq<u8>,
    pos: int,
    first: Seq<char>,
    second: Seq<char>,
    third: Seq<char>,
) -> Option<(Node, int)> {
    if word_at(input, pos, encode_utf8(first)) {
        node_at(rule, input, pos, pos + encode_utf8(first).len(), Seq::empty())
    } else if word_at(input, pos, encode_utf8(second)) {
        node_at(rule, input, pos, pos + encode_utf8(second).len(), Seq::empty())
    } else if word_at(input, pos, encode_utf8(third)) {
        node_at(rule, input, pos, pos + encode_utf8(third).len(), Seq::empty())
    } else {
        None
    }
}

/// `qualifier = { "optional" | "required" | "repeated" }`
pub open spec fn match_qualifier(input: Seq<u8>, pos: int) -> Option<(Node, int)> {
    match_words(Rule::qualifier, input, pos, "optional"@, "required"@, "repeated"@)
}

/// `bool = { "true" | "false" }`
pub open spec fn match_bool(input: Seq<u8>, pos: int) -> Option<(Node, int)> {
    match_words(Rule::bool, input, pos, "true"@, "false"@, "false"@)
}

/// `max_size_option = { "max_size" }`, and else `max_len_option = { "max_len" }`
pub open spec fn match_size_kind(input: Seq<u8>, pos: int) -> Option<(Node, int)> {
    match match_words(Rule::max_size_option, input, pos, "max_size"@, "max_size"@, "max_size"@) {
        Some(m) => Some(m),
        None => match_words(Rule::max_len_option, input, pos, "max_len"@, "max_len"@, "max_len"@),
    }
}

/// A name, as the rules `identifier` and `field_type` match it: a letter or
/// an underscore, then letters, digits and underscores.
pub open spec fn match_name(rule: Rule, input: Seq<u8>, pos: int) -> Option<(Node, int)> {
    if 0 <= pos < input.len() && is_name_start(input[pos]) {
        node_at(rule, input, pos, run_end(input, pos + 1, ByteClass::NamePart), Seq::empty())
    } else {
        None
    }
}

/// `number`: one decimal digit or more.
pub open spec fn match_number(input: Seq<u8>, pos: int) -> Option<(Node, int)> {
    if 0 <= pos < input.len() && in_class(ByteClass::Digit, input[pos]) {
        node_at(Rule::number, input, pos, run_end(input, pos + 1, ByteClass::Digit), Seq::empty())
    } else {
        None
    }
}

/// `string`: a double quote, anything up to the next double quote, and that quote.
pub open spec fn match_string(input: Seq<u8>, pos: int) -> Option<(Node, int)> {
    if 0 <= pos < input.len() && input[pos] == 0x22 {
        let close = run_end(input, pos + 1, ByteClass::NotQuote);
        if close < input.len() {
            node_at(Rule::string, input, pos, close + 1, Seq::empty())
        } else {
            None
        }
    } else {
        None
    }
}

/// The state of a rule that starts with the word `w`: no node yet, and the
/// place after the word.
pub open spec fn started(input: Seq<u8>, pos: int, w: Seq<char>) -> Option<(Seq<Node>, int)> {
    if word_at(input, pos, encode_utf8(w)) {
        Some((Seq::empty(), pos + encode_utf8(w).len()))
    } else {
        None
    }
}

/// The state of a rule that starts with the node of another rule.
pub open spec fn begun(m: Option<(Node, int)>) -> Option<(Seq<Node>, int)> {
    match m {
        Some((node, end)) => Some((seq![node], end)),
        None => None,
    }
}

/// The state of a rule after the word `w`, which may follow white space.
pub open spec fn word(input: Seq<u8>, state: Option<(Seq<Node>, int)>, w: Seq<char>) -> Option<
    (Seq<Node>, int),
> {
    match state {
        Some((nodes, pos)) => if word_at(input, skip(input, pos), encode_utf8(w)) {
            Some((nodes, skip(input, pos) + encode_utf8(w).len()))
        } else {
            None
        },
        None => None,
    }
}

/// The place where the next part of a rule is tried: after the white space
/// that follows what was matched so far.
pub open spec fn next_at(input: Seq<u8>, state: Option<(Seq<Node>, int)>) -> int {
    match state {
        Some((_, pos)) => skip(input, pos),
        None => 0,
    }
}

/// The state of a rule after the node `m` of a part that must match.
pub open spec fn take(state: Option<(Seq<Node>, int)>, m: Option<(Node, int)>) -> Option<
    (Seq<Node>, int),
> {
    match (state, m) {
        (Some((nodes, _)), Some((node, end))) => Some((nodes.push(node), end)),
        _ => None,
    }
}

/// The state of a rule after a part that may be missing: white space is
/// passed over in either case.
pub open spec fn take_optional(
    input: Seq<u8>,
    state: Option<(Seq<Node>, int)>,
    m: Option<(Node, int)>,
) -> Option<(Seq<Node>, int)> {
    match state {
        Some((nodes, pos)) => match m {
            Some((node, end)) => Some((nodes.push(node), end)),
            None => Some((nodes, skip(input, pos))),
        },
        None => None,
    }
}

/// The node of a rule whose parts have all matched.
pub open spec fn finish(rule: Rule, input: Seq<u8>, start: int, state: Option<(Seq<Node>, int)>) -> Option<
    (Node, int),
> {
    match state {
        Some((nodes, end)) => node_at(rule, input, start, end, nodes),
        None => None,
    }
}

/// The node of a rule that is one of the alternatives `first` and `second`:
/// it holds the node of the alternative and matches the same text.
pub open spec fn either(
    rule: Rule,
    input: Seq<u8>,
    pos: int,
    first: Option<(Node, int)>,
    second: Option<(Node, int)>,
) -> Option<(Node, int)> {
    match first {
        Some((node, end)) => node_at(rule, input, pos, end, seq![node]),
        None => match second {
            Some((node, end)) => node_at(rule, input, pos, end, seq![node]),
            None => None,
        },
    }
}

/// `nanopb_option = { "(nanopb)." ~ (max_size_option | max_len_option) ~ "=" ~ number }`
pub open spec fn match_nanopb_option(input: Seq<u8>, pos: int) -> Option<(Node, int)> {
    let s0 = started(input, pos, "(nanopb)."@);
    let s1 = take(s0, match_size_kind(input, next_at(input, s0)));
    let s2 = word(input, s1, "="@);
    let s3 = take(s2, match_number(input, next_at(input, s2)));
    finish(Rule::nanopb_option, input, pos, s3)
}

/// `packed_option = { "packed" ~ "=" ~ bool }`
pub open spec fn match_packed_option(input: Seq<u8>, pos: int) -> Option<(Node, int)> {
    let s0 = started(input, pos, "packed"@);
    let s1 = word(input, s0, "="@);
    let s2 = take(s1, match_bool(input, next_at(input, s1)));
    finish(Rule::packed_option, input, pos, s2)
}

/// `option = { nanopb_option | packed_option }`
pub open spec fn match_option(input: Seq<u8>, pos: int) -> Option<(Node, int)> {
    either(
        Rule::option,
        input,
        pos,
        match_nanopb_option(input, pos),
        match_packed_option(input, pos),
    )
}

/// `"," ~ option`
pub open spec fn match_comma_option(input: Seq<u8>, pos: int) -> Option<(Node, int)> {
    if word_at(input, pos, encode_utf8(","@)) {
        match_option(input, skip(input, pos + encode_utf8(","@).len()))
    } else {
        None
    }
}

/// The nodes `acc` and the place `pos`, after as many further options as
/// follow, each after a comma.
pub open spec fn more_options(input: Seq<u8>, pos: int, acc: Seq<Node>) -> (Seq<Node>, int)
    decreases input.len() - pos,
{
    match match_comma_option(input, skip(input, pos)) {
        Some((node, end)) => if pos < end <= input.len() {
            more_options(input, end, acc.push(node))
        } else {
            (acc, pos)
        },
        None => (acc, pos),
    }
}

/// `options = { "[" ~ option ~ ("," ~ option)* ~ "]" }`
pub open spec fn match_options(input: Seq<u8>, pos: int) -> Option<(Node, int)> {
    let s0 = started(input, pos, "["@);
    let s1 = take(s0, match_option(input, next_at(input, s0)));
    let s2 = match s1 {
        Some((nodes, p)) => Some(more_options(input, p, nodes)),
        None => None,
    };
    let s3 = word(input, s2, "]"@);
    finish(Rule::options, input, pos, s3)
}

/// `message_field = { qualifier ~ field_type ~ identifier ~ "=" ~ number ~ ";" ~ options? }`
pub open spec fn match_message_field(input: Seq<u8>, pos: int) -> Option<(Node, int)> {
    let s0 = begun(match_qualifier(input, pos));
    let s1 = take(s0, match_name(Rule::field_type, input, next_at(input, s0)));
    let s2 = take(s1, match_name(Rule::identifier, input, next_at(input, s1)));
    let s3 = word(input, s2, "="@);
    let s4 = take(s3, match_number(input, next_at(input, s3)));
    let s5 = word(input, s4, ";"@);
    let s6 = take_optional(input, s5, match_options(input, next_at(input, s5)));
    finish(Rule::message_field, input, pos, s6)
}

/// `enum_field = { identifier ~ "=" ~ number ~ ";" }`
pub open spec fn match_enum_field(input: Seq<u8>, pos: int) -> Option<(Node, int)> {
    let s0 = begun(match_name(Rule::identifier, input, pos));
    let s1 = word(input, s0, "="@);
    let s2 = take(s1, match_number(input, next_at(input, s1)));
    let s3 = word(input, s2, ";"@);
    finish(Rule::enum_field, input, pos, s3)
}

/// The nodes `acc` and the place `pos`, after as many fields as follow.
pub open spec fn more_fields(input: Seq<u8>, pos: int, acc: Seq<Node>) -> (Seq<Node>, int)
    decreases input.len() - pos,
{
    match match_message_field(input, skip(input, pos)) {
        Some((node, end)) => if pos < end <= input.len() {
            more_fields(input, end, acc.push(node))
        } else {
            (acc, pos)
        },
        None => (acc, pos),
    }
}

/// The nodes `acc` and the place `pos`, after as many variants as follow.
pub open spec fn more_variants(input: Seq<u8>, pos: int, acc: Seq<Node>) -> (Seq<Node>, int)
    decreases input.len() - pos,
{
    match match_enum_field(input, skip(input, pos)) {
        Some((node, end)) => if pos < end <= input.len() {
            more_variants(input, end, acc.push(node))
        } else {
            (acc, pos)
        },
        None => (acc, pos),
    }
}

/// `message_definition = { "message" ~ identifier ~ "{" ~ message_field* ~ "}" }`
pub open spec fn match_message_definition(input: Seq<u8>, pos: int) -> Option<(Node, int)> {
    let s0 = started(input, pos, "message"@);
    let s1 = take(s0, match_name(Rule::identifier, input, next_at(input, s0)));
    let s2 = word(input, s1, "{"@);
    let s3 = match s2 {
        Some((nodes, p)) => Some(more_fields(input, p, nodes)),
        None => None,
    };
    let s4 = word(input, s3, "}"@);
    finish(Rule::message_definition, input, pos, s4)
}

/// `enum_definition = { "enum" ~ identifier ~ "{" ~ enum_field* ~ "}" }`
pub open spec fn match_enum_definition(input: Seq<u8>, pos: int) -> Option<(Node, int)> {
    let s0 = started(input, pos, "enum"@);
    let s1 = take(s0, match_name(Rule::identifier, input, next_at(input, s0)));
    let s2 = word(input, s1, "{"@);
    let s3 = match s2 {
        Some((nodes, p)) => Some(more_variants(input, p, nodes)),
        None => None,
    };
    let s4 = word(input, s3, "}"@);
    finish(Rule::enum_definition, input, pos, s4)
}

/// `block_statement = { message_definition | enum_definition }`
pub open spec fn match_block_statement(input: Seq<u8>, pos: int) -> Option<(Node, int)> {
    either(
        Rule::block_statement,
        input,
        pos,
        match_message_definition(input, pos),
        match_enum_definition(input, pos),
    )
}

/// `import_statement = { "import" ~ string ~ ";" }`
pub open spec fn match_import_statement(input: Seq<u8>, pos: int) -> Option<(Node, int)> {
    let s0 = started(input, pos, "import"@);
    let s1 = take(s0, match_string(input, next_at(input, s0)));
    let s2 = word(input, s1, ";"@);
    finish(Rule::import_statement, input, pos, s2)
}

/// `statement = { block_statement | import_statement }`
pub open spec fn match_statement(input: Seq<u8>, pos: int) -> Option<(Node, int)> {
    either(
        Rule::statement,
        input,
        pos,
        match_block_statement(input, pos),
        match_import_statement(input, pos),
    )
}

/// `version_decl = { "syntax" ~ "=" ~ string ~ ";" }`
pub open spec fn match_version_decl(input: Seq<u8>, pos: int) -> Option<(Node, int)> {
    let s0 = started(input, pos, "syntax"@);
    let s1 = word(input, s0, "="@);
    let s2 = take(s1, match_string(input, next_at(input, s1)));
    let s3 = word(input, s2, ";"@);
    finish(Rule::version_decl, input, pos, s3)
}

/// `version_decl | statement`
pub open spec fn match_top_level(input: Seq<u8>, pos: int) -> Option<(Node, int)> {
    match match_version_decl(input, pos) {
        Some(m) => Some(m),
        None => match_statement(input, pos),
    }
}

/// The nodes `acc` and the place `pos`, after as many version declarations
/// and statements as follow.
pub open spec fn more_statements(input: Seq<u8>, pos: int, acc: Seq<Node>) -> (Seq<Node>, int)
    decreases input.len() - pos,
{
    match match_top_level(input, skip(input, pos)) {
        Some((node, end)) => if pos < end <= input.len() {
            more_statements(input, end, acc.push(node))
        } else {
            (acc, pos)
        },
        None => (acc, pos),
    }
}

/// The place up to which a schema text can be read: the end of its last
/// statement and of the white space after it.
pub open spec fn read_up_to(input: Seq<u8>) -> int {
    skip(input, more_statements(input, 0, Seq::empty()).1)
}

/// `EOI`: the end of the input.
pub open spec fn match_end(input: Seq<u8>, pos: int) -> Option<(Node, int)> {
    if pos == input.len() {
        node_at(Rule::EOI, input, pos, pos, Seq::empty())
    } else {
        None
    }
}

/// `proto_definition = { SOI ~ (version_decl | statement)* ~ EOI }`
pub open spec fn match_proto_definition(input: Seq<u8>, pos: int) -> Option<(Node, int)> {
    if pos != 0 {
        None
    } else {
        let s0 = Some(more_statements(input, 0, Seq::empty()));
        let s1 = take(s0, match_end(input, next_at(input, s0)));
        finish(Rule::proto_definition, input, 0, s1)
    }
}

/// What the rule `rule` matches at the place `pos`.
pub open spec fn match_rule(rule: Rule, input: Seq<u8>, pos: int) -> Option<(Node, int)> {
    match rule {
        Rule::EOI => match_end(input, pos),
        Rule::proto_definition => match_proto_definition(input, pos),
        Rule::version_decl => match_version_decl(input, pos),
        Rule::statement => match_statement(input, pos),
        Rule::import_statement => match_import_statement(input, pos),
        Rule::block_statement => match_block_statement(input, pos),
        Rule::message_definition => match_message_definition(input, pos),
        Rule::enum_definition => match_enum_definition(input, pos),
        Rule::message_field => match_message_field(input, pos),
        Rule::enum_field => match_enum_field(input, pos),
        Rule::qualifier => match_qualifier(input, pos),
        Rule::field_type => match_name(Rule::field_type, input, pos),
        Rule::identifier => match_name(Rule::identifier, input, pos),
        Rule::number => match_number(input, pos),
        Rule::string => match_string(input, pos),
        Rule::options => match_options(input, pos),
        Rule::option => match_option(input, pos),
        Rule::nanopb_option => match_nanopb_option(input, pos),
        Rule::max_size_option => match_words(
            Rule::max_size_option,
            input,
            pos,
            "max_size"@,
            "max_size"@,
            "max_size"@,
        ),
        Rule::max_len_option => match_words(
            Rule::max_len_option,
            input,
            pos,
            "max_len"@,
            "max_len"@,
            "max_len"@,
        ),
        Rule::packed_option => match_packed_option(input, pos),
        Rule::bool => match_bool(input, pos),
    }
}

/// Whether the node `m` says what was matched: it is of the rule `rule`, its
/// span starts at `pos` and ends where the match ends, within the text, and
/// the text of the span is that stretch of the text.
pub open spec fn tells_its_match(m: Option<(Node, int)>, rule: Rule, input: Seq<u8>, pos: int) -> bool {
    match m {
        Some((node, end)) => {
            &&& node.rule == rule
            &&& node.span.start == pos
            &&& node.span.end == end
            &&& 0 <= pos <= end <= input.len()
            &&& node.span.text == decode_utf8(input.subrange(pos, end))
        },
        None => true,
    }
}

proof fn lemma_closing(rule: Rule, input: Seq<u8>, pos: int)
    ensures
        forall|state: Option<(Seq<Node>, int)>| #[trigger]
            tells_its_match(finish(rule, input, pos, state), rule, input, pos),
        forall|first: Option<(Node, int)>, second: Option<(Node, int)>| #[trigger]
            tells_its_match(either(rule, input, pos, first, second), rule, input, pos),
        forall|a: Seq<char>, b: Seq<char>, c: Seq<char>| #[trigger]
            tells_its_match(match_words(rule, input, pos, a, b, c), rule, input, pos),
        tells_its_match(match_name(rule, input, pos), rule, input, pos),
{
}

/// Every node says what was matched.
pub proof fn lemma_match_span(rule: Rule, input: Seq<u8>, pos: int)
    ensures
        tells_its_match(match_rule(rule, input, pos), rule, input, pos),
{
    lemma_closing(rule, input, pos);
    match rule {
        Rule::EOI => {},
        Rule::proto_definition => {
            let s0 = Some(more_statements(input, 0, Seq::empty()));
            let s1 = take(s0, match_end(input, next_at(input, s0)));
            assert(tells_its_match(finish(rule, input, 0, s1), rule, input, 0));
        },
        Rule::number => {},
        Rule::string => {},
        Rule::qualifier => {
            assert(tells_its_match(
                match_words(rule, input, pos, "optional"@, "required"@, "repeated"@),
                rule,
                input,
                pos,
            ));
        },
        Rule::bool => {
            assert(tells_its_match(
                match_words(rule, input, pos, "true"@, "false"@, "false"@),
                rule,
                input,
                pos,
            ));
        },
        Rule::max_size_option => {
            assert(tells_its_match(
                match_words(rule, input, pos, "max_size"@, "max_size"@, "max_size"@),
                rule,
                input,
                pos,
            ));
        },
        Rule::max_len_option => {
            assert(tells_its_match(
                match_words(rule, input, pos, "max_len"@, "max_len"@, "max_len"@),
                rule,
                input,
                pos,
            ));
        },
        _ => {},
    }
}

/// The text that could not be read where the rule `rule` does not match the
/// start of the text: for a whole schema what follows its last statement, and
/// else all of the text.
pub open spec fn unread(rule: Rule, input: Seq<u8>) -> SpanView {
    let from = if rule == Rule::proto_definition && is_char_boundary(input, read_up_to(input)) {
        read_up_to(input)
    } else {
        0
    };
    SpanView {
        start: from as usize,
        end: input.len() as usize,
        text: decode_utf8(input.subrange(from, input.len() as int)),
    }
}

/// The parse tree of the text `input` under the rule `rule`: the one node of
/// the rule, matched at the start of the text.
pub open spec fn parse_tree(rule: Rule, input: Seq<u8>) -> Result<Seq<Node>, ParserErrorView> {
    match match_rule(rule, input, 0) {
        Some((node, _)) => Ok(seq![node]),
        None => Err(ParserErrorView::PestRuleError(unread(rule, input))),
    }
}

/// The value of what a rule returned.
pub open spec fn matched_view(r: Option<(Pair, usize)>) -> Option<(Node, int)> {
    match r {
        Some((pair, end)) => Some((pair@, end as int)),
        None => None,
    }
}

/// The value of the state of a rule.
pub open spec fn state_view(state: Option<(Vec<Pair>, usize)>) -> Option<(Seq<Node>, int)> {
    match state {
        Some((pairs, pos)) => Some((pairs_view(pairs@), pos as int)),
        None => None,
    }
}

/// The values of nodes with one more node are the values, then its value.
pub proof fn lemma_pairs_view_push(pairs: Seq<Pair>, pair: Pair)
    ensures
        pairs_view(pairs.push(pair)) == pairs_view(pairs).push(pair@),
        pairs_view(Seq::<Pair>::empty()) == Seq::<Node>::empty(),
{
    assert(pairs.push(pair).drop_last() =~= pairs);
    assert(pairs.push(pair).last() == pair);
}

fn class_has(class: ByteClass, b: u8) -> (r: bool)
    ensures
        r == in_class(class, b),
{
    match class {
        ByteClass::Space => b == 0x20 || b == 0x09 || b == 0x0a || b == 0x0d,
        ByteClass::Digit => 0x30 <= b && b <= 0x39,
        ByteClass::NamePart => (0x61 <= b && b <= 0x7a) || (0x41 <= b && b <= 0x5a) || b == 0x5f
            || (0x30 <= b && b <= 0x39),
        ByteClass::NotQuote => b != 0x22,
    }
}

/// The place where the run of bytes of the class that starts at `pos` ends.
fn run_to(bytes: &[u8], pos: usize, class: ByteClass) -> (r: usize)
    ensures
        r == run_end(bytes@, pos as int, class),
        pos <= r,
        pos <= bytes@.len() ==> r <= bytes@.len(),
{
    let mut i = pos;
    while i < bytes.len() && class_has(class, bytes[i])
        invariant
            pos <= i,
            pos <= bytes@.len() ==> i <= bytes@.len(),
            run_end(bytes@, pos as int, class) == run_end(bytes@, i as int, class),
        decreases bytes@.len() - i,
    {
        i += 1;
    }
    i
}

/// The place after the word `w`, where it stands at the place `pos`.
fn word_end(bytes: &[u8], pos: usize, w: &str) -> (r: Option<usize>)
    ensures
        match r {
            Some(end) => word_at(bytes@, pos as int, encode_utf8(w@)) && end == pos + encode_utf8(
                w@,
            ).len() && end <= bytes@.len(),
            None => !word_at(bytes@, pos as int, encode_utf8(w@)),
        },
{
    let word = w.as_bytes();
    if pos > bytes.len() || word.len() > bytes.len() - pos {
        return None;
    }
    let mut i: usize = 0;
    while i < word.len()
        invariant
            i <= word@.len(),
            word@ == encode_utf8(w@),
            pos + word@.len() <= bytes@.len(),
            bytes@.len() <= usize::MAX,
            forall|j: int| 0 <= j < i ==> bytes@[pos + j] == word@[j],
        decreases word@.len() - i,
    {
        if bytes[pos + i] != word[i] {
            assert(bytes@.subrange(pos as int, pos + word@.len())[i as int] != word@[i as int]);
            return None;
        }
        i += 1;
    }
    assert(bytes@.subrange(pos as int, pos + word@.len()) =~= word@);
    Some(pos + word.len())
}

/// The node of the rule `rule` for the text from `start` to `end`.
fn make_pair(rule: Rule, input: &str, start: usize, end: usize, inner: Vec<Pair>) -> (r: Option<
    (Pair, usize),
>)
    ensures
        matched_view(r) == node_at(
            rule,
            input.spec_bytes(),
            start as int,
            end as int,
            pairs_view(inner@),
        ),
{
    let ghost bytes = input.spec_bytes();
    proof {
        vstd::utf8::encode_utf8_valid_utf8(input@);
    }
    let total = input.as_bytes().len();
    if start > end || end > total {
        return None;
    }
    if !input.is_char_boundary(start) || !input.is_char_boundary(end) {
        return None;
    }
    let (head, _) = input.split_at(end);
    proof {
        vstd::utf8::valid_utf8_split(bytes, end as int);
        let head_bytes = bytes.subrange(0, end as int);
        assert(head.spec_bytes() == head_bytes);
        if start < end {
            vstd::utf8::is_char_boundary_iff_not_is_continuation_byte(bytes, start as int);
            vstd::utf8::is_char_boundary_iff_not_is_continuation_byte(head_bytes, start as int);
        } else {
            vstd::utf8::is_char_boundary_start_end_of_seq(head_bytes);
        }
    }
    let (_, piece) = head.split_at(start);
    proof {
        assert(piece.spec_bytes() =~= bytes.subrange(start as int, end as int));
        vstd::utf8::encode_utf8_decode_utf8(piece@);
    }
    let pair = Pair { rule, span: Span { str: String::from_str(piece), start, end }, inner };
    Some((pair, end))
}

fn words_rule(
    rule: Rule,
    input: &str,
    bytes: &[u8],
    pos: usize,
    first: &str,
    second: &str,
    third: &str,
) -> (r: Option<(Pair, usize)>)
    requires
        bytes@ == input.spec_bytes(),
    ensures
        matched_view(r) == match_words(rule, bytes@, pos as int, first@, second@, third@),
{
    proof {
        lemma_pairs_view_push(Seq::empty(), arbitrary());
    }
    if let Some(end) = word_end(bytes, pos, first) {
        make_pair(rule, input, pos, end, Vec::new())
    } else if let Some(end) = word_end(bytes, pos, second) {
        make_pair(rule, input, pos, end, Vec::new())
    } else if let Some(end) = word_end(bytes, pos, third) {
        make_pair(rule, input, pos, end, Vec::new())
    } else {
        None
    }
}

fn qualifier(input: &str, bytes: &[u8], pos: usize) -> (r: Option<(Pair, usize)>)
    requires
        bytes@ == input.spec_bytes(),
    ensures
        matched_view(r) == match_qualifier(bytes@, pos as int),
{
    words_rule(Rule::qualifier, input, bytes, pos, "optional", "required", "repeated")
}

fn boolean(input: &str, bytes: &[u8], pos: usize) -> (r: Option<(Pair, usize)>)
    requires
        bytes@ == input.spec_bytes(),
    ensures
        matched_view(r) == match_bool(bytes@, pos as int),
{
    words_rule(Rule::bool, input, bytes, pos, "true", "false", "false")
}

fn size_kind(input: &str, bytes: &[u8], pos: usize) -> (r: Option<(Pair, usize)>)
    requires
        bytes@ == input.spec_bytes(),
    ensures
        matched_view(r) == match_size_kind(bytes@, pos as int),
{
    match words_rule(Rule::max_size_option, input, bytes, pos, "max_size", "max_size", "max_size") {
        Some(m) => Some(m),
        None => words_rule(Rule::max_len_option, input, bytes, pos, "max_len", "max_len", "max_len"),
    }
}

fn name(rule: Rule, input: &str, bytes: &[u8], pos: usize) -> (r: Option<(Pair, usize)>)
    requires
        bytes@ == input.spec_bytes(),
    ensures
        matched_view(r) == match_name(rule, bytes@, pos as int),
{
    proof {
        lemma_pairs_view_push(Seq::empty(), arbitrary());
    }
    if pos < bytes.len() {
        let b = bytes[pos];
        if (0x61 <= b && b <= 0x7a) || (0x41 <= b && b <= 0x5a) || b == 0x5f {
            let end = run_to(bytes, pos + 1, ByteClass::NamePart);
            return make_pair(rule, input, pos, end, Vec::new());
        }
    }
    None
}

fn number(input: &str, bytes: &[u8], pos: usize) -> (r: Option<(Pair, usize)>)
    requires
        bytes@ == input.spec_bytes(),
    ensures
        matched_view(r) == match_number(bytes@, pos as int),
{
    proof {
        lemma_pairs_view_push(Seq::empty(), arbitrary());
    }
    if pos < bytes.len() && class_has(ByteClass::Digit, bytes[pos]) {
        let end = run_to(bytes, pos + 1, ByteClass::Digit);
        return make_pair(Rule::number, input, pos, end, Vec::new());
    }
    None
}

fn string(input: &str, bytes: &[u8], pos: usize) -> (r: Option<(Pair, usize)>)
    requires
        bytes@ == input.spec_bytes(),
    ensures
        matched_view(r) == match_string(bytes@, pos as int),
{
    proof {
        lemma_pairs_view_push(Seq::empty(), arbitrary());
    }
    if pos < bytes.len() && bytes[pos] == 0x22 {
        let close = run_to(bytes, pos + 1, ByteClass::NotQuote);
        if close < bytes.len() {
            return make_pair(Rule::string, input, pos, close + 1, Vec::new());
        }
    }
    None
}

fn st_started(bytes: &[u8], pos: usize, w: &str) -> (r: Option<(Vec<Pair>, usize)>)
    ensures
        state_view(r) == started(bytes@, pos as int, w@),
{
    proof {
        lemma_pairs_view_push(Seq::empty(), arbitrary());
    }
    match word_end(bytes, pos, w) {
        Some(end) => Some((Vec::new(), end)),
        None => None,
    }
}

fn st_begun(m: Option<(Pair, usize)>) -> (r: Option<(Vec<Pair>, usize)>)
    ensures
        state_view(r) == begun(matched_view(m)),
{
    match m {
        Some((pair, end)) => {
            let mut pairs: Vec<Pair> = Vec::new();
            proof {
                lemma_pairs_view_push(pairs@, pair);
            }
            pairs.push(pair);
            assert(pairs_view(pairs@) =~= seq![pair@]);
            Some((pairs, end))
        },
        None => None,
    }
}

fn st_word(bytes: &[u8], state: Option<(Vec<Pair>, usize)>, w: &str) -> (r: Option<
    (Vec<Pair>, usize),
>)
    ensures
        state_view(r) == word(bytes@, state_view(state), w@),
{
    match state {
        Some((pairs, pos)) => match word_end(bytes, run_to(bytes, pos, ByteClass::Space), w) {
            Some(end) => Some((pairs, end)),
            None => None,
        },
        None => None,
    }
}

fn st_next(bytes: &[u8], state: &Option<(Vec<Pair>, usize)>) -> (r: usize)
    ensures
        r == next_at(bytes@, state_view(*state)),
{
    match state {
        Some((_, pos)) => run_to(bytes, *pos, ByteClass::Space),
        None => 0,
    }
}

fn st_take(state: Option<(Vec<Pair>, usize)>, m: Option<(Pair, usize)>) -> (r: Option<
    (Vec<Pair>, usize),
>)
    ensures
        state_view(r) == take(state_view(state), matched_view(m)),
{
    match state {
        Some((pairs, _)) => match m {
            Some((pair, end)) => {
                let mut pairs = pairs;
                proof {
                    lemma_pairs_view_push(pairs@, pair);
                }
                pairs.push(pair);
                Some((pairs, end))
            },
            None => None,
        },
        None => None,
    }
}

fn st_take_optional(bytes: &[u8], state: Option<(Vec<Pair>, usize)>, m: Option<(Pair, usize)>) -> (r:
    Option<(Vec<Pair>, usize)>)
    ensures
        state_view(r) == take_optional(bytes@, state_view(state), matched_view(m)),
{
    match state {
        Some((pairs, pos)) => match m {
            Some((pair, end)) => {
                let mut pairs = pairs;
                proof {
                    lemma_pairs_view_push(pairs@, pair);
                }
                pairs.push(pair);
                Some((pairs, end))
            },
            None => Some((pairs, run_to(bytes, pos, ByteClass::Space))),
        },
        None => None,
    }
}

fn st_finish(rule: Rule, input: &str, start: usize, state: Option<(Vec<Pair>, usize)>) -> (r: Option<
    (Pair, usize),
>)
    ensures
        matched_view(r) == finish(rule, input.spec_bytes(), start as int, state_view(state)),
{
    match state {
        Some((pairs, end)) => make_pair(rule, input, start, end, pairs),
        None => None,
    }
}

fn st_either(
    rule: Rule,
    input: &str,
    pos: usize,
    first: Option<(Pair, usize)>,
    second: Option<(Pair, usize)>,
) -> (r: Option<(Pair, usize)>)
    ensures
        matched_view(r) == either(
            rule,
            input.spec_bytes(),
            pos as int,
            matched_view(first),
            matched_view(second),
        ),
{
    let found = match first {
        Some(m) => Some(m),
        None => second,
    };
    match found {
        Some((pair, end)) => {
            let mut inner: Vec<Pair> = Vec::new();
            proof {
                lemma_pairs_view_push(inner@, pair);
            }
            inner.push(pair);
            assert(pairs_view(inner@) =~= seq![pair@]);
            make_pair(rule, input, pos, end, inner)
        },
        None => None,
    }
}

fn nanopb_option(input: &str, bytes: &[u8], pos: usize) -> (r: Option<(Pair, usize)>)
    requires
        bytes@ == input.spec_bytes(),
    ensures
        matched_view(r) == match_nanopb_option(bytes@, pos as int),
{
    let s0 = st_started(bytes, pos, "(nanopb).");
    let at = st_next(bytes, &s0);
    let s1 = st_take(s0, size_kind(input, bytes, at));
    let s2 = st_word(bytes, s1, "=");
    let at = st_next(bytes, &s2);
    let s3 = st_take(s2, number(input, bytes, at));
    st_finish(Rule::nanopb_option, input, pos, s3)
}

fn packed_option(input: &str, bytes: &[u8], pos: usize) -> (r: Option<(Pair, usize)>)
    requires
        bytes@ == input.spec_bytes(),
    ensures
        matched_view(r) == match_packed_option(bytes@, pos as int),
{
    let s0 = st_started(bytes, pos, "packed");
    let s1 = st_word(bytes, s0, "=");
    let at = st_next(bytes, &s1);
    let s2 = st_take(s1, boolean(input, bytes, at));
    st_finish(Rule::packed_option, input, pos, s2)
}

fn option(input: &str, bytes: &[u8], pos: usize) -> (r: Option<(Pair, usize)>)
    requires
        bytes@ == input.spec_bytes(),
    ensures
        matched_view(r) == match_option(bytes@, pos as int),
{
    let first = nanopb_option(input, bytes, pos);
    let second = if first.is_none() {
        packed_option(input, bytes, pos)
    } else {
        None
    };
    st_either(Rule::option, input, pos, first, second)
}

fn comma_option(input: &str, bytes: &[u8], pos: usize) -> (r: Option<(Pair, usize)>)
    requires
        bytes@ == input.spec_bytes(),
    ensures
        matched_view(r) == match_comma_option(bytes@, pos as int),
{
    match word_end(bytes, pos, ",") {
        Some(p) => option(input, bytes, run_to(bytes, p, ByteClass::Space)),
        None => None,
    }
}

/// Takes as many further options as follow, each after a comma.
fn st_more_options(input: &str, bytes: &[u8], state: Option<(Vec<Pair>, usize)>) -> (r: Option<
    (Vec<Pair>, usize),
>)
    requires
        bytes@ == input.spec_bytes(),
    ensures
        state_view(r) == match state_view(state) {
            Some((nodes, p)) => Some(more_options(bytes@, p, nodes)),
            None => None,
        },
{
    match state {
        Some((pairs, pos)) => {
            let mut pairs = pairs;
            let mut p = pos;
            let ghost nodes = pairs_view(pairs@);
            loop
                invariant
                    bytes@ == input.spec_bytes(),
                    more_options(bytes@, pos as int, nodes) == more_options(
                        bytes@,
                        p as int,
                        pairs_view(pairs@),
                    ),
                ensures
                    more_options(bytes@, pos as int, nodes) == (pairs_view(pairs@), p as int),
                decreases bytes@.len() - p,
            {
                match comma_option(input, bytes, run_to(bytes, p, ByteClass::Space)) {
                    Some((next, end)) => {
                        if end <= p || end > bytes.len() {
                            break ;
                        }
                        proof {
                            lemma_pairs_view_push(pairs@, next);
                        }
                        pairs.push(next);
                        p = end;
                    },
                    None => {
                        break ;
                    },
                }
            }
            Some((pairs, p))
        },
        None => None,
    }
}

fn options(input: &str, bytes: &[u8], pos: usize) -> (r: Option<(Pair, usize)>)
    requires
        bytes@ == input.spec_bytes(),
    ensures
        matched_view(r) == match_options(bytes@, pos as int),
{
    let s0 = st_started(bytes, pos, "[");
    let at = st_next(bytes, &s0);
    let s1 = st_take(s0, option(input, bytes, at));
    let s2 = st_more_options(input, bytes, s1);
    let s3 = st_word(bytes, s2, "]");
    st_finish(Rule::options, input, pos, s3)
}

fn message_field(input: &str, bytes: &[u8], pos: usize) -> (r: Option<(Pair, usize)>)
    requires
        bytes@ == input.spec_bytes(),
    ensures
        matched_view(r) == match_message_field(bytes@, pos as int),
{
    let s0 = st_begun(qualifier(input, bytes, pos));
    if s0.is_none() {
        return None;
    }
    let at = st_next(bytes, &s0);
    let s1 = st_take(s0, name(Rule::field_type, input, bytes, at));
    let at = st_next(bytes, &s1);
    let s2 = st_take(s1, name(Rule::identifier, input, bytes, at));
    let s3 = st_word(bytes, s2, "=");
    let at = st_next(bytes, &s3);
    let s4 = st_take(s3, number(input, bytes, at));
    let s5 = st_word(bytes, s4, ";");
    let at = st_next(bytes, &s5);
    let s6 = st_take_optional(bytes, s5, options(input, bytes, at));
    st_finish(Rule::message_field, input, pos, s6)
}

fn enum_field(input: &str, bytes: &[u8], pos: usize) -> (r: Option<(Pair, usize)>)
    requires
        bytes@ == input.spec_bytes(),
    ensures
        matched_view(r) == match_enum_field(bytes@, pos as int),
{
    let s0 = st_begun(name(Rule::identifier, input, bytes, pos));
    let s1 = st_word(bytes, s0, "=");
    let at = st_next(bytes, &s1);
    let s2 = st_take(s1, number(input, bytes, at));
    let s3 = st_word(bytes, s2, ";");
    st_finish(Rule::enum_field, input, pos, s3)
}

/// Takes as many fields as follow.
fn st_more_fields(input: &str, bytes: &[u8], state: Option<(Vec<Pair>, usize)>) -> (r: Option<
    (Vec<Pair>, usize),
>)
    requires
        bytes@ == input.spec_bytes(),
    ensures
        state_view(r) == match state_view(state) {
            Some((nodes, p)) => Some(more_fields(bytes@, p, nodes)),
            None => None,
        },
{
    match state {
        Some((pairs, pos)) => {
            let mut pairs = pairs;
            let mut p = pos;
            let ghost nodes = pairs_view(pairs@);
            loop
                invariant
                    bytes@ == input.spec_bytes(),
                    more_fields(bytes@, pos as int, nodes) == more_fields(
                        bytes@,
                        p as int,
                        pairs_view(pairs@),
                    ),
                ensures
                    more_fields(bytes@, pos as int, nodes) == (pairs_view(pairs@), p as int),
                decreases bytes@.len() - p,
            {
                match message_field(input, bytes, run_to(bytes, p, ByteClass::Space)) {
                    Some((next, end)) => {
                        if end <= p || end > bytes.len() {
                            break ;
                        }
                        proof {
                            lemma_pairs_view_push(pairs@, next);
                        }
                        pairs.push(next);
                        p = end;
                    },
                    None => {
                        break ;
                    },
                }
            }
            Some((pairs, p))
        },
        None => None,
    }
}

/// Takes as many variants as follow.
fn st_more_variants(input: &str, bytes: &[u8], state: Option<(Vec<Pair>, usize)>) -> (r: Option<
    (Vec<Pair>, usize),
>)
    requires
        bytes@ == input.spec_bytes(),
    ensures
        state_view(r) == match state_view(state) {
            Some((nodes, p)) => Some(more_variants(bytes@, p, nodes)),
            None => None,
        },
{
    match state {
        Some((pairs, pos)) => {
            let mut pairs = pairs;
            let mut p = pos;
            let ghost nodes = pairs_view(pairs@);
            loop
                invariant
                    bytes@ == input.spec_bytes(),
                    more_variants(bytes@, pos as int, nodes) == more_variants(
                        bytes@,
                        p as int,
                        pairs_view(pairs@),
                    ),
                ensures
                    more_variants(bytes@, pos as int, nodes) == (pairs_view(pairs@), p as int),
                decreases bytes@.len() - p,
            {
                match enum_field(input, bytes, run_to(bytes, p, ByteClass::Space)) {
                    Some((next, end)) => {
                        if end <= p || end > bytes.len() {
                            break ;
                        }
                        proof {
                            lemma_pairs_view_push(pairs@, next);
                        }
                        pairs.push(next);
                        p = end;
                    },
                    None => {
                        break ;
                    },
                }
            }
            Some((pairs, p))
        },
        None => None,
    }
}

fn message_definition(input: &str, bytes: &[u8], pos: usize) -> (r: Option<(Pair, usize)>)
    requires
        bytes@ == input.spec_bytes(),
    ensures
        matched_view(r) == match_message_definition(bytes@, pos as int),
{
    let s0 = st_started(bytes, pos, "message");
    if s0.is_none() {
        return None;
    }
    let at = st_next(bytes, &s0);
    let s1 = st_take(s0, name(Rule::identifier, input, bytes, at));
    let s2 = st_word(bytes, s1, "{");
    let s3 = st_more_fields(input, bytes, s2);
    let s4 = st_word(bytes, s3, "}");
    st_finish(Rule::message_definition, input, pos, s4)
}

fn enum_definition(input: &str, bytes: &[u8], pos: usize) -> (r: Option<(Pair, usize)>)
    requires
        bytes@ == input.spec_bytes(),
    ensures
        matched_view(r) == match_enum_definition(bytes@, pos as int),
{
    let s0 = st_started(bytes, pos, "enum");
    if s0.is_none() {
        return None;
    }
    let at = st_next(bytes, &s0);
    let s1 = st_take(s0, name(Rule::identifier, input, bytes, at));
    let s2 = st_word(bytes, s1, "{");
    let s3 = st_more_variants(input, bytes, s2);
    let s4 = st_word(bytes, s3, "}");
    st_finish(Rule::enum_definition, input, pos, s4)
}

fn block_statement(input: &str, bytes: &[u8], pos: usize) -> (r: Option<(Pair, usize)>)
    requires
        bytes@ == input.spec_bytes(),
    ensures
        matched_view(r) == match_block_statement(bytes@, pos as int),
{
    let first = message_definition(input, bytes, pos);
    let second = if first.is_none() {
        enum_definition(input, bytes, pos)
    } else {
        None
    };
    st_either(Rule::block_statement, input, pos, first, second)
}

fn import_statement(input: &str, bytes: &[u8], pos: usize) -> (r: Option<(Pair, usize)>)
    requires
        bytes@ == input.spec_bytes(),
    ensures
        matched_view(r) == match_import_statement(bytes@, pos as int),
{
    let s0 = st_started(bytes, pos, "import");
    let at = st_next(bytes, &s0);
    let s1 = st_take(s0, string(input, bytes, at));
    let s2 = st_word(bytes, s1, ";");
    st_finish(Rule::import_statement, input, pos, s2)
}

fn statement(input: &str, bytes: &[u8], pos: usize) -> (r: Option<(Pair, usize)>)
    requires
        bytes@ == input.spec_bytes(),
    ensures
        matched_view(r) == match_statement(bytes@, pos as int),
{
    let first = block_statement(input, bytes, pos);
    let second = if first.is_none() {
        import_statement(input, bytes, pos)
    } else {
        None
    };
    st_either(Rule::statement, input, pos, first, second)
}

fn version_decl(input: &str, bytes: &[u8], pos: usize) -> (r: Option<(Pair, usize)>)
    requires
        bytes@ == input.spec_bytes(),
    ensures
        matched_view(r) == match_version_decl(bytes@, pos as int),
{
    let s0 = st_started(bytes, pos, "syntax");
    let s1 = st_word(bytes, s0, "=");
    let at = st_next(bytes, &s1);
    let s2 = st_take(s1, string(input, bytes, at));
    let s3 = st_word(bytes, s2, ";");
    st_finish(Rule::version_decl, input, pos, s3)
}

fn top_level(input: &str, bytes: &[u8], pos: usize) -> (r: Option<(Pair, usize)>)
    requires
        bytes@ == input.spec_bytes(),
    ensures
        matched_view(r) == match_top_level(bytes@, pos as int),
{
    match version_decl(input, bytes, pos) {
        Some(m) => Some(m),
        None => statement(input, bytes, pos),
    }
}

/// Takes as many version declarations and statements as follow from the
/// start of the text.
fn all_statements(input: &str, bytes: &[u8]) -> (r: (Vec<Pair>, usize))
    requires
        bytes@ == input.spec_bytes(),
    ensures
        (pairs_view(r.0@), r.1 as int) == more_statements(bytes@, 0, Seq::empty()),
        r.1 <= bytes@.len(),
{
    let mut pairs: Vec<Pair> = Vec::new();
    let mut p: usize = 0;
    proof {
        lemma_pairs_view_push(Seq::empty(), arbitrary());
    }
    loop
        invariant
            bytes@ == input.spec_bytes(),
            p <= bytes@.len(),
            more_statements(bytes@, 0, Seq::empty()) == more_statements(
                bytes@,
                p as int,
                pairs_view(pairs@),
            ),
        ensures
            p <= bytes@.len(),
            more_statements(bytes@, 0, Seq::empty()) == (pairs_view(pairs@), p as int),
        decreases bytes@.len() - p,
    {
        match top_level(input, bytes, run_to(bytes, p, ByteClass::Space)) {
            Some((next, end)) => {
                if end <= p || end > bytes.len() {
                    break ;
                }
                proof {
                    lemma_pairs_view_push(pairs@, next);
                }
                pairs.push(next);
                p = end;
            },
            None => {
                break ;
            },
        }
    }
    (pairs, p)
}

fn end_of_input(input: &str, bytes: &[u8], pos: usize) -> (r: Option<(Pair, usize)>)
    requires
        bytes@ == input.spec_bytes(),
    ensures
        matched_view(r) == match_end(bytes@, pos as int),
{
    proof {
        lemma_pairs_view_push(Seq::empty(), arbitrary());
    }
    if pos == bytes.len() {
        make_pair(Rule::EOI, input, pos, pos, Vec::new())
    } else {
        None
    }
}

fn proto_definition(input: &str, bytes: &[u8], pos: usize) -> (r: Option<(Pair, usize)>)
    requires
        bytes@ == input.spec_bytes(),
    ensures
        matched_view(r) == match_proto_definition(bytes@, pos as int),
{
    if pos != 0 {
        return None;
    }
    let s0 = Some(all_statements(input, bytes));
    let at = st_next(bytes, &s0);
    let s1 = st_take(s0, end_of_input(input, bytes, at));
    st_finish(Rule::proto_definition, input, 0, s1)
}

/// What the rule `rule` matches at the place `pos` of the text `input`: the
/// node and the place where the match ends.
pub fn match_at(rule: Rule, input: &str, pos: usize) -> (r: Option<(Pair, usize)>)
    ensures
        matched_view(r) == match_rule(rule, encode_utf8(input@), pos as int),
{
    let bytes = input.as_bytes();
    match rule {
        Rule::EOI => end_of_input(input, bytes, pos),
        Rule::proto_definition => proto_definition(input, bytes, pos),
        Rule::version_decl => version_decl(input, bytes, pos),
        Rule::statement => statement(input, bytes, pos),
        Rule::import_statement => import_statement(input, bytes, pos),
        Rule::block_statement => block_statement(input, bytes, pos),
        Rule::message_definition => message_definition(input, bytes, pos),
        Rule::enum_definition => enum_definition(input, bytes, pos),
        Rule::message_field => message_field(input, bytes, pos),
        Rule::enum_field => enum_field(input, bytes, pos),
        Rule::qualifier => qualifier(input, bytes, pos),
        Rule::field_type => name(Rule::field_type, input, bytes, pos),
        Rule::identifier => name(Rule::identifier, input, bytes, pos),
        Rule::number => number(input, bytes, pos),
        Rule::string => string(input, bytes, pos),
        Rule::options => options(input, bytes, pos),
        Rule::option => option(input, bytes, pos),
        Rule::nanopb_option => nanopb_option(input, bytes, pos),
        Rule::max_size_option => words_rule(
            Rule::max_size_option,
            input,
            bytes,
            pos,
            "max_size",
            "max_size",
            "max_size",
        ),
        Rule::max_len_option => words_rule(
            Rule::max_len_option,
            input,
            bytes,
            pos,
            "max_len",
            "max_len",
            "max_len",
        ),
        Rule::packed_option => packed_option(input, bytes, pos),
        Rule::bool => boolean(input, bytes, pos),
    }
}

/// The text that could not be read, for an error to report.
fn unread_span(rule: Rule, input: &str) -> (r: StaticSpan)
    ensures
        r@ == unread(rule, encode_utf8(input@)),
{
    let bytes = input.as_bytes();
    let total = bytes.len();
    proof {
        vstd::utf8::encode_utf8_valid_utf8(input@);
        vstd::utf8::encode_utf8_decode_utf8(input@);
        assert(bytes@.subrange(0, bytes@.len() as int) =~= bytes@);
    }
    if let Rule::proto_definition = rule {
        let (_, p) = all_statements(input, bytes);
        let from = run_to(bytes, p, ByteClass::Space);
        if input.is_char_boundary(from) {
            let (_, rest) = input.split_at(from);
            proof {
                vstd::utf8::encode_utf8_decode_utf8(rest@);
            }
            return StaticSpan { start: from, end: total, string: String::from_str(rest) };
        }
    }
    StaticSpan { start: 0, end: total, string: String::from_str(input) }
}

/// The parser of the schema grammar.
#[derive(Debug, Clone, Copy)]
pub struct PicoPBParser;

impl PicoPBParser {
    /// Reads the text `input` by the rule `rule`, which must match at its
    /// start, and returns the node of the rule.
    pub fn parse(rule: Rule, input: &str) -> (r: Result<Vec<Pair>, ParserError>)
        ensures
            match parse_tree(rule, encode_utf8(input@)) {
                Ok(nodes) => r is Ok && pairs_view(r->Ok_0@) == nodes,
                Err(e) => r is Err && r->Err_0@ == e,
            },
    {
        match match_at(rule, input, 0) {
            Some((pair, _)) => {
                let mut pairs: Vec<Pair> = Vec::new();
                proof {
                    lemma_pairs_view_push(pairs@, pair);
                }
                pairs.push(pair);
                assert(pairs_view(pairs@) =~= seq![pair@]);
                Ok(pairs)
            },
            None => Err(ParserError::PestRuleError(unread_span(rule, input))),
        }
    }
}

} // verus!
