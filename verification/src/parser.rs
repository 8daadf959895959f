//! The schema resolver: from the parse tree of a schema to its model.

use crate::common::{
    fields_ordered, pairs_ordered, put_field, put_pair, EnumType, EnumTypeView, Field,
    FieldOption, FieldOptions, FieldQualifier, FieldType, FieldTypeView, MessageField,
    MessageFieldView, MessageType, MessageTypeView, Ordinal, Version,
};
pub use crate::grammar::PicoPBParser;
use crate::grammar::parse_tree;
use crate::text::{digit_value, str_eq};
use vstd::prelude::*;

verus! {

/// The rules of the schema grammar. A node of the parse tree is the match of one.
#[allow(non_camel_case_types)]
#[derive(Debug, Clone, Copy, PartialEq, Eq, Structural)]
pub enum Rule {
    EOI,
    proto_definition,
    version_decl,
    statement,
    import_statement,
    block_statement,
    message_definition,
    enum_definition,
    message_field,
    enum_field,
    qualifier,
    field_type,
    identifier,
    number,
    string,
    options,
    option,
    nanopb_option,
    max_size_option,
    max_len_option,
    packed_option,
    bool,
}

/// A stretch of the schema text: what it holds, and where it starts and ends,
/// in bytes.
#[derive(Debug, Clone, PartialEq, Eq)]
pub struct Span {
    pub str: String,
    pub start: usize,
    pub end: usize,
}

/// A stretch of the schema text as an error reports it.
#[derive(Debug, Clone, PartialEq, Eq)]
pub struct StaticSpan {
    pub start: usize,
    pub end: usize,
    pub string: String,
}

/// The mathematical value of a [`Span`] and of a [`StaticSpan`].
pub struct SpanView {
    pub start: usize,
    pub end: usize,
    pub text: Seq<char>,
}

impl View for Span {
    type V = SpanView;

    open spec fn view(&self) -> SpanView {
        SpanView { start: self.start, end: self.end, text: self.str@ }
    }
}

impl View for StaticSpan {
    type V = SpanView;

    open spec fn view(&self) -> SpanView {
        SpanView { start: self.start, end: self.end, text: self.string@ }
    }
}

impl From<&Span> for StaticSpan {
    fn from(span: &Span) -> (r: Self) {
        StaticSpan { start: span.start, end: span.end, string: span.str.clone() }
    }
}

impl vstd::std_specs::convert::FromSpecImpl<&Span> for StaticSpan {
    open spec fn obeys_from_spec() -> bool {
        true
    }

    open spec fn from_spec(span: &Span) -> Self {
        StaticSpan { start: span.start, end: span.end, string: span.str }
    }
}

impl From<Span> for StaticSpan {
    fn from(span: Span) -> (r: Self) {
        StaticSpan { start: span.start, end: span.end, string: span.str }
    }
}

impl vstd::std_specs::convert::FromSpecImpl<Span> for StaticSpan {
    open spec fn obeys_from_spec() -> bool {
        true
    }

    open spec fn from_spec(span: Span) -> Self {
        StaticSpan { start: span.start, end: span.end, string: span.str }
    }
}

impl StaticSpan {
    /// The same stretch for an error to report.
    pub fn of(span: &Span) -> (r: Self)
        ensures
            r@ == span@,
    {
        StaticSpan { start: span.start, end: span.end, string: span.str.clone() }
    }
}

/// Why a text is not a number of the wanted type.
#[derive(Debug, Clone, Copy, PartialEq, Eq, Structural)]
pub enum NumberError {
    /// The text is empty.
    Empty,
    /// The text holds something else than digits after an optional `+`.
    InvalidDigit,
    /// The number is too large.
    PosOverflow,
}

/// Why a text or a parse tree is no schema. The span is the text at fault.
#[derive(Debug, Clone, PartialEq, Eq)]
pub enum ParserError {
    InvalidProtoDefinition(StaticSpan),
    ExpectedStatement(StaticSpan),
    InvalidVersionDeclaration(StaticSpan),
    InvalidProtoVersion(StaticSpan),
    DuplicateProtoVersion(StaticSpan),
    ImportMustBeNonEmpty(StaticSpan),
    ExpectedOption(StaticSpan),
    ExpectedNonempty(StaticSpan),
    ExpectedPredicateMatchButGot(StaticSpan, Rule),
    ExpectedRule(StaticSpan, Rule),
    ExpectedRuleButGot(StaticSpan, Rule, Rule),
    ExpectedOptionValue,
    UnknownOption(StaticSpan, String),
    /// The text does not follow the grammar: the span is what could not be read.
    PestRuleError(StaticSpan),
    ParseIntError(StaticSpan, NumberError),
    ExpectedButGot(StaticSpan, String, String),
}

/// The mathematical value of a [`ParserError`].
pub enum ParserErrorView {
    InvalidProtoDefinition(SpanView),
    ExpectedStatement(SpanView),
    InvalidVersionDeclaration(SpanView),
    InvalidProtoVersion(SpanView),
    DuplicateProtoVersion(SpanView),
    ImportMustBeNonEmpty(SpanView),
    ExpectedOption(SpanView),
    ExpectedNonempty(SpanView),
    ExpectedPredicateMatchButGot(SpanView, Rule),
    ExpectedRule(SpanView, Rule),
    ExpectedRuleButGot(SpanView, Rule, Rule),
    ExpectedOptionValue,
    UnknownOption(SpanView, Seq<char>),
    PestRuleError(SpanView),
    ParseIntError(SpanView, NumberError),
    ExpectedButGot(SpanView, Seq<char>, Seq<char>),
}

impl View for ParserError {
    type V = ParserErrorView;

    open spec fn view(&self) -> ParserErrorView {
        match self {
            ParserError::InvalidProtoDefinition(s) => ParserErrorView::InvalidProtoDefinition(s@),
            ParserError::ExpectedStatement(s) => ParserErrorView::ExpectedStatement(s@),
            ParserError::InvalidVersionDeclaration(s) => ParserErrorView::InvalidVersionDeclaration(
                s@,
            ),
            ParserError::InvalidProtoVersion(s) => ParserErrorView::InvalidProtoVersion(s@),
            ParserError::DuplicateProtoVersion(s) => ParserErrorView::DuplicateProtoVersion(s@),
            ParserError::ImportMustBeNonEmpty(s) => ParserErrorView::ImportMustBeNonEmpty(s@),
            ParserError::ExpectedOption(s) => ParserErrorView::ExpectedOption(s@),
            ParserError::ExpectedNonempty(s) => ParserErrorView::ExpectedNonempty(s@),
            ParserError::ExpectedPredicateMatchButGot(s, r) =>
                ParserErrorView::ExpectedPredicateMatchButGot(s@, *r),
            ParserError::ExpectedRule(s, r) => ParserErrorView::ExpectedRule(s@, *r),
            ParserError::ExpectedRuleButGot(s, r, g) => ParserErrorView::ExpectedRuleButGot(
                s@,
                *r,
                *g,
            ),
            ParserError::ExpectedOptionValue => ParserErrorView::ExpectedOptionValue,
            ParserError::UnknownOption(s, o) => ParserErrorView::UnknownOption(s@, o@),
            ParserError::PestRuleError(m) => ParserErrorView::PestRuleError(m@),
            ParserError::ParseIntError(s, k) => ParserErrorView::ParseIntError(s@, *k),
            ParserError::ExpectedButGot(s, e, g) => ParserErrorView::ExpectedButGot(s@, e@, g@),
        }
    }
}

/// A node of the parse tree: the rule that matched, the text that it matched,
/// and the nodes of the rules that matched inside it, in the order of the text.
#[derive(Debug, PartialEq, Eq)]
pub struct Pair {
    pub rule: Rule,
    pub span: Span,
    pub inner: Vec<Pair>,
}

/// The mathematical value of a [`Pair`].
pub struct Node {
    pub rule: Rule,
    pub span: SpanView,
    pub inner: Seq<Node>,
}

/// The value of the node `pair`.
pub open spec fn node_of(pair: Pair) -> Node
    decreases pair, 1int,
{
    Node { rule: pair.rule, span: pair.span@, inner: pairs_view(pair.inner@) }
}

/// The values of the nodes of `pairs`, in their order.
pub open spec fn pairs_view(pairs: Seq<Pair>) -> Seq<Node>
    decreases pairs, 0int,
{
    if pairs.len() == 0 {
        Seq::empty()
    } else {
        pairs_view(pairs.drop_last()).push(node_of(pairs.last()))
    }
}

impl View for Pair {
    type V = Node;

    open spec fn view(&self) -> Node {
        node_of(*self)
    }
}

/// The values of nodes are as many as the nodes, each the value of its node.
pub proof fn lemma_pairs_view(pairs: Seq<Pair>)
    ensures
        pairs_view(pairs).len() == pairs.len(),
        forall|i: int| 0 <= i < pairs.len() ==> #[trigger] pairs_view(pairs)[i] == pairs[i]@,
    decreases pairs.len(),
{
    if pairs.len() > 0 {
        lemma_pairs_view(pairs.drop_last());
    }
}

impl Pair {
    /// The value of a node holds the values of the nodes inside it.
    pub proof fn lemma_view(&self)
        ensures
            self@.rule == self.rule,
            self@.span == self.span@,
            self@.inner == pairs_view(self.inner@),
            self@.inner.len() == self.inner@.len(),
            forall|i: int| 0 <= i < self.inner@.len() ==> #[trigger] self@.inner[i] == self.inner@[i]@,
    {
        lemma_pairs_view(self.inner@);
    }

    /// The text that the node matched.
    pub fn as_str(&self) -> (r: &str)
        ensures
            r@ == self@.span.text,
    {
        self.span.str.as_str()
    }
}

/// Whether what a function returned is what it was to return.
pub open spec fn returned<T: View>(r: Result<T, ParserError>, s: Result<T::V, ParserErrorView>) -> bool {
    match (r, s) {
        (Ok(x), Ok(y)) => x@ == y,
        (Err(e), Err(f)) => e@ == f,
        _ => false,
    }
}

/// Whether what a function that looks a node up returned is what it was to return.
pub open spec fn found(r: Result<&Pair, ParserError>, s: Result<Node, ParserErrorView>) -> bool {
    match (r, s) {
        (Ok(x), Ok(y)) => x@ == y,
        (Err(e), Err(f)) => e@ == f,
        _ => false,
    }
}

/// The number that the digits `digits` write after the number `acc`, read
/// from the left, as long as it stays within `max`.
pub open spec fn scan_digits(digits: Seq<char>, acc: nat, max: nat) -> Result<nat, NumberError>
    decreases digits.len(),
{
    if digits.len() == 0 {
        Ok(acc)
    } else {
        match digit_value(digits[0]) {
            None => Err(NumberError::InvalidDigit),
            Some(d) => if acc * 10 + d > max {
                Err(NumberError::PosOverflow)
            } else {
                scan_digits(digits.drop_first(), acc * 10 + d, max)
            },
        }
    }
}

/// The number that the text `s` writes in decimal digits, which a `+` may
/// precede, where it is one and not above `max`.
pub open spec fn number_of(s: Seq<char>, max: nat) -> Result<nat, NumberError> {
    if s.len() == 0 {
        Err(NumberError::Empty)
    } else {
        let digits = if s[0] == '+' {
            s.drop_first()
        } else {
            s
        };
        if digits.len() == 0 {
            Err(NumberError::InvalidDigit)
        } else {
            scan_digits(digits, 0, max)
        }
    }
}

/// Reads the text `s` as a decimal number that is not above `max`.
pub fn parse_number(s: &str, max: u64) -> (r: Result<u64, NumberError>)
    ensures
        match number_of(s@, max as nat) {
            Ok(n) => r == Ok::<u64, NumberError>(n as u64) && n <= max,
            Err(e) => r == Err::<u64, NumberError>(e),
        },
{
    let len = s.unicode_len();
    if len == 0 {
        return Err(NumberError::Empty);
    }
    let mut i: usize = if s.get_char(0) == '+' {
        1
    } else {
        0
    };
    if i == len {
        return Err(NumberError::InvalidDigit);
    }
    proof {
        assert(s@.drop_first() =~= s@.skip(1));
        assert(s@ =~= s@.skip(0));
    }
    let mut acc: u64 = 0;
    while i < len
        invariant
            i <= len,
            len == s@.len(),
            acc <= max,
            number_of(s@, max as nat) == scan_digits(s@.skip(i as int), acc as nat, max as nat),
        decreases len - i,
    {
        let c = s.get_char(i);
        proof {
            assert(s@.skip(i as int)[0] == c);
            assert(s@.skip(i as int).drop_first() =~= s@.skip(i + 1));
        }
        if c < '0' || c > '9' {
            return Err(NumberError::InvalidDigit);
        }
        let d: u64 = (c as u32 - '0' as u32) as u64;
        if d > max || acc > (max - d) / 10 {
            assert(acc * 10 + d > max);
            return Err(NumberError::PosOverflow);
        }
        assert(acc * 10 + d <= max);
        acc = acc * 10 + d;
        i += 1;
    }
    Ok(acc)
}

/// The node `pair`, where the rule `rule` matched it.
pub open spec fn rule_expected(pair: Node, rule: Rule) -> Result<Node, ParserErrorView> {
    if pair.rule == rule {
        Ok(pair)
    } else {
        Err(ParserErrorView::ExpectedRuleButGot(pair.span, rule, pair.rule))
    }
}

/// The node at the place `at` of `pairs`, where there is one and the rule
/// `rule` matched it. `span` is the text that the nodes stand in.
pub open spec fn next_rule_expected(span: SpanView, pairs: Seq<Node>, at: int, rule: Rule) -> Result<Node, ParserErrorView> {
    if 0 <= at < pairs.len() {
        rule_expected(pairs[at], rule)
    } else {
        Err(ParserErrorView::ExpectedRule(span, rule))
    }
}

/// The node at the place `at` of `pairs`, where there is one and one of the
/// rules `first` and `second` matched it. `span` is the text that the nodes
/// stand in.
pub open spec fn next_match_expected(
    span: SpanView,
    pairs: Seq<Node>,
    at: int,
    first: Rule,
    second: Rule,
) -> Result<Node, ParserErrorView> {
    if !(0 <= at < pairs.len()) {
        Err(ParserErrorView::ExpectedNonempty(span))
    } else if pairs[at].rule == first || pairs[at].rule == second {
        Ok(pairs[at])
    } else {
        Err(ParserErrorView::ExpectedPredicateMatchButGot(pairs[at].span, pairs[at].rule))
    }
}

/// The bound that the text `s` writes; an error names the text `span`.
pub open spec fn usize_of(span: SpanView, s: Seq<char>) -> Result<usize, ParserErrorView> {
    match number_of(s, usize::MAX as nat) {
        Ok(n) => Ok(n as usize),
        Err(kind) => Err(ParserErrorView::ParseIntError(span, kind)),
    }
}

/// The field or variant number that the text of `span` writes.
pub open spec fn ordinal_of(span: SpanView) -> Result<Ordinal, ParserErrorView> {
    match number_of(span.text, u32::MAX as nat) {
        Ok(n) => Ok(n as u32),
        Err(kind) => Err(ParserErrorView::ParseIntError(span, kind)),
    }
}

/// The option that a node `(nanopb).max_size=N` or `(nanopb).max_len=N` writes.
pub open spec fn nanopb_option_of(pair: Node) -> Result<FieldOption, ParserErrorView> {
    match rule_expected(pair, Rule::nanopb_option) {
        Err(e) => Err(e),
        Ok(option) => match next_match_expected(
            option.span,
            option.inner,
            0,
            Rule::max_size_option,
            Rule::max_len_option,
        ) {
            Err(e) => Err(e),
            Ok(variant) => match next_rule_expected(option.span, option.inner, 1, Rule::number) {
                Err(e) => Err(e),
                Ok(number) => match usize_of(variant.span, number.span.text) {
                    Err(e) => Err(e),
                    Ok(n) => if variant.rule == Rule::max_size_option {
                        Ok(FieldOption::MaxSize(n))
                    } else {
                        Ok(FieldOption::MaxLen(n))
                    },
                },
            },
        },
    }
}

/// The option that a node `packed=true` or `packed=false` writes.
pub open spec fn packed_option_of(pair: Node) -> Result<FieldOption, ParserErrorView> {
    match rule_expected(pair, Rule::packed_option) {
        Err(e) => Err(e),
        Ok(option) => match next_rule_expected(option.span, option.inner, 0, Rule::bool) {
            Err(e) => Err(e),
            Ok(value) => if value.span.text == "true"@ {
                Ok(FieldOption::Packed(true))
            } else if value.span.text == "false"@ {
                Ok(FieldOption::Packed(false))
            } else {
                Err(ParserErrorView::ExpectedButGot(value.span, "bool"@, value.span.text))
            },
        },
    }
}

/// The option that an option node writes.
pub open spec fn option_of(pair: Node) -> Result<FieldOption, ParserErrorView> {
    match rule_expected(pair, Rule::option) {
        Err(e) => Err(e),
        Ok(option) => match next_match_expected(
            option.span,
            option.inner,
            0,
            Rule::nanopb_option,
            Rule::packed_option,
        ) {
            Err(e) => Err(e),
            Ok(variant) => if variant.rule == Rule::nanopb_option {
                nanopb_option_of(variant)
            } else {
                packed_option_of(variant)
            },
        },
    }
}

/// The options `acc`, then those that the nodes of `pairs` from the place `at`
/// on write; the first node that writes none decides the error.
pub open spec fn options_from(pairs: Seq<Node>, at: int, acc: Seq<FieldOption>) -> Result<
    Seq<FieldOption>,
    ParserErrorView,
>
    decreases pairs.len() - at,
{
    if at < 0 || at >= pairs.len() {
        Ok(acc)
    } else {
        match option_of(pairs[at]) {
            Err(e) => Err(e),
            Ok(option) => options_from(pairs, at + 1, acc.push(option)),
        }
    }
}

/// The options that a node `[..]` writes, in their order.
pub open spec fn options_of(pair: Node) -> Result<Seq<FieldOption>, ParserErrorView> {
    match rule_expected(pair, Rule::options) {
        Err(e) => Err(e),
        Ok(options) => options_from(options.inner, 0, Seq::empty()),
    }
}

/// The options of the field that the node `pair` writes, gathered: those of
/// its fifth inner node, where it has one.
pub open spec fn field_options_of(pair: Node) -> Result<FieldOptions, ParserErrorView> {
    if pair.inner.len() > 4 {
        match options_of(pair.inner[4]) {
            Err(e) => Err(e),
            Ok(options) => Ok(FieldOptions::gathered(options)),
        }
    } else {
        Ok(FieldOptions::none())
    }
}

/// The field that the parts of the node `pair` write: its number must be a
/// `u32`, its bound a `usize` and its qualifier one of the three keywords.
pub open spec fn field_from_parts(
    pair: Node,
    qualifier: Node,
    field_type: Node,
    identifier: Node,
    number: Node,
    options: FieldOptions,
) -> Result<MessageFieldView, ParserErrorView> {
    match ordinal_of(number.span) {
        Err(e) => Err(e),
        Ok(ordinal) => if !options.bound_fits() {
            Err(ParserErrorView::ParseIntError(pair.span, NumberError::PosOverflow))
        } else if !FieldQualifier::is_keyword(qualifier.span.text) {
            Err(ParserErrorView::ExpectedButGot(qualifier.span, "qualifier"@, qualifier.span.text))
        } else {
            Ok(
                MessageFieldView {
                    qualifier: FieldQualifier::from_keyword(qualifier.span.text, options),
                    field_type: FieldTypeView::from_name(field_type.span.text, options.bound()),
                    identifier: identifier.span.text,
                    ordinal: Field(ordinal),
                },
            )
        },
    }
}

/// The field that a field node writes: a qualifier, a type, a name and a
/// number, in this order, and options after them where there are any.
pub open spec fn message_field_of(pair: Node) -> Result<MessageFieldView, ParserErrorView> {
    match next_rule_expected(pair.span, pair.inner, 0, Rule::qualifier) {
        Err(e) => Err(e),
        Ok(qualifier) => match next_rule_expected(pair.span, pair.inner, 1, Rule::field_type) {
            Err(e) => Err(e),
            Ok(field_type) => match next_rule_expected(
                pair.span,
                pair.inner,
                2,
                Rule::identifier,
            ) {
                Err(e) => Err(e),
                Ok(identifier) => match next_rule_expected(
                    pair.span,
                    pair.inner,
                    3,
                    Rule::number,
                ) {
                    Err(e) => Err(e),
                    Ok(number) => match field_options_of(pair) {
                        Err(e) => Err(e),
                        Ok(options) => field_from_parts(
                            pair,
                            qualifier,
                            field_type,
                            identifier,
                            number,
                            options,
                        ),
                    },
                },
            },
        },
    }
}

/// The fields `acc` with those among them that the nodes of `pairs` from the
/// place `at` on write; the first node that writes none decides the error.
pub open spec fn message_fields_from(pairs: Seq<Node>, at: int, acc: Seq<MessageFieldView>) -> Result<
    Seq<MessageFieldView>,
    ParserErrorView,
>
    decreases pairs.len() - at,
{
    if at < 0 || at >= pairs.len() {
        Ok(acc)
    } else {
        match rule_expected(pairs[at], Rule::message_field) {
            Err(e) => Err(e),
            Ok(node) => match message_field_of(node) {
                Err(e) => Err(e),
                Ok(field) => message_fields_from(pairs, at + 1, put_field(acc, field)),
            },
        }
    }
}

/// The message type that a message node writes: its first inner node gives
/// the name, the others each a field.
pub open spec fn message_of(pair: Node) -> Result<MessageTypeView, ParserErrorView> {
    if pair.inner.len() == 0 {
        Err(ParserErrorView::ExpectedButGot(pair.span, "identifier"@, "None"@))
    } else {
        match message_fields_from(pair.inner, 1, Seq::empty()) {
            Err(e) => Err(e),
            Ok(fields) => Ok(MessageTypeView { identifier: pair.inner[0].span.text, fields }),
        }
    }
}

/// The variant that a variant node writes: a name and a number.
pub open spec fn enum_field_of(pair: Node) -> Result<(Seq<char>, Ordinal), ParserErrorView> {
    match next_rule_expected(pair.span, pair.inner, 0, Rule::identifier) {
        Err(e) => Err(e),
        Ok(identifier) => match next_rule_expected(pair.span, pair.inner, 1, Rule::number) {
            Err(e) => Err(e),
            Ok(number) => match ordinal_of(number.span) {
                Err(e) => Err(e),
                Ok(ordinal) => Ok((identifier.span.text, ordinal)),
            },
        },
    }
}

/// The variants `acc` with those among them that the nodes of `pairs` from
/// the place `at` on write; the first node that writes none decides the error.
pub open spec fn enum_fields_from(pairs: Seq<Node>, at: int, acc: Seq<(Seq<char>, Ordinal)>) -> Result<
    Seq<(Seq<char>, Ordinal)>,
    ParserErrorView,
>
    decreases pairs.len() - at,
{
    if at < 0 || at >= pairs.len() {
        Ok(acc)
    } else {
        match rule_expected(pairs[at], Rule::enum_field) {
            Err(e) => Err(e),
            Ok(node) => match enum_field_of(node) {
                Err(e) => Err(e),
                Ok(pair) => enum_fields_from(pairs, at + 1, put_pair(acc, pair)),
            },
        }
    }
}

/// The enum type that an enum node writes: its first inner node gives the
/// name, the others each a variant.
pub open spec fn enum_of(pair: Node) -> Result<EnumTypeView, ParserErrorView> {
    if pair.inner.len() == 0 {
        Err(ParserErrorView::ExpectedButGot(pair.span, "identifier"@, "None"@))
    } else {
        match enum_fields_from(pair.inner, 1, Seq::empty()) {
            Err(e) => Err(e),
            Ok(pairs) => Ok(EnumTypeView { identifier: pair.inner[0].span.text, pairs }),
        }
    }
}

/// The texts of `strings`, in their order.
pub open spec fn strings_view(strings: Seq<String>) -> Seq<Seq<char>> {
    Seq::new(strings.len(), |i: int| strings[i]@)
}

/// The values of the enum types of `enums`, in their order.
pub open spec fn enums_view(enums: Seq<EnumType>) -> Seq<EnumTypeView> {
    Seq::new(enums.len(), |i: int| enums[i]@)
}

/// The values of the message types of `messages`, in their order.
pub open spec fn messages_view(messages: Seq<MessageType>) -> Seq<MessageTypeView> {
    Seq::new(messages.len(), |i: int| messages[i]@)
}

/// The mathematical value of a schema.
pub struct SchemaView {
    pub version: Version,
    pub imports: Seq<Seq<char>>,
    pub enum_types: Seq<EnumTypeView>,
    pub message_types: Seq<MessageTypeView>,
}

/// The message types `messages` with `message` among them: in the place of
/// the one that has its name, where there is one, and else at the end.
pub open spec fn put_message(messages: Seq<MessageTypeView>, message: MessageTypeView) -> Seq<
    MessageTypeView,
>
    decreases messages.len(),
{
    if messages.len() == 0 {
        seq![message]
    } else if messages[0].identifier == message.identifier {
        seq![message] + messages.drop_first()
    } else {
        seq![messages[0]] + put_message(messages.drop_first(), message)
    }
}

/// The enum types `enums` with `enum_type` among them: in the place of the
/// one that has its name, where there is one, and else at the end.
pub open spec fn put_enum(enums: Seq<EnumTypeView>, enum_type: EnumTypeView) -> Seq<EnumTypeView>
    decreases enums.len(),
{
    if enums.len() == 0 {
        seq![enum_type]
    } else if enums[0].identifier == enum_type.identifier {
        seq![enum_type] + enums.drop_first()
    } else {
        seq![enums[0]] + put_enum(enums.drop_first(), enum_type)
    }
}

/// Putting a message type among others, told by the place where it comes to stand.
pub proof fn lemma_put_message_at(messages: Seq<MessageTypeView>, message: MessageTypeView, i: int)
    requires
        0 <= i <= messages.len(),
        forall|j: int| 0 <= j < i ==> (#[trigger] messages[j]).identifier != message.identifier,
        i < messages.len() ==> messages[i].identifier == message.identifier,
    ensures
        put_message(messages, message) == if i < messages.len() {
            messages.update(i, message)
        } else {
            messages.push(message)
        },
    decreases i,
{
    if i == 0 {
        if messages.len() == 0 {
            assert(put_message(messages, message) =~= messages.push(message));
        } else {
            assert(put_message(messages, message) =~= messages.update(0, message));
        }
    } else {
        let rest = messages.drop_first();
        assert(messages[0].identifier != message.identifier);
        assert forall|j: int| 0 <= j < i - 1 implies (#[trigger] rest[j]).identifier
            != message.identifier by {
            assert(rest[j] == messages[j + 1]);
        }
        lemma_put_message_at(rest, message, i - 1);
        if i < messages.len() {
            assert(seq![messages[0]] + rest.update(i - 1, message) =~= messages.update(i, message));
        } else {
            assert(seq![messages[0]] + rest.push(message) =~= messages.push(message));
        }
    }
}

/// Putting an enum type among others, told by the place where it comes to stand.
pub proof fn lemma_put_enum_at(enums: Seq<EnumTypeView>, enum_type: EnumTypeView, i: int)
    requires
        0 <= i <= enums.len(),
        forall|j: int| 0 <= j < i ==> (#[trigger] enums[j]).identifier != enum_type.identifier,
        i < enums.len() ==> enums[i].identifier == enum_type.identifier,
    ensures
        put_enum(enums, enum_type) == if i < enums.len() {
            enums.update(i, enum_type)
        } else {
            enums.push(enum_type)
        },
    decreases i,
{
    if i == 0 {
        if enums.len() == 0 {
            assert(put_enum(enums, enum_type) =~= enums.push(enum_type));
        } else {
            assert(put_enum(enums, enum_type) =~= enums.update(0, enum_type));
        }
    } else {
        let rest = enums.drop_first();
        assert(enums[0].identifier != enum_type.identifier);
        assert forall|j: int| 0 <= j < i - 1 implies (#[trigger] rest[j]).identifier
            != enum_type.identifier by {
            assert(rest[j] == enums[j + 1]);
        }
        lemma_put_enum_at(rest, enum_type, i - 1);
        if i < enums.len() {
            assert(seq![enums[0]] + rest.update(i - 1, enum_type) =~= enums.update(i, enum_type));
        } else {
            assert(seq![enums[0]] + rest.push(enum_type) =~= enums.push(enum_type));
        }
    }
}

/// Whether `name` is the name of one of the enum types `enums`.
pub open spec fn is_enum(enums: Seq<EnumTypeView>, name: Seq<char>) -> bool {
    exists|i: int| 0 <= i < enums.len() && (#[trigger] enums[i]).identifier == name
}

/// Whether `name` is the name of one of the message types `messages`.
pub open spec fn is_message(messages: Seq<MessageTypeView>, name: Seq<char>) -> bool {
    exists|i: int| 0 <= i < messages.len() && (#[trigger] messages[i]).identifier == name
}

/// The field type `field_type` once the enum types are known: a name that was
/// taken for a message and is the name of an enum refers to that enum.
pub open spec fn refined_type(field_type: FieldTypeView, enums: Seq<EnumTypeView>) -> FieldTypeView {
    match field_type.unresolved_name() {
        Some(name) => if is_enum(enums, name) {
            FieldTypeView::EnumType(name)
        } else {
            field_type
        },
        None => field_type,
    }
}

/// The field `field` once the enum types are known.
pub open spec fn refined_field(field: MessageFieldView, enums: Seq<EnumTypeView>) -> MessageFieldView {
    MessageFieldView { field_type: refined_type(field.field_type, enums), ..field }
}

/// The message type `message` once the enum types are known.
pub open spec fn refined_message(message: MessageTypeView, enums: Seq<EnumTypeView>) -> MessageTypeView {
    MessageTypeView {
        identifier: message.identifier,
        fields: Seq::new(message.fields.len(), |i: int| refined_field(message.fields[i], enums)),
    }
}

impl SchemaView {
    /// The schema of an empty text.
    pub open spec fn empty() -> SchemaView {
        SchemaView {
            version: Version::Unknown,
            imports: Seq::empty(),
            enum_types: Seq::empty(),
            message_types: Seq::empty(),
        }
    }

    /// Whether no name stands for two message types or for two enum types, the
    /// fields of every message are in order of their numbers, and the
    /// variants of every enum in order of their names.
    pub open spec fn wf(self) -> bool {
        &&& forall|i: int, j: int|
            0 <= i < j < self.message_types.len() ==> (#[trigger] self.message_types[i]).identifier
                != (#[trigger] self.message_types[j]).identifier
        &&& forall|i: int, j: int|
            0 <= i < j < self.enum_types.len() ==> (#[trigger] self.enum_types[i]).identifier != (
            #[trigger] self.enum_types[j]).identifier
        &&& forall|i: int|
            0 <= i < self.message_types.len() ==> fields_ordered(
                (#[trigger] self.message_types[i]).fields,
            )
        &&& forall|i: int|
            0 <= i < self.enum_types.len() ==> pairs_ordered((#[trigger] self.enum_types[i]).pairs)
    }

    /// The schema once all its enum types are known: in every field of every
    /// message, a type name that is the name of an enum refers to that enum.
    pub open spec fn refined(self) -> SchemaView {
        SchemaView {
            message_types: Seq::new(
                self.message_types.len(),
                |i: int| refined_message(self.message_types[i], self.enum_types),
            ),
            ..self
        }
    }
}

/// The text `s` without its first and its last character, which are the
/// quotes of a string.
pub open spec fn unquoted(s: Seq<char>) -> Seq<char>
    recommends
        s.len() >= 2,
{
    s.subrange(1, s.len() - 1)
}

/// The schema `schema` after the version declaration `pair`: the only
/// version is `"proto2"`.
pub open spec fn version_on(schema: SchemaView, pair: Node) -> Result<SchemaView, ParserErrorView> {
    if pair.inner.len() == 0 {
        Err(ParserErrorView::InvalidVersionDeclaration(pair.span))
    } else {
        let text = pair.inner[0].span.text;
        if text.len() >= 2 && unquoted(text) == "proto2"@ {
            Ok(SchemaView { version: Version::Proto2, ..schema })
        } else {
            Err(ParserErrorView::InvalidProtoVersion(pair.span))
        }
    }
}

/// The schema `schema` after the import `pair`: the path is kept as it is
/// written and must not be empty.
pub open spec fn import_on(schema: SchemaView, pair: Node) -> Result<SchemaView, ParserErrorView> {
    if pair.inner.len() == 0 {
        Ok(schema)
    } else {
        let text = pair.inner[0].span.text;
        if text.len() <= 2 {
            Err(ParserErrorView::ImportMustBeNonEmpty(pair.span))
        } else {
            Ok(SchemaView { imports: schema.imports.push(unquoted(text)), ..schema })
        }
    }
}

/// The schema `schema` after the message definition `pair`.
pub open spec fn message_definition_on(schema: SchemaView, pair: Node) -> Result<
    SchemaView,
    ParserErrorView,
> {
    match message_of(pair) {
        Err(e) => Err(e),
        Ok(message) => Ok(
            SchemaView { message_types: put_message(schema.message_types, message), ..schema },
        ),
    }
}

/// The schema `schema` after the enum definition `pair`.
pub open spec fn enum_definition_on(schema: SchemaView, pair: Node) -> Result<
    SchemaView,
    ParserErrorView,
> {
    match enum_of(pair) {
        Err(e) => Err(e),
        Ok(enum_type) => Ok(
            SchemaView { enum_types: put_enum(schema.enum_types, enum_type), ..schema },
        ),
    }
}

/// The schema `schema` after the block `pair`, which holds the definition of
/// a message or of an enum.
pub open spec fn block_statement_on(schema: SchemaView, pair: Node) -> Result<
    SchemaView,
    ParserErrorView,
> {
    match rule_expected(pair, Rule::block_statement) {
        Err(e) => Err(e),
        Ok(block) => match next_match_expected(
            block.span,
            block.inner,
            0,
            Rule::message_definition,
            Rule::enum_definition,
        ) {
            Err(e) => Err(e),
            Ok(next) => if next.rule == Rule::message_definition {
                message_definition_on(schema, next)
            } else {
                enum_definition_on(schema, next)
            },
        },
    }
}

/// The schema `schema` after the statement `pair`, which holds a block or an
/// import.
pub open spec fn statement_on(schema: SchemaView, pair: Node) -> Result<
    SchemaView,
    ParserErrorView,
> {
    match rule_expected(pair, Rule::statement) {
        Err(e) => Err(e),
        Ok(statement) => match next_match_expected(
            pair.span,
            statement.inner,
            0,
            Rule::block_statement,
            Rule::import_statement,
        ) {
            Err(e) => Err(e),
            Ok(variant) => if variant.rule == Rule::block_statement {
                block_statement_on(schema, variant)
            } else {
                import_on(schema, variant)
            },
        },
    }
}

/// The schema `schema` after the nodes of `pairs` from the place `at` on, which
/// stand in the text `span`: statements and version declarations up to the
/// end of the input. The first node that fails decides the error.
pub open spec fn statements_from(schema: SchemaView, span: SpanView, pairs: Seq<Node>, at: int) -> Result<
    SchemaView,
    ParserErrorView,
>
    decreases pairs.len() - at,
{
    if at < 0 || at >= pairs.len() {
        Ok(schema)
    } else if pairs[at].rule == Rule::statement {
        match statement_on(schema, pairs[at]) {
            Err(e) => Err(e),
            Ok(next) => statements_from(next, span, pairs, at + 1),
        }
    } else if pairs[at].rule == Rule::version_decl {
        match version_on(schema, pairs[at]) {
            Err(e) => Err(e),
            Ok(next) => statements_from(next, span, pairs, at + 1),
        }
    } else if pairs[at].rule == Rule::EOI {
        Ok(schema)
    } else {
        Err(
            ParserErrorView::ExpectedButGot(
                span,
                "Statement or version decl"@,
                pairs[at].span.text,
            ),
        )
    }
}

/// The schema `schema` after the nodes of `pairs` from the place `at` on, each
/// of which is a whole schema text.
pub open spec fn definitions_from(schema: SchemaView, pairs: Seq<Node>, at: int) -> Result<
    SchemaView,
    ParserErrorView,
>
    decreases pairs.len() - at,
{
    if at < 0 || at >= pairs.len() {
        Ok(schema)
    } else {
        match rule_expected(pairs[at], Rule::proto_definition) {
            Err(e) => Err(e),
            Ok(definition) => match statements_from(schema, definition.span, definition.inner, 0) {
                Err(e) => Err(e),
                Ok(next) => definitions_from(next, pairs, at + 1),
            },
        }
    }
}

/// The schema that the parse tree `pairs` stands for: what its statements
/// declare, one after the other, and then, the enum types being known, every
/// reference to one of them told from a reference to a message.
pub open spec fn resolved(pairs: Seq<Node>) -> Result<SchemaView, ParserErrorView> {
    match definitions_from(SchemaView::empty(), pairs, 0) {
        Err(e) => Err(e),
        Ok(schema) => Ok(schema.refined()),
    }
}

/// After the closing pass no field refers by a message's type to the name of
/// an enum, wherever in the schema the enum was declared; a field that did
/// refers to the enum; and nothing else has changed.
pub proof fn lemma_refined(schema: SchemaView)
    ensures
        schema.refined().version == schema.version,
        schema.refined().imports == schema.imports,
        schema.refined().enum_types == schema.enum_types,
        schema.refined().message_types.len() == schema.message_types.len(),
        forall|i: int|
            0 <= i < schema.message_types.len() ==> {
                &&& (#[trigger] schema.refined().message_types[i]).identifier
                    == schema.message_types[i].identifier
                &&& schema.refined().message_types[i].fields.len()
                    == schema.message_types[i].fields.len()
            },
        forall|i: int, j: int|
            0 <= i < schema.message_types.len() && 0 <= j < schema.message_types[i].fields.len()
                ==> {
                let before = schema.message_types[i].fields[j];
                let after = #[trigger] schema.refined().message_types[i].fields[j];
                &&& after.qualifier == before.qualifier
                &&& after.identifier == before.identifier
                &&& after.ordinal == before.ordinal
                &&& match before.field_type.unresolved_name() {
                    Some(name) => if is_enum(schema.enum_types, name) {
                        after.field_type == FieldTypeView::EnumType(name)
                    } else {
                        after.field_type == before.field_type
                    },
                    None => after.field_type == before.field_type,
                }
                &&& match after.field_type.unresolved_name() {
                    Some(name) => !is_enum(schema.enum_types, name),
                    None => true,
                }
            },
        schema.wf() ==> schema.refined().wf(),
{
    let out = schema.refined();
    if schema.wf() {
        assert forall|i: int| 0 <= i < out.message_types.len() implies fields_ordered(
            (#[trigger] out.message_types[i]).fields,
        ) by {
            let before = schema.message_types[i].fields;
            let after = out.message_types[i].fields;
            assert(fields_ordered(before));
            assert forall|a: int, b: int| 0 <= a < b < after.len() implies (
            #[trigger] after[a]).ordinal.0 < (#[trigger] after[b]).ordinal.0 by {
                assert(before[a].ordinal.0 < before[b].ordinal.0);
            }
        }
    }
}

/// The schema that a schema text stands for. Messages and enums are held in
/// the order in which the text first names them, each name once.
#[derive(Debug, PartialEq, Eq)]
pub struct ProtoParser {
    pub version: Version,
    pub imports: Vec<String>,
    pub enum_types: Vec<EnumType>,
    pub message_types: Vec<MessageType>,
}

impl View for ProtoParser {
    type V = SchemaView;

    open spec fn view(&self) -> SchemaView {
        SchemaView {
            version: self.version,
            imports: strings_view(self.imports@),
            enum_types: enums_view(self.enum_types@),
            message_types: messages_view(self.message_types@),
        }
    }
}

/// Whether a step on a schema did what it was to do: where it fails, the
/// schema is as it was.
pub open spec fn applied(
    before: SchemaView,
    after: SchemaView,
    r: Result<(), ParserError>,
    s: Result<SchemaView, ParserErrorView>,
) -> bool {
    match s {
        Ok(schema) => r is Ok && after == schema,
        Err(e) => r is Err && r->Err_0@ == e && after == before,
    }
}

impl ProtoParser {
    /// Reads a bound from the text `s`; an error names the text `span`.
    pub fn usize_from_str(span: &Span, s: &str) -> (r: Result<usize, ParserError>)
        ensures
            returned(r, usize_of(span@, s@)),
    {
        match parse_number(s, usize::MAX as u64) {
            Ok(n) => Ok(n as usize),
            Err(kind) => Err(ParserError::ParseIntError(StaticSpan::of(span), kind)),
        }
    }

    /// Reads a field or variant number from the text of `span`.
    pub fn ordinal_from_span(span: &Span) -> (r: Result<u32, ParserError>)
        ensures
            returned(r, ordinal_of(span@)),
    {
        match parse_number(span.str.as_str(), u32::MAX as u64) {
            Ok(n) => Ok(n as u32),
            Err(kind) => Err(ParserError::ParseIntError(StaticSpan::of(span), kind)),
        }
    }

    /// The name that the text of `span` is.
    pub fn identifier_from_span(span: &Span) -> (r: String)
        ensures
            r@ == span@.text,
    {
        span.str.clone()
    }

    /// Checks that the rule `rule` matched the node `pair`.
    pub fn expect_rule<'p>(pair: &'p Pair, rule: Rule) -> (r: Result<&'p Pair, ParserError>)
        ensures
            found(r, rule_expected(pair@, rule)),
            r is Ok ==> *r->Ok_0 == *pair,
    {
        proof {
            pair.lemma_view();
        }
        if pair.rule == rule {
            return Ok(pair);
        }
        Err(ParserError::ExpectedRuleButGot(StaticSpan::of(&pair.span), rule, pair.rule))
    }

    /// Takes the node at the place `at` of `pairs` and checks that the rule
    /// `rule` matched it.
    pub fn expect_next_rule<'p>(span: &Span, pairs: &'p Vec<Pair>, at: usize, rule: Rule) -> (r:
        Result<&'p Pair, ParserError>)
        ensures
            found(r, next_rule_expected(span@, pairs_view(pairs@), at as int, rule)),
            r is Ok ==> at < pairs@.len() && *r->Ok_0 == pairs@[at as int],
    {
        proof {
            lemma_pairs_view(pairs@);
        }
        if at < pairs.len() {
            Self::expect_rule(&pairs[at], rule)
        } else {
            Err(ParserError::ExpectedRule(StaticSpan::of(span), rule))
        }
    }

    /// Takes the node at the place `at` of `pairs` and checks that one of the
    /// rules `first` and `second` matched it.
    pub fn expect_next_match<'p>(
        span: &Span,
        pairs: &'p Vec<Pair>,
        at: usize,
        first: Rule,
        second: Rule,
    ) -> (r: Result<&'p Pair, ParserError>)
        ensures
            found(r, next_match_expected(span@, pairs_view(pairs@), at as int, first, second)),
            r is Ok ==> at < pairs@.len() && *r->Ok_0 == pairs@[at as int],
    {
        proof {
            lemma_pairs_view(pairs@);
        }
        if at >= pairs.len() {
            return Err(ParserError::ExpectedNonempty(StaticSpan::of(span)));
        }
        let value = &pairs[at];
        proof {
            value.lemma_view();
        }
        if value.rule == first || value.rule == second {
            Ok(value)
        } else {
            Err(ParserError::ExpectedPredicateMatchButGot(StaticSpan::of(&value.span), value.rule))
        }
    }

    /// Reads an option `(nanopb).max_size=N` or `(nanopb).max_len=N`.
    pub fn parse_nanopb_option(option_statement: &Pair) -> (r: Result<FieldOption, ParserError>)
        ensures
            returned(r, nanopb_option_of(option_statement@)),
    {
        let option = Self::expect_rule(option_statement, Rule::nanopb_option)?;
        proof {
            option.lemma_view();
        }
        let variant = Self::expect_next_match(
            &option.span,
            &option.inner,
            0,
            Rule::max_size_option,
            Rule::max_len_option,
        )?;
        proof {
            variant.lemma_view();
        }
        let number_value = Self::expect_next_rule(&option.span, &option.inner, 1, Rule::number)?;
        let n = Self::usize_from_str(&variant.span, number_value.as_str())?;
        if variant.rule == Rule::max_size_option {
            Ok(FieldOption::MaxSize(n))
        } else {
            Ok(FieldOption::MaxLen(n))
        }
    }

    /// Reads an option `packed=true` or `packed=false`.
    pub fn parse_packed_option(option_statement: &Pair) -> (r: Result<FieldOption, ParserError>)
        ensures
            returned(r, packed_option_of(option_statement@)),
    {
        let option = Self::expect_rule(option_statement, Rule::packed_option)?;
        proof {
            option.lemma_view();
        }
        let packed_bool = Self::expect_next_rule(&option.span, &option.inner, 0, Rule::bool)?;
        proof {
            packed_bool.lemma_view();
        }
        if str_eq(packed_bool.as_str(), "true") {
            Ok(FieldOption::Packed(true))
        } else if str_eq(packed_bool.as_str(), "false") {
            Ok(FieldOption::Packed(false))
        } else {
            Err(
                ParserError::ExpectedButGot(
                    StaticSpan::of(&packed_bool.span),
                    String::from_str("bool"),
                    String::from_str(packed_bool.as_str()),
                ),
            )
        }
    }

    /// Reads a single option.
    pub fn parse_option(option_statement: &Pair) -> (r: Result<FieldOption, ParserError>)
        ensures
            returned(r, option_of(option_statement@)),
    {
        let option = Self::expect_rule(option_statement, Rule::option)?;
        proof {
            option.lemma_view();
        }
        let option_variant = Self::expect_next_match(
            &option.span,
            &option.inner,
            0,
            Rule::nanopb_option,
            Rule::packed_option,
        )?;
        proof {
            option_variant.lemma_view();
        }
        if option_variant.rule == Rule::nanopb_option {
            Self::parse_nanopb_option(option_variant)
        } else {
            Self::parse_packed_option(option_variant)
        }
    }

    /// Reads the options of a field, as in `[(nanopb).max_size=8,packed=true]`.
    pub fn parse_options(options_statement: &Pair) -> (r: Result<Vec<FieldOption>, ParserError>)
        ensures
            returned(r, options_of(options_statement@)),
    {
        let options = Self::expect_rule(options_statement, Rule::options)?;
        proof {
            options.lemma_view();
        }
        let mut out: Vec<FieldOption> = Vec::new();
        let mut i: usize = 0;
        while i < options.inner.len()
            invariant
                i <= options.inner@.len(),
                options_of(options_statement@) == options_from(options@.inner, i as int, out@),
            decreases options.inner@.len() - i,
        {
            proof {
                options.lemma_view();
            }
            let option = Self::parse_option(&options.inner[i])?;
            out.push(option);
            i += 1;
        }
        Ok(out)
    }

    /// Gathers the options of the field that the node `pair` writes.
    pub fn parse_field_options(pair: &Pair) -> (r: Result<FieldOptions, ParserError>)
        ensures
            match field_options_of(pair@) {
                Ok(options) => r is Ok && r->Ok_0 == options,
                Err(e) => r is Err && r->Err_0@ == e,
            },
    {
        let mut options = FieldOptions { max_size: None, max_len: None, packed: false };
        proof {
            pair.lemma_view();
        }
        if pair.inner.len() > 4 {
            assert(pair@.inner[4] == pair.inner@[4]@);
            let opts = Self::parse_options(&pair.inner[4])?;
            let mut i: usize = 0;
            proof {
                assert(opts@.take(0) =~= Seq::<FieldOption>::empty());
            }
            while i < opts.len()
                invariant
                    i <= opts@.len(),
                    options == FieldOptions::gathered(opts@.take(i as int)),
                decreases opts@.len() - i,
            {
                proof {
                    assert(opts@.take(i + 1).drop_last() =~= opts@.take(i as int));
                }
                options.apply(&opts[i]);
                i += 1;
            }
            proof {
                assert(opts@.take(i as int) =~= opts@);
            }
        }
        Ok(options)
    }

    /// Reads one field of a message.
    pub fn parse_message_field(value: &Pair) -> (r: Result<MessageField, ParserError>)
        ensures
            returned(r, message_field_of(value@)),
    {
        proof {
            value.lemma_view();
        }
        let qualifier = Self::expect_next_rule(&value.span, &value.inner, 0, Rule::qualifier)?;
        let field_type = Self::expect_next_rule(&value.span, &value.inner, 1, Rule::field_type)?;
        let identifier = Self::expect_next_rule(&value.span, &value.inner, 2, Rule::identifier)?;
        let field_number = Self::expect_next_rule(&value.span, &value.inner, 3, Rule::number)?;
        let options = Self::parse_field_options(value)?;
        proof {
            qualifier.lemma_view();
            field_type.lemma_view();
            identifier.lemma_view();
            field_number.lemma_view();
        }
        let field_identifier = Self::identifier_from_span(&identifier.span);
        let field_ordinal = Self::ordinal_from_span(&field_number.span)?;
        if options.max_len == Some(usize::MAX) {
            return Err(
                ParserError::ParseIntError(StaticSpan::of(&value.span), NumberError::PosOverflow),
            );
        }
        let keyword = qualifier.as_str();
        if !(str_eq(keyword, "optional") || str_eq(keyword, "required") || str_eq(
            keyword,
            "repeated",
        )) {
            return Err(
                ParserError::ExpectedButGot(
                    StaticSpan::of(&qualifier.span),
                    String::from_str("qualifier"),
                    String::from_str(keyword),
                ),
            );
        }
        Ok(
            MessageField {
                qualifier: FieldQualifier::from_str(keyword, &options),
                field_type: FieldType::from_str(field_type.as_str(), options.effective_bound()),
                identifier: field_identifier,
                ordinal: Field(field_ordinal),
            },
        )
    }

    /// Reads one variant of an enum.
    pub fn parse_enum_field(value: &Pair) -> (r: Result<(String, Ordinal), ParserError>)
        ensures
            match enum_field_of(value@) {
                Ok(pair) => r is Ok && r->Ok_0.0@ == pair.0 && r->Ok_0.1 == pair.1,
                Err(e) => r is Err && r->Err_0@ == e,
            },
    {
        proof {
            value.lemma_view();
        }
        let identifier = Self::expect_next_rule(&value.span, &value.inner, 0, Rule::identifier)?;
        let number = Self::expect_next_rule(&value.span, &value.inner, 1, Rule::number)?;
        proof {
            identifier.lemma_view();
            number.lemma_view();
        }
        let field_identifier = Self::identifier_from_span(&identifier.span);
        let field_ordinal = Self::ordinal_from_span(&number.span)?;
        Ok((field_identifier, field_ordinal))
    }

    /// Reads the message type that a message node writes.
    pub fn read_message(message_statement: &Pair) -> (r: Result<MessageType, ParserError>)
        ensures
            returned(r, message_of(message_statement@)),
            r is Ok ==> fields_ordered(r->Ok_0@.fields),
    {
        proof {
            message_statement.lemma_view();
        }
        if message_statement.inner.len() == 0 {
            return Err(
                ParserError::ExpectedButGot(
                    StaticSpan::of(&message_statement.span),
                    String::from_str("identifier"),
                    String::from_str("None"),
                ),
            );
        }
        proof {
            message_statement.inner@[0].lemma_view();
            assert(message_statement@.inner[0] == message_statement.inner@[0]@);
        }
        let identifier = Self::identifier_from_span(&message_statement.inner[0].span);
        let mut message_type = MessageType::new(identifier);
        let mut i: usize = 1;
        while i < message_statement.inner.len()
            invariant
                1 <= i <= message_statement.inner@.len(),
                message_type@.identifier == message_statement@.inner[0].span.text,
                fields_ordered(message_type@.fields),
                message_fields_from(message_statement@.inner, 1, Seq::empty())
                    == message_fields_from(message_statement@.inner,
                    i as int,
                    message_type@.fields,
                ),
            decreases message_statement.inner@.len() - i,
        {
            proof {
                message_statement.lemma_view();
            }
            let node = Self::expect_rule(&message_statement.inner[i], Rule::message_field)?;
            let value = Self::parse_message_field(node)?;
            message_type.insert(value);
            i += 1;
        }
        Ok(message_type)
    }

    /// Reads the enum type that an enum node writes.
    pub fn read_enum(enum_statement: &Pair) -> (r: Result<EnumType, ParserError>)
        ensures
            returned(r, enum_of(enum_statement@)),
            r is Ok ==> pairs_ordered(r->Ok_0@.pairs),
    {
        proof {
            enum_statement.lemma_view();
        }
        if enum_statement.inner.len() == 0 {
            return Err(
                ParserError::ExpectedButGot(
                    StaticSpan::of(&enum_statement.span),
                    String::from_str("identifier"),
                    String::from_str("None"),
                ),
            );
        }
        proof {
            enum_statement.inner@[0].lemma_view();
            assert(enum_statement@.inner[0] == enum_statement.inner@[0]@);
        }
        let identifier = Self::identifier_from_span(&enum_statement.inner[0].span);
        let mut enum_type = EnumType::new(identifier);
        let mut i: usize = 1;
        while i < enum_statement.inner.len()
            invariant
                1 <= i <= enum_statement.inner@.len(),
                enum_type@.identifier == enum_statement@.inner[0].span.text,
                pairs_ordered(enum_type@.pairs),
                enum_fields_from(enum_statement@.inner, 1, Seq::empty()) == enum_fields_from(enum_statement@.inner,
                    i as int,
                    enum_type@.pairs,
                ),
            decreases enum_statement.inner@.len() - i,
        {
            proof {
                enum_statement.lemma_view();
            }
            let node = Self::expect_rule(&enum_statement.inner[i], Rule::enum_field)?;
            let (name, ordinal) = Self::parse_enum_field(node)?;
            enum_type.insert(name, ordinal);
            i += 1;
        }
        Ok(enum_type)
    }

    /// The schema of an empty text.
    pub fn new() -> (r: Self)
        ensures
            r@ == SchemaView::empty(),
            r@.wf(),
    {
        let r = ProtoParser {
            version: Version::Unknown,
            imports: Vec::new(),
            enum_types: Vec::new(),
            message_types: Vec::new(),
        };
        assert(r@.imports =~= Seq::empty());
        assert(r@.enum_types =~= Seq::empty());
        assert(r@.message_types =~= Seq::empty());
        r
    }

    /// The text of `span` without the quotes around it.
    pub fn string_from_span(span: &Span) -> (r: String)
        requires
            span@.text.len() >= 2,
        ensures
            r@ == unquoted(span@.text),
    {
        let text = span.str.as_str();
        let len = text.unicode_len();
        String::from_str(text.substring_char(1, len - 1))
    }

    /// Puts `message_type` among the message types: in the place of the one
    /// that has its name, where there is one, and else at the end.
    pub fn put_message(&mut self, message_type: MessageType)
        ensures
            final(self)@ == (SchemaView {
                message_types: put_message(old(self)@.message_types, message_type@),
                ..old(self)@
            }),
            old(self)@.wf() && fields_ordered(message_type@.fields) ==> final(self)@.wf(),
    {
        let ghost before = self@.message_types;
        let mut i: usize = 0;
        while i < self.message_types.len() && !str_eq(
            self.message_types[i].identifier.as_str(),
            message_type.identifier.as_str(),
        )
            invariant
                i <= self.message_types@.len(),
                *self == *old(self),
                forall|j: int|
                    0 <= j < i ==> (#[trigger] self.message_types@[j]).identifier@
                        != message_type.identifier@,
            decreases self.message_types@.len() - i,
        {
            i += 1;
        }
        proof {
            assert forall|j: int| 0 <= j < i implies (#[trigger] before[j]).identifier
                != message_type@.identifier by {
                assert(before[j] == self.message_types@[j]@);
            }
            lemma_put_message_at(before, message_type@, i as int);
        }
        if i < self.message_types.len() {
            self.message_types[i] = message_type;
            assert(messages_view(self.message_types@) =~= before.update(i as int, message_type@));
        } else {
            self.message_types.push(message_type);
            assert(messages_view(self.message_types@) =~= before.push(message_type@));
        }
    }

    /// Puts `enum_type` among the enum types: in the place of the one that has
    /// its name, where there is one, and else at the end.
    pub fn put_enum(&mut self, enum_type: EnumType)
        ensures
            final(self)@ == (SchemaView {
                enum_types: put_enum(old(self)@.enum_types, enum_type@),
                ..old(self)@
            }),
            old(self)@.wf() && pairs_ordered(enum_type@.pairs) ==> final(self)@.wf(),
    {
        let ghost before = self@.enum_types;
        let mut i: usize = 0;
        while i < self.enum_types.len() && !str_eq(
            self.enum_types[i].identifier.as_str(),
            enum_type.identifier.as_str(),
        )
            invariant
                i <= self.enum_types@.len(),
                *self == *old(self),
                forall|j: int|
                    0 <= j < i ==> (#[trigger] self.enum_types@[j]).identifier@
                        != enum_type.identifier@,
            decreases self.enum_types@.len() - i,
        {
            i += 1;
        }
        proof {
            assert forall|j: int| 0 <= j < i implies (#[trigger] before[j]).identifier
                != enum_type@.identifier by {
                assert(before[j] == self.enum_types@[j]@);
            }
            lemma_put_enum_at(before, enum_type@, i as int);
        }
        if i < self.enum_types.len() {
            self.enum_types[i] = enum_type;
            assert(enums_view(self.enum_types@) =~= before.update(i as int, enum_type@));
        } else {
            self.enum_types.push(enum_type);
            assert(enums_view(self.enum_types@) =~= before.push(enum_type@));
        }
    }

    /// Takes the definition of a message into the schema.
    pub fn parse_message_definition(&mut self, message_statement: &Pair) -> (r: Result<
        (),
        ParserError,
    >)
        ensures
            applied(
                old(self)@,
                final(self)@,
                r,
                message_definition_on(old(self)@, message_statement@),
            ),
            old(self)@.wf() ==> final(self)@.wf(),
    {
        let message_type = Self::read_message(message_statement)?;
        self.put_message(message_type);
        Ok(())
    }

    /// Takes the definition of an enum into the schema.
    pub fn parse_enum_definition(&mut self, enum_statement: &Pair) -> (r: Result<(), ParserError>)
        ensures
            applied(old(self)@, final(self)@, r, enum_definition_on(old(self)@, enum_statement@)),
            old(self)@.wf() ==> final(self)@.wf(),
    {
        let enum_type = Self::read_enum(enum_statement)?;
        self.put_enum(enum_type);
        Ok(())
    }

    /// Takes a block into the schema: the definition of a message or of an enum.
    pub fn parse_block_statement(&mut self, statement: &Pair) -> (r: Result<(), ParserError>)
        ensures
            applied(old(self)@, final(self)@, r, block_statement_on(old(self)@, statement@)),
            old(self)@.wf() ==> final(self)@.wf(),
    {
        let block_statement = Self::expect_rule(statement, Rule::block_statement)?;
        proof {
            block_statement.lemma_view();
        }
        let next = Self::expect_next_match(
            &block_statement.span,
            &block_statement.inner,
            0,
            Rule::message_definition,
            Rule::enum_definition,
        )?;
        if next.rule == Rule::message_definition {
            self.parse_message_definition(next)
        } else {
            self.parse_enum_definition(next)
        }
    }

    /// Takes an import into the schema. The path is recorded, not followed.
    pub fn parse_import_statement(&mut self, statement: &Pair) -> (r: Result<(), ParserError>)
        ensures
            applied(old(self)@, final(self)@, r, import_on(old(self)@, statement@)),
            old(self)@.wf() ==> final(self)@.wf(),
    {
        proof {
            statement.lemma_view();
        }
        if statement.inner.len() > 0 {
            let value = &statement.inner[0];
            proof {
                value.lemma_view();
            }
            if value.as_str().unicode_len() <= 2 {
                return Err(ParserError::ImportMustBeNonEmpty(StaticSpan::of(&statement.span)));
            }
            let ghost before = self@.imports;
            let path = Self::string_from_span(&value.span);
            self.imports.push(path);
            assert(strings_view(self.imports@) =~= before.push(unquoted(value@.span.text)));
        }
        Ok(())
    }

    /// Takes the version declaration into the schema.
    pub fn parse_version_decl(&mut self, statement: &Pair) -> (r: Result<(), ParserError>)
        ensures
            applied(old(self)@, final(self)@, r, version_on(old(self)@, statement@)),
            old(self)@.wf() ==> final(self)@.wf(),
    {
        proof {
            statement.lemma_view();
        }
        if statement.inner.len() > 0 {
            let value = &statement.inner[0];
            proof {
                value.lemma_view();
            }
            if value.as_str().unicode_len() >= 2 {
                let version = Self::string_from_span(&value.span);
                if str_eq(version.as_str(), "proto2") {
                    self.version = Version::Proto2;
                    return Ok(());
                }
            }
            return Err(ParserError::InvalidProtoVersion(StaticSpan::of(&statement.span)));
        }
        Err(ParserError::InvalidVersionDeclaration(StaticSpan::of(&statement.span)))
    }

    /// Takes a statement into the schema: a block or an import.
    pub fn parse_statement(&mut self, statement: &Pair) -> (r: Result<(), ParserError>)
        ensures
            applied(old(self)@, final(self)@, r, statement_on(old(self)@, statement@)),
            old(self)@.wf() ==> final(self)@.wf(),
    {
        let inner = Self::expect_rule(statement, Rule::statement)?;
        proof {
            inner.lemma_view();
        }
        let statement_variant = Self::expect_next_match(
            &statement.span,
            &inner.inner,
            0,
            Rule::block_statement,
            Rule::import_statement,
        )?;
        if statement_variant.rule == Rule::block_statement {
            self.parse_block_statement(statement_variant)
        } else {
            self.parse_import_statement(statement_variant)
        }
    }

    /// Takes the statements of a whole schema text into the schema.
    pub fn parse_definition(self, definition: &Pair) -> (r: Result<ProtoParser, ParserError>)
        ensures
            returned(r, statements_from(self@, definition@.span, definition@.inner, 0)),
            self@.wf() && r is Ok ==> r->Ok_0@.wf(),
    {
        let mut output = self;
        let mut i: usize = 0;
        proof {
            definition.lemma_view();
        }
        while i < definition.inner.len()
            invariant
                i <= definition.inner@.len(),
                self@.wf() ==> output@.wf(),
                statements_from(self@, definition@.span, definition@.inner, 0) == statements_from(output@, definition@.span, definition@.inner, i as int),
            decreases definition.inner@.len() - i,
        {
            let p = &definition.inner[i];
            proof {
                definition.lemma_view();
                p.lemma_view();
            }
            if p.rule == Rule::statement {
                output.parse_statement(p)?;
            } else if p.rule == Rule::version_decl {
                output.parse_version_decl(p)?;
            } else if p.rule == Rule::EOI {
                return Ok(output);
            } else {
                return Err(
                    ParserError::ExpectedButGot(
                        StaticSpan::of(&definition.span),
                        String::from_str("Statement or version decl"),
                        String::from_str(p.as_str()),
                    ),
                );
            }
            i += 1;
        }
        Ok(output)
    }

    /// Whether `name` is the name of one of the enum types.
    pub fn has_enum(&self, name: &str) -> (r: bool)
        ensures
            r == is_enum(self@.enum_types, name@),
    {
        let mut i: usize = 0;
        while i < self.enum_types.len()
            invariant
                i <= self.enum_types@.len(),
                forall|j: int|
                    0 <= j < i ==> (#[trigger] self@.enum_types[j]).identifier != name@,
            decreases self.enum_types@.len() - i,
        {
            if str_eq(self.enum_types[i].identifier.as_str(), name) {
                assert(self@.enum_types[i as int].identifier == name@);
                return true;
            }
            i += 1;
        }
        false
    }

    /// Whether `name` is the name of one of the message types.
    pub fn has_message(&self, name: &str) -> (r: bool)
        ensures
            r == is_message(self@.message_types, name@),
    {
        let mut i: usize = 0;
        while i < self.message_types.len()
            invariant
                i <= self.message_types@.len(),
                forall|j: int|
                    0 <= j < i ==> (#[trigger] self@.message_types[j]).identifier != name@,
            decreases self.message_types@.len() - i,
        {
            if str_eq(self.message_types[i].identifier.as_str(), name) {
                assert(self@.message_types[i as int].identifier == name@);
                return true;
            }
            i += 1;
        }
        false
    }

    /// The field `field` once the enum types are known.
    fn refine_field(&self, field: &MessageField) -> (r: MessageField)
        ensures
            r@ == refined_field(field@, self@.enum_types),
    {
        let field_type = match &field.field_type {
            FieldType::MessageType(identifier, limit) => {
                if self.has_enum(identifier.as_str()) {
                    FieldType::EnumType(identifier.clone())
                } else {
                    field.field_type.duplicate()
                }
            },
            FieldType::UnboundedMessageType(identifier) => {
                if self.has_enum(identifier.as_str()) {
                    FieldType::EnumType(identifier.clone())
                } else {
                    field.field_type.duplicate()
                }
            },
            _ => field.field_type.duplicate(),
        };
        MessageField {
            qualifier: field.qualifier,
            field_type,
            identifier: field.identifier.clone(),
            ordinal: field.ordinal,
        }
    }

    /// The message type `message` once the enum types are known.
    fn refine_message(&self, message: &MessageType) -> (r: MessageType)
        ensures
            r@ == refined_message(message@, self@.enum_types),
    {
        let mut fields: Vec<MessageField> = Vec::new();
        let mut i: usize = 0;
        while i < message.fields.len()
            invariant
                i <= message.fields@.len(),
                fields@.len() == i,
                forall|j: int|
                    0 <= j < i ==> (#[trigger] fields@[j])@ == refined_field(
                        message.fields@[j]@,
                        self@.enum_types,
                    ),
            decreases message.fields@.len() - i,
        {
            fields.push(self.refine_field(&message.fields[i]));
            i += 1;
        }
        let r = MessageType { identifier: message.identifier.clone(), fields };
        assert(r@.fields =~= refined_message(message@, self@.enum_types).fields);
        r
    }

    /// The closing pass: once the whole text is read and the enum types are
    /// known, every field whose type name is the name of an enum is made to
    /// refer to that enum.
    pub fn resolve_enum_references(self) -> (r: ProtoParser)
        ensures
            r@ == self@.refined(),
            self@.wf() ==> r@.wf(),
    {
        let mut message_types: Vec<MessageType> = Vec::new();
        let mut i: usize = 0;
        while i < self.message_types.len()
            invariant
                i <= self.message_types@.len(),
                message_types@.len() == i,
                forall|j: int|
                    0 <= j < i ==> (#[trigger] message_types@[j])@ == refined_message(
                        self.message_types@[j]@,
                        self@.enum_types,
                    ),
            decreases self.message_types@.len() - i,
        {
            let refined = self.refine_message(&self.message_types[i]);
            message_types.push(refined);
            i += 1;
        }
        let r = ProtoParser {
            version: self.version,
            imports: self.imports,
            enum_types: self.enum_types,
            message_types,
        };
        proof {
            assert(r@.message_types =~= self@.refined().message_types);
            lemma_refined(self@);
        }
        r
    }

    /// Builds the schema that a parse tree stands for.
    pub fn parse_pairs(pairs: &Vec<Pair>) -> (r: Result<ProtoParser, ParserError>)
        ensures
            returned(r, resolved(pairs_view(pairs@))),
            r is Ok ==> r->Ok_0@.wf(),
    {
        let mut output = ProtoParser::new();
        let mut i: usize = 0;
        while i < pairs.len()
            invariant
                i <= pairs@.len(),
                output@.wf(),
                definitions_from(SchemaView::empty(), pairs_view(pairs@), 0) == definitions_from(output@, pairs_view(pairs@), i as int),
            decreases pairs@.len() - i,
        {
            proof {
                lemma_pairs_view(pairs@);
            }
            let definition = Self::expect_rule(&pairs[i], Rule::proto_definition)?;
            output = output.parse_definition(definition)?;
            i += 1;
        }
        proof {
            lemma_pairs_view(pairs@);
        }
        Ok(output.resolve_enum_references())
    }
}

/// Whether no field of the fields refers to an enum.
pub open spec fn no_enum_fields(fields: Seq<MessageFieldView>) -> bool {
    forall|j: int| 0 <= j < fields.len() ==> !((#[trigger] fields[j]).field_type is EnumType)
}

/// Whether no field of any of the messages refers to an enum.
pub open spec fn no_enum_references(messages: Seq<MessageTypeView>) -> bool {
    forall|i: int| 0 <= i < messages.len() ==> no_enum_fields((#[trigger] messages[i]).fields)
}

/// A field that is put among fields that refer to no enum, and refers to
/// none, leaves fields that refer to none.
pub proof fn lemma_put_field_plain(fields: Seq<MessageFieldView>, field: MessageFieldView)
    requires
        no_enum_fields(fields),
        !(field.field_type is EnumType),
    ensures
        no_enum_fields(put_field(fields, field)),
    decreases fields.len(),
{
    let out = put_field(fields, field);
    if fields.len() == 0 {
    } else if fields[0].ordinal.0 < field.ordinal.0 {
        let rest = fields.drop_first();
        assert forall|j: int| 0 <= j < rest.len() implies !((#[trigger] rest[j]).field_type
            is EnumType) by {
            assert(rest[j] == fields[j + 1]);
        }
        lemma_put_field_plain(rest, field);
        let tail = put_field(rest, field);
        assert forall|j: int| 0 <= j < out.len() implies !((#[trigger] out[j]).field_type
            is EnumType) by {
            if j == 0 {
                assert(out[0] == fields[0]);
            } else {
                assert(out[j] == tail[j - 1]);
            }
        }
    } else if fields[0].ordinal.0 == field.ordinal.0 {
        assert forall|j: int| 0 <= j < out.len() implies !((#[trigger] out[j]).field_type
            is EnumType) by {
            if j > 0 {
                assert(out[j] == fields[j]);
            }
        }
    } else {
        assert forall|j: int| 0 <= j < out.len() implies !((#[trigger] out[j]).field_type
            is EnumType) by {
            if j > 0 {
                assert(out[j] == fields[j - 1]);
            }
        }
    }
}

/// The fields that field nodes write refer to no enum: whether a name is
/// that of an enum is not known while the text is read.
pub proof fn lemma_message_fields_plain(pairs: Seq<Node>, at: int, acc: Seq<MessageFieldView>)
    requires
        no_enum_fields(acc),
        message_fields_from(pairs, at, acc) is Ok,
    ensures
        no_enum_fields(message_fields_from(pairs, at, acc)->Ok_0),
    decreases pairs.len() - at,
{
    if 0 <= at < pairs.len() {
        let field = message_field_of(pairs[at])->Ok_0;
        assert(!(field.field_type is EnumType));
        lemma_put_field_plain(acc, field);
        lemma_message_fields_plain(pairs, at + 1, put_field(acc, field));
    }
}

/// A message that is put among messages that refer to no enum, and refers
/// to none, leaves messages that refer to none.
pub proof fn lemma_put_message_plain(messages: Seq<MessageTypeView>, message: MessageTypeView)
    requires
        no_enum_references(messages),
        no_enum_fields(message.fields),
    ensures
        no_enum_references(put_message(messages, message)),
    decreases messages.len(),
{
    let out = put_message(messages, message);
    if messages.len() == 0 {
    } else if messages[0].identifier == message.identifier {
        assert forall|i: int| 0 <= i < out.len() implies no_enum_fields(
            (#[trigger] out[i]).fields,
        ) by {
            if i > 0 {
                assert(out[i] == messages[i]);
            }
        }
    } else {
        let rest = messages.drop_first();
        assert forall|i: int| 0 <= i < rest.len() implies no_enum_fields(
            (#[trigger] rest[i]).fields,
        ) by {
            assert(rest[i] == messages[i + 1]);
        }
        lemma_put_message_plain(rest, message);
        let tail = put_message(rest, message);
        assert forall|i: int| 0 <= i < out.len() implies no_enum_fields(
            (#[trigger] out[i]).fields,
        ) by {
            if i == 0 {
                assert(out[0] == messages[0]);
            } else {
                assert(out[i] == tail[i - 1]);
            }
        }
    }
}

/// A statement leaves a schema whose messages refer to no enum as such a one.
pub proof fn lemma_statement_plain(schema: SchemaView, pair: Node)
    requires
        no_enum_references(schema.message_types),
        statement_on(schema, pair) is Ok,
    ensures
        no_enum_references(statement_on(schema, pair)->Ok_0.message_types),
{
    let variant = next_match_expected(
        pair.span,
        pair.inner,
        0,
        Rule::block_statement,
        Rule::import_statement,
    )->Ok_0;
    if variant.rule == Rule::block_statement {
        let next = next_match_expected(
            variant.span,
            variant.inner,
            0,
            Rule::message_definition,
            Rule::enum_definition,
        )->Ok_0;
        if next.rule == Rule::message_definition {
            let message = message_of(next)->Ok_0;
            lemma_message_fields_plain(next.inner, 1, Seq::empty());
            lemma_put_message_plain(schema.message_types, message);
        }
    }
}

/// The statements of a text leave a schema whose messages refer to no enum
/// as such a one.
pub proof fn lemma_statements_plain(schema: SchemaView, span: SpanView, pairs: Seq<Node>, at: int)
    requires
        no_enum_references(schema.message_types),
        statements_from(schema, span, pairs, at) is Ok,
    ensures
        no_enum_references(statements_from(schema, span, pairs, at)->Ok_0.message_types),
    decreases pairs.len() - at,
{
    if 0 <= at < pairs.len() {
        if pairs[at].rule == Rule::statement {
            lemma_statement_plain(schema, pairs[at]);
            lemma_statements_plain(statement_on(schema, pairs[at])->Ok_0, span, pairs, at + 1);
        } else if pairs[at].rule == Rule::version_decl {
            lemma_statements_plain(version_on(schema, pairs[at])->Ok_0, span, pairs, at + 1);
        }
    }
}

/// The texts of a parse tree leave a schema whose messages refer to no enum
/// as such a one.
pub proof fn lemma_definitions_plain(schema: SchemaView, pairs: Seq<Node>, at: int)
    requires
        no_enum_references(schema.message_types),
        definitions_from(schema, pairs, at) is Ok,
    ensures
        no_enum_references(definitions_from(schema, pairs, at)->Ok_0.message_types),
    decreases pairs.len() - at,
{
    if 0 <= at < pairs.len() {
        let definition = pairs[at];
        lemma_statements_plain(schema, definition.span, definition.inner, 0);
        lemma_definitions_plain(
            statements_from(schema, definition.span, definition.inner, 0)->Ok_0,
            pairs,
            at + 1,
        );
    }
}

/// In the schema that a parse tree resolves to, a field refers to an enum
/// only where the schema declares an enum of that name, and a field that
/// still names a type by a message's type names no enum of the schema.
pub proof fn lemma_resolved_references(pairs: Seq<Node>, i: int, j: int)
    requires
        resolved(pairs) is Ok,
        0 <= i < resolved(pairs)->Ok_0.message_types.len(),
        0 <= j < resolved(pairs)->Ok_0.message_types[i].fields.len(),
    ensures
        ({
            let schema = resolved(pairs)->Ok_0;
            let field_type = schema.message_types[i].fields[j].field_type;
            &&& forall|name: Seq<char>|
                field_type == FieldTypeView::EnumType(name) ==> is_enum(schema.enum_types, name)
            &&& field_type.unresolved_name() is Some ==> !is_enum(
                schema.enum_types,
                field_type.unresolved_name()->0,
            )
        }),
{
    let read = definitions_from(SchemaView::empty(), pairs, 0)->Ok_0;
    lemma_definitions_plain(SchemaView::empty(), pairs, 0);
    lemma_refined(read);
    assert(no_enum_fields(read.message_types[i].fields));
    let before = read.message_types[i].fields[j];
    assert(!(before.field_type is EnumType));
    let after = read.refined().message_types[i].fields[j];
    assert(after == resolved(pairs)->Ok_0.message_types[i].fields[j]);
}

/// The schema that the text `input` stands for: that of its parse tree, where
/// the text follows the grammar of a schema.
pub open spec fn parsed(input: Seq<char>) -> Result<SchemaView, ParserErrorView> {
    match parse_tree(Rule::proto_definition, vstd::utf8::encode_utf8(input)) {
        Err(e) => Err(e),
        Ok(nodes) => resolved(nodes),
    }
}

/// Reads a schema from its text.
pub fn parse(input: &str) -> (r: Result<ProtoParser, ParserError>)
    ensures
        returned(r, parsed(input@)),
        r is Ok ==> r->Ok_0@.wf(),
{
    let pairs = PicoPBParser::parse(Rule::proto_definition, input)?;
    ProtoParser::parse_pairs(&pairs)
}

} // verus!
