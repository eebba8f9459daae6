//! The language of the `#[rule(..)]` attribute.
//!
//! `a -> b` is a sequence, `a | b` an alternative, `a & b` a conjunction, `!a` a negation; they
//! bind in this order, the sequence most loosely. A base is a matcher such as
//! `starts_with("42")`, perhaps with methods behind it, or a group in parentheses.
//!
//! A rule is read from tokens. Arguments that are Rust expressions, types, closures or paths are
//! kept as they are written; what `syn` can read a group as is found out when the group is made,
//! and stands in it. `syn` and the readers here descend into groups by recursion, so that the
//! stack bounds how deep a rule may be nested.

use crate::text::after_first;
use crate::text::first_index;
use crate::text::occurs;
use crate::text::same_text;
use crate::text::texts;
use vstd::prelude::*;
use vstd::string::StringExecFns;

verus! {

/// A token of the source of a rule.
#[derive(Debug)]
pub enum Token {
    /// An identifier that is no keyword.
    Ident(String),
    /// The value of a string literal, and a literal that has it.
    Text { value: String, literal: String },
    /// A punctuation character, and whether another one follows without a space.
    Punct { ch: char, joint: bool },
    /// A group in round brackets.
    Paren(Group),
    /// A group in curly brackets.
    Brace(Group),
    /// Any other token, as it is written.
    Other(String),
}

/// What `syn` can read the source of a group as, to its end.
#[derive(Clone, Copy, Debug, PartialEq, Eq, Structural)]
pub struct Readings {
    /// An expression.
    pub expr: bool,
    /// A type.
    pub ty: bool,
    /// A closure.
    pub closure: bool,
    /// Expressions between commas.
    pub args: bool,
    /// A path, behind the first `=`.
    pub path: bool,
}

/// The inside of a group: as it is written, as tokens, and what `syn` can read it as.
#[derive(Debug)]
pub struct Group {
    pub source: String,
    pub tokens: Vec<Token>,
    pub reads: Readings,
}

pub enum TokenView {
    Ident(Seq<char>),
    Text { value: Seq<char>, literal: Seq<char> },
    Punct { ch: char, joint: bool },
    Paren { source: Seq<char>, tokens: Seq<TokenView>, reads: Readings },
    Brace { source: Seq<char>, tokens: Seq<TokenView>, reads: Readings },
    Other(Seq<char>),
}

pub open spec fn tokens_view(tokens: Seq<Token>) -> Seq<TokenView>
    decreases tokens,
{
    if tokens.len() == 0 {
        Seq::empty()
    } else {
        seq![tokens[0].view()] + tokens_view(tokens.drop_first())
    }
}

impl Token {
    pub open spec fn view(&self) -> TokenView
        decreases self,
    {
        match self {
            Token::Ident(s) => TokenView::Ident(s@),
            Token::Text { value, literal } => TokenView::Text { value: value@, literal: literal@ },
            Token::Punct { ch, joint } => TokenView::Punct { ch: *ch, joint: *joint },
            Token::Paren(g) => TokenView::Paren {
                source: g.source@,
                tokens: g.tokens_view(),
                reads: g.reads,
            },
            Token::Brace(g) => TokenView::Brace {
                source: g.source@,
                tokens: g.tokens_view(),
                reads: g.reads,
            },
            Token::Other(s) => TokenView::Other(s@),
        }
    }
}

impl Group {
    pub open spec fn tokens_view(&self) -> Seq<TokenView>
        decreases self,
    {
        tokens_view(self.tokens@)
    }
}

proof fn lemma_tokens_view(tokens: Seq<Token>)
    ensures
        tokens_view(tokens).len() == tokens.len(),
        forall|i: int|
            0 <= i < tokens.len() ==> #[trigger] tokens_view(tokens)[i] == tokens[i].view(),
    decreases tokens.len(),
{
    if tokens.len() > 0 {
        let rest = tokens.drop_first();
        lemma_tokens_view(rest);
        assert forall|i: int| 0 <= i < tokens.len() implies #[trigger] tokens_view(tokens)[i]
            == tokens[i].view() by {
            if i > 0 {
                assert(tokens_view(tokens)[i] == tokens_view(rest)[i - 1]);
                assert(rest[i - 1] == tokens[i]);
            }
        }
    }
}

/// An argument of a text matcher: an identifier, or a string with a literal that has it.
#[derive(Debug)]
pub enum IdentOrString {
    Ident(String),
    String { value: String, literal: String },
}

pub enum IdentOrStringView {
    Ident(Seq<char>),
    String { value: Seq<char>, literal: Seq<char> },
}

impl View for IdentOrString {
    type V = IdentOrStringView;

    open spec fn view(&self) -> IdentOrStringView {
        match self {
            IdentOrString::Ident(s) => IdentOrStringView::Ident(s@),
            IdentOrString::String { value, literal } => IdentOrStringView::String {
                value: value@,
                literal: literal@,
            },
        }
    }
}

/// A matcher. Rust expressions, types and closures are kept as they are written.
#[derive(Debug)]
pub enum MatcherCall {
    Any,
    Never,
    Exact(IdentOrString),
    StartsWith(IdentOrString),
    EndsWith(IdentOrString),
    Contains(IdentOrString),
    Regex(IdentOrString),
    BinaryExact(String),
    BinaryStartsWith(String),
    BinaryEndsWith(String),
    BinaryContains(String),
    MessageType(String),
    JsonSchema(String),
    Custom(String),
}

pub enum MatcherCallView {
    Any,
    Never,
    Exact(IdentOrStringView),
    StartsWith(IdentOrStringView),
    EndsWith(IdentOrStringView),
    Contains(IdentOrStringView),
    Regex(IdentOrStringView),
    BinaryExact(Seq<char>),
    BinaryStartsWith(Seq<char>),
    BinaryEndsWith(Seq<char>),
    BinaryContains(Seq<char>),
    MessageType(Seq<char>),
    JsonSchema(Seq<char>),
    Custom(Seq<char>),
}

impl View for MatcherCall {
    type V = MatcherCallView;

    open spec fn view(&self) -> MatcherCallView {
        match self {
            MatcherCall::Any => MatcherCallView::Any,
            MatcherCall::Never => MatcherCallView::Never,
            MatcherCall::Exact(s) => MatcherCallView::Exact(s@),
            MatcherCall::StartsWith(s) => MatcherCallView::StartsWith(s@),
            MatcherCall::EndsWith(s) => MatcherCallView::EndsWith(s@),
            MatcherCall::Contains(s) => MatcherCallView::Contains(s@),
            MatcherCall::Regex(s) => MatcherCallView::Regex(s@),
            MatcherCall::BinaryExact(e) => MatcherCallView::BinaryExact(e@),
            MatcherCall::BinaryStartsWith(e) => MatcherCallView::BinaryStartsWith(e@),
            MatcherCall::BinaryEndsWith(e) => MatcherCallView::BinaryEndsWith(e@),
            MatcherCall::BinaryContains(e) => MatcherCallView::BinaryContains(e@),
            MatcherCall::MessageType(t) => MatcherCallView::MessageType(t@),
            MatcherCall::JsonSchema(t) => MatcherCallView::JsonSchema(t@),
            MatcherCall::Custom(c) => MatcherCallView::Custom(c@),
        }
    }
}

/// A method behind a matcher. The arguments are kept as they are written, each with a comma
/// behind it.
#[derive(Debug)]
pub struct ChainedMethod {
    pub ident: String,
    pub args: String,
}

pub struct ChainedMethodView {
    pub ident: Seq<char>,
    pub args: Seq<char>,
}

impl View for ChainedMethod {
    type V = ChainedMethodView;

    open spec fn view(&self) -> ChainedMethodView {
        ChainedMethodView { ident: self.ident@, args: self.args@ }
    }
}

/// A matcher and the methods behind it.
#[derive(Debug)]
pub struct MethodChain {
    pub base: MatcherCall,
    pub methods: Vec<ChainedMethod>,
}

pub open spec fn methods_view(methods: Seq<ChainedMethod>) -> Seq<ChainedMethodView> {
    methods.map_values(|m: ChainedMethod| m@)
}

/// A rule expression.
#[derive(Debug)]
pub enum DslNode {
    Then(Box<DslNode>, Box<DslNode>),
    Or(Vec<DslNode>),
    And(Vec<DslNode>),
    Not(Box<DslNode>),
    MethodChain(MethodChain),
}

pub enum DslView {
    Then(Box<DslView>, Box<DslView>),
    Or(Seq<DslView>),
    And(Seq<DslView>),
    Not(Box<DslView>),
    MethodChain { base: MatcherCallView, methods: Seq<ChainedMethodView> },
}

pub open spec fn nodes_view(nodes: Seq<DslNode>) -> Seq<DslView>
    decreases nodes,
{
    if nodes.len() == 0 {
        Seq::empty()
    } else {
        nodes_view(nodes.drop_last()).push(nodes.last().view())
    }
}

impl DslNode {
    pub open spec fn view(&self) -> DslView
        decreases self,
    {
        match self {
            DslNode::Then(a, b) => DslView::Then(Box::new(a.view()), Box::new(b.view())),
            DslNode::Or(nodes) => DslView::Or(nodes_view(nodes@)),
            DslNode::And(nodes) => DslView::And(nodes_view(nodes@)),
            DslNode::Not(a) => DslView::Not(Box::new(a.view())),
            DslNode::MethodChain(chain) => DslView::MethodChain {
                base: chain.base@,
                methods: methods_view(chain.methods@),
            },
        }
    }
}

/// Why a rule cannot be read.
#[derive(Debug)]
pub enum DslError {
    /// The language of rules says so.
    Rule(String),
    /// `syn` says so, or a token is left over.
    Syntax,
}

pub enum DslErrorView {
    Rule(Seq<char>),
    Syntax,
}

impl View for DslError {
    type V = DslErrorView;

    open spec fn view(&self) -> DslErrorView {
        match self {
            DslError::Rule(e) => DslErrorView::Rule(e@),
            DslError::Syntax => DslErrorView::Syntax,
        }
    }
}

/// What was read, where reading goes on, and whether every group on the way was read to its end.
pub struct Read<T> {
    pub node: T,
    pub pos: int,
    pub clean: bool,
}

/// Whether a text is a name of upper-case letters from A to Z. No keyword is.
pub open spec fn is_upper_name(text: Seq<char>) -> bool {
    text.len() > 0 && forall|i: int| 0 <= i < text.len() ==> 'A' <= #[trigger] text[i] <= 'Z'
}

/// Whether a text is made of the digits from 0 to 9.
pub open spec fn are_digits(text: Seq<char>) -> bool {
    text.len() > 0 && forall|i: int| 0 <= i < text.len() ==> '0' <= #[trigger] text[i] <= '9'
}

/// Whether a text is a closure without parameters whose body is a name in capitals: `||NAME`.
pub open spec fn is_plain_closure(text: Seq<char>) -> bool {
    text.len() > 2 && text[0] == '|' && text[1] == '|' && is_upper_name(text.skip(2))
}

/// Whether a text is a name in capitals with another one in angle brackets: `NAME<OTHER>`.
pub open spec fn is_plain_generic(text: Seq<char>) -> bool {
    exists|k: int|
        0 < k < text.len() - 1 && #[trigger] text[k] == '<' && text.last() == '>' && is_upper_name(
            text.take(k),
        ) && is_upper_name(text.subrange(k + 1, text.len() - 1))
}

/// Whether a text stands in a string literal as it is: printable characters of ASCII, without
/// quotes and backslashes.
pub open spec fn needs_no_escape(text: Seq<char>) -> bool {
    forall|i: int|
        0 <= i < text.len() ==> ' ' <= #[trigger] text[i] <= '~' && text[i] != '"' && text[i] != '\''
            && text[i] != '\\'
}

/// Whether `syn::parse_str` reads the source as an `Expr`: a name in capitals, digits and a plain
/// closure are expressions; an empty source and a name with another one in angle brackets are
/// none. Nothing else is stated: within a procedural macro it is the compiler that takes the
/// source apart.
#[verifier::external_body]
fn reads_expr(source: &str) -> (r: bool)
    ensures
        source@.len() == 0 || is_plain_generic(source@) ==> !r,
        is_upper_name(source@) || are_digits(source@) || is_plain_closure(source@) ==> r,
{
    zyn::syn::parse_str::<zyn::syn::Expr>(source).is_ok()
}

/// Whether `syn::parse_str` reads the source as a `Type`: a name in capitals is one, with and
/// without another one in angle brackets; an empty source, digits and a plain closure are none.
/// Nothing else is stated: within a procedural macro it is the compiler that takes the source
/// apart.
#[verifier::external_body]
fn reads_type(source: &str) -> (r: bool)
    ensures
        source@.len() == 0 || are_digits(source@) || is_plain_closure(source@) ==> !r,
        is_upper_name(source@) || is_plain_generic(source@) ==> r,
{
    zyn::syn::parse_str::<zyn::syn::Type>(source).is_ok()
}

/// Whether `syn::parse_str` reads the source as an `ExprClosure`: a plain closure is one; an empty
/// source, digits and a name in capitals, with and without another one in angle brackets, are
/// none. Nothing else is stated: within a procedural macro it is the compiler that takes the
/// source apart.
#[verifier::external_body]
fn reads_closure(source: &str) -> (r: bool)
    ensures
        source@.len() == 0 || are_digits(source@) || is_upper_name(source@) || is_plain_generic(
            source@,
        ) ==> !r,
        is_plain_closure(source@) ==> r,
{
    zyn::syn::parse_str::<zyn::syn::ExprClosure>(source).is_ok()
}

/// Whether `syn::parse_str` reads the source as an `ExprPath`: a name in capitals is one, also
/// behind a space; an empty source, digits, a plain closure and a name with another one in angle
/// brackets are none. Nothing else is stated: within a procedural macro it is the compiler that
/// takes the source apart.
#[verifier::external_body]
fn reads_path(source: &str) -> (r: bool)
    ensures
        source@.len() == 0 || are_digits(source@) || is_plain_closure(source@) || is_plain_generic(
            source@,
        ) ==> !r,
        is_upper_name(source@) || (source@.len() > 0 && source@[0] == ' ' && is_upper_name(
            source@.skip(1),
        )) ==> r,
{
    zyn::syn::parse_str::<zyn::syn::ExprPath>(source).is_ok()
}

/// Whether `syn`'s `Punctuated::parse_terminated` reads the source as expressions and commas: an
/// empty source, a name in capitals, digits and a plain closure are such lists; a name with
/// another one in angle brackets is none. Nothing else is stated: within a procedural macro it is
/// the compiler that takes the source apart.
#[verifier::external_body]
fn reads_args(source: &str) -> (r: bool)
    ensures
        is_plain_generic(source@) ==> !r,
        source@.len() == 0 || is_upper_name(source@) || are_digits(source@) || is_plain_closure(
            source@,
        ) ==> r,
{
    let parse = zyn::syn::punctuated::Punctuated::<
        zyn::syn::Expr,
        zyn::syn::token::Comma,
    >::parse_terminated;
    zyn::syn::parse::Parser::parse_str(parse, source).is_ok()
}

/// `proc_macro2::Literal::string`, written out: a text that needs no escape stands in quotes as it
/// is. How another text is spelt is not stated: within a procedural macro that is left to the
/// compiler.
#[verifier::external_body]
fn literal_of(text: &str) -> (r: String)
    ensures
        needs_no_escape(text@) ==> r@ == seq!['"'] + text@ + seq!['"'],
{
    zyn::proc_macro2::Literal::string(text).to_string()
}

/// Whether readings are possible ones of a source, as far as its form is plain.
pub open spec fn possible_readings(source: Seq<char>, reads: Readings) -> bool {
    &&& source.len() == 0 ==> !reads.expr && !reads.ty && !reads.closure && reads.args
    &&& is_upper_name(source) ==> reads.expr && reads.ty && !reads.closure && reads.args
    &&& are_digits(source) ==> reads.expr && !reads.ty && !reads.closure && reads.args
    &&& is_plain_closure(source) ==> reads.expr && !reads.ty && reads.closure && reads.args
    &&& is_plain_generic(source) ==> !reads.expr && reads.ty && !reads.closure && !reads.args
    &&& !occurs(source, "="@) ==> !reads.path
    &&& occurs(source, "="@) ==> possible_path(behind_equals(source), reads.path)
}

/// Whether a source may be read as a path or not, as far as its form is plain.
pub open spec fn possible_path(source: Seq<char>, reads: bool) -> bool {
    &&& source.len() == 0 || are_digits(source) || is_plain_closure(source) || is_plain_generic(
        source,
    ) ==> !reads
    &&& is_upper_name(source) || (source.len() > 0 && source[0] == ' ' && is_upper_name(
        source.skip(1),
    )) ==> reads
}

/// What stands behind the first `=` of a source that has one.
pub open spec fn behind_equals(source: Seq<char>) -> Seq<char> {
    source.skip(first_index(source, "="@) + "="@.len())
}

impl Token {
    /// The token of a string literal with a value.
    pub fn text(value: String) -> (r: Token)
        ensures
            r matches Token::Text { value: v, literal } && v@ == value@ && (needs_no_escape(value@)
                ==> literal@ == seq!['"'] + value@ + seq!['"']),
    {
        let literal = literal_of(value.as_str());
        Token::Text { value, literal }
    }
}

impl Group {
    /// The inside of a group, with what `syn` can read it as.
    pub fn new(source: String, tokens: Vec<Token>) -> (r: Group)
        ensures
            r.source@ == source@,
            r.tokens@ == tokens@,
            possible_readings(source@, r.reads),
    {
        let text = source.as_str();
        let path = match after_first(text, "=") {
            Some(p) => reads_path(p),
            None => false,
        };
        let reads = Readings {
            expr: reads_expr(text),
            ty: reads_type(text),
            closure: reads_closure(text),
            args: reads_args(text),
            path,
        };
        Group { source, tokens, reads }
    }
}

pub open spec fn is_ident_at(tokens: Seq<TokenView>, pos: int) -> bool {
    0 <= pos < tokens.len() && tokens[pos] is Ident
}

pub open spec fn is_punct_at(tokens: Seq<TokenView>, pos: int, ch: char) -> bool {
    0 <= pos < tokens.len() && (tokens[pos] matches TokenView::Punct { ch: c, .. } && c == ch)
}

/// Whether `->` stands at a place.
pub open spec fn is_arrow_at(tokens: Seq<TokenView>, pos: int) -> bool {
    &&& 0 <= pos < tokens.len()
    &&& tokens[pos] == TokenView::Punct { ch: '-', joint: true }
    &&& is_punct_at(tokens, pos + 1, '>')
}

pub open spec fn is_paren_at(tokens: Seq<TokenView>, pos: int) -> bool {
    0 <= pos < tokens.len() && tokens[pos] is Paren
}

/// The argument of a text matcher: an identifier or a string, and whether nothing follows it.
pub open spec fn read_ident_or_string(tokens: Seq<TokenView>) -> Result<
    (IdentOrStringView, bool),
    DslErrorView,
> {
    if tokens.len() > 0 && tokens[0] is Ident {
        Ok((IdentOrStringView::Ident(tokens[0]->Ident_0), tokens.len() == 1))
    } else if tokens.len() > 0 && tokens[0] is Text {
        Ok(
            (
                IdentOrStringView::String {
                    value: tokens[0]->Text_value,
                    literal: tokens[0]->Text_literal,
                },
                tokens.len() == 1,
            ),
        )
    } else {
        Err(DslErrorView::Rule("Expected either an identifier or a string literal"@))
    }
}

/// A matcher of the given kind on a text argument.
pub open spec fn text_call(
    tokens: Seq<TokenView>,
    make: spec_fn(IdentOrStringView) -> MatcherCallView,
) -> Result<(MatcherCallView, bool), DslErrorView> {
    match read_ident_or_string(tokens) {
        Ok((s, clean)) => Ok((make(s), clean)),
        Err(e) => Err(e),
    }
}

/// The matcher of a name on an argument in Rust, as it is written, if `syn` can read it.
pub open spec fn source_matcher(name: Seq<char>, source: Seq<char>, readable: bool) -> Result<
    (MatcherCallView, bool),
    DslErrorView,
> {
    if readable {
        Ok(
            (
                if name == "binary_exact"@ {
                    MatcherCallView::BinaryExact(source)
                } else if name == "binary_starts_with"@ {
                    MatcherCallView::BinaryStartsWith(source)
                } else if name == "binary_ends_with"@ {
                    MatcherCallView::BinaryEndsWith(source)
                } else if name == "binary_contains"@ {
                    MatcherCallView::BinaryContains(source)
                } else if name == "json_schema"@ {
                    MatcherCallView::JsonSchema(source)
                } else {
                    MatcherCallView::Custom(source)
                },
                true,
            ),
        )
    } else {
        Err(DslErrorView::Syntax)
    }
}

/// A matcher without arguments.
pub open spec fn bare_call(tokens: Seq<TokenView>, call: MatcherCallView, name: Seq<char>) -> Result<
    (MatcherCallView, bool),
    DslErrorView,
> {
    if tokens.len() == 0 {
        Ok((call, true))
    } else {
        Err(DslErrorView::Rule("Matcher '"@ + name + "' does not take any arguments"@))
    }
}

/// The matcher of a name on the inside of a group, and whether the group was read to its end.
pub open spec fn matcher_of(
    name: Seq<char>,
    source: Seq<char>,
    tokens: Seq<TokenView>,
    reads: Readings,
) -> Result<(MatcherCallView, bool), DslErrorView> {
    if name == "any"@ {
        bare_call(tokens, MatcherCallView::Any, name)
    } else if name == "never"@ {
        bare_call(tokens, MatcherCallView::Never, name)
    } else if name == "exact"@ {
        text_call(tokens, |s: IdentOrStringView| MatcherCallView::Exact(s))
    } else if name == "starts_with"@ {
        text_call(tokens, |s: IdentOrStringView| MatcherCallView::StartsWith(s))
    } else if name == "ends_with"@ {
        text_call(tokens, |s: IdentOrStringView| MatcherCallView::EndsWith(s))
    } else if name == "contains"@ {
        text_call(tokens, |s: IdentOrStringView| MatcherCallView::Contains(s))
    } else if name == "regex"@ {
        text_call(tokens, |s: IdentOrStringView| MatcherCallView::Regex(s))
    } else if name == "binary_exact"@ || name == "binary_starts_with"@ || name
        == "binary_ends_with"@ || name == "binary_contains"@ {
        source_matcher(name, source, reads.expr)
    } else if name == "message_type"@ {
        if tokens.len() > 0 && tokens[0] is Ident {
            Ok((MatcherCallView::MessageType(tokens[0]->Ident_0), tokens.len() == 1))
        } else {
            Err(DslErrorView::Syntax)
        }
    } else if name == "json_schema"@ {
        source_matcher(name, source, reads.ty)
    } else if name == "custom"@ {
        source_matcher(name, source, reads.closure)
    } else {
        Err(DslErrorView::Rule("Unknown matcher '"@ + name + "'"@))
    }
}

/// The matcher at a place: a name and a group.
pub open spec fn matcher_at(tokens: Seq<TokenView>, pos: int) -> Result<
    Read<MatcherCallView>,
    DslErrorView,
> {
    if !is_ident_at(tokens, pos) {
        Err(DslErrorView::Rule("Expected an ident for matcher!"@))
    } else if !is_paren_at(tokens, pos + 1) {
        Err(
            DslErrorView::Rule(
                "Expected parenthesis after matcher '"@ + tokens[pos]->Ident_0 + "'"@,
            ),
        )
    } else {
        match matcher_of(
            tokens[pos]->Ident_0,
            tokens[pos + 1]->Paren_source,
            tokens[pos + 1]->Paren_tokens,
            tokens[pos + 1]->Paren_reads,
        ) {
            Ok((node, clean)) => Ok(Read { node, pos: pos + 2, clean }),
            Err(e) => Err(e),
        }
    }
}

/// Arguments as they are written, with a comma behind the last.
pub open spec fn written_args(source: Seq<char>, tokens: Seq<TokenView>) -> Seq<char> {
    if tokens.len() == 0 || is_punct_at(tokens, tokens.len() - 1, ',') {
        source
    } else {
        source + ","@
    }
}

/// The method at a place: a name and a group of arguments. Arguments that `syn` cannot read to
/// their end are left over.
pub open spec fn method_at(tokens: Seq<TokenView>, pos: int) -> Result<
    Read<ChainedMethodView>,
    DslErrorView,
> {
    if !is_ident_at(tokens, pos) {
        Err(DslErrorView::Rule("Expected ident!"@))
    } else if !is_paren_at(tokens, pos + 1) {
        Err(
            DslErrorView::Rule(
                "Expected parenthesis after ident '"@ + tokens[pos]->Ident_0 + "'"@,
            ),
        )
    } else {
        Ok(
            Read {
                node: ChainedMethodView {
                    ident: tokens[pos]->Ident_0,
                    args: written_args(
                        tokens[pos + 1]->Paren_source,
                        tokens[pos + 1]->Paren_tokens,
                    ),
                },
                pos: pos + 2,
                clean: tokens[pos + 1]->Paren_reads.args,
            },
        )
    }
}

/// The methods from a place on, each behind a dot.
pub open spec fn methods_at(
    tokens: Seq<TokenView>,
    methods: Seq<ChainedMethodView>,
    pos: int,
    clean: bool,
) -> Result<Read<Seq<ChainedMethodView>>, DslErrorView>
    decreases tokens.len() - pos,
{
    if is_punct_at(tokens, pos, '.') {
        match method_at(tokens, pos + 1) {
            Ok(m) => methods_at(tokens, methods.push(m.node), pos + 3, clean && m.clean),
            Err(e) => Err(e),
        }
    } else {
        Ok(Read { node: methods, pos, clean })
    }
}

/// The matcher at a place with the methods behind it.
pub open spec fn chain_at(tokens: Seq<TokenView>, pos: int) -> Result<Read<DslView>, DslErrorView> {
    match matcher_at(tokens, pos) {
        Ok(base) => match methods_at(tokens, Seq::empty(), base.pos, base.clean) {
            Ok(methods) => Ok(
                Read {
                    node: DslView::MethodChain { base: base.node, methods: methods.node },
                    pos: methods.pos,
                    clean: methods.clean,
                },
            ),
            Err(e) => Err(e),
        },
        Err(e) => Err(e),
    }
}

/// The inside of a group as an expression, and whether it was read to its end.
pub open spec fn group_of(token: TokenView) -> Result<(DslView, bool), DslErrorView>
    decreases token, 0int, 0int,
{
    match token {
        TokenView::Paren { tokens, .. } => match sequence_at(tokens, 0) {
            Ok(r) => Ok((r.node, r.clean && r.pos == tokens.len())),
            Err(e) => Err(e),
        },
        _ => Err(DslErrorView::Syntax),
    }
}

/// The group or the matcher at a place.
pub open spec fn base_at(tokens: Seq<TokenView>, pos: int) -> Result<Read<DslView>, DslErrorView>
    decreases tokens, tokens.len() - pos, 1int,
{
    if is_paren_at(tokens, pos) {
        match group_of(tokens[pos]) {
            Ok((node, clean)) => Ok(Read { node, pos: pos + 1, clean }),
            Err(e) => Err(e),
        }
    } else {
        chain_at(tokens, pos)
    }
}

/// The negation or the base at a place.
pub open spec fn negation_at(tokens: Seq<TokenView>, pos: int) -> Result<Read<DslView>, DslErrorView>
    decreases tokens, tokens.len() - pos, 2int,
{
    if is_punct_at(tokens, pos, '!') {
        match base_at(tokens, pos + 1) {
            Ok(r) => Ok(Read { node: DslView::Not(Box::new(r.node)), pos: r.pos, clean: r.clean }),
            Err(e) => Err(e),
        }
    } else {
        base_at(tokens, pos)
    }
}

/// The operands from a place on, each behind `&`, together with those before it.
pub open spec fn conjuncts_at(
    tokens: Seq<TokenView>,
    nodes: Seq<DslView>,
    pos: int,
    clean: bool,
) -> Result<Read<Seq<DslView>>, DslErrorView>
    decreases tokens, tokens.len() - pos, 3int,
{
    if is_punct_at(tokens, pos, '&') {
        match negation_at(tokens, pos + 1) {
            Ok(r) => if pos < r.pos <= tokens.len() {
                conjuncts_at(tokens, nodes.push(r.node), r.pos, clean && r.clean)
            } else {
                Err(DslErrorView::Syntax)
            },
            Err(e) => Err(e),
        }
    } else {
        Ok(Read { node: nodes, pos, clean })
    }
}

/// The conjunction at a place. A single operand stands for itself.
pub open spec fn conjunction_at(tokens: Seq<TokenView>, pos: int) -> Result<
    Read<DslView>,
    DslErrorView,
>
    decreases tokens, tokens.len() - pos, 4int,
{
    match negation_at(tokens, pos) {
        Ok(first) => if pos < first.pos <= tokens.len() {
            match conjuncts_at(tokens, seq![first.node], first.pos, first.clean) {
                Ok(r) => Ok(
                    Read {
                        node: if r.node.len() == 1 {
                            r.node[0]
                        } else {
                            DslView::And(r.node)
                        },
                        pos: r.pos,
                        clean: r.clean,
                    },
                ),
                Err(e) => Err(e),
            }
        } else {
            Err(DslErrorView::Syntax)
        },
        Err(e) => Err(e),
    }
}

/// The operands from a place on, each behind `|`, together with those before it.
pub open spec fn alternatives_at(
    tokens: Seq<TokenView>,
    nodes: Seq<DslView>,
    pos: int,
    clean: bool,
) -> Result<Read<Seq<DslView>>, DslErrorView>
    decreases tokens, tokens.len() - pos, 5int,
{
    if is_punct_at(tokens, pos, '|') {
        match conjunction_at(tokens, pos + 1) {
            Ok(r) => if pos < r.pos <= tokens.len() {
                alternatives_at(tokens, nodes.push(r.node), r.pos, clean && r.clean)
            } else {
                Err(DslErrorView::Syntax)
            },
            Err(e) => Err(e),
        }
    } else {
        Ok(Read { node: nodes, pos, clean })
    }
}

/// The alternative at a place. A single operand stands for itself.
pub open spec fn alternative_at(tokens: Seq<TokenView>, pos: int) -> Result<
    Read<DslView>,
    DslErrorView,
>
    decreases tokens, tokens.len() - pos, 6int,
{
    match conjunction_at(tokens, pos) {
        Ok(first) => if pos < first.pos <= tokens.len() {
            match alternatives_at(tokens, seq![first.node], first.pos, first.clean) {
                Ok(r) => Ok(
                    Read {
                        node: if r.node.len() == 1 {
                            r.node[0]
                        } else {
                            DslView::Or(r.node)
                        },
                        pos: r.pos,
                        clean: r.clean,
                    },
                ),
                Err(e) => Err(e),
            }
        } else {
            Err(DslErrorView::Syntax)
        },
        Err(e) => Err(e),
    }
}

/// The steps from a place on, each behind `->`, together with what stands before it: the
/// sequence binds to the left.
pub open spec fn steps_at(
    tokens: Seq<TokenView>,
    node: DslView,
    pos: int,
    clean: bool,
) -> Result<Read<DslView>, DslErrorView>
    decreases tokens, tokens.len() - pos, 7int,
{
    if is_arrow_at(tokens, pos) {
        match alternative_at(tokens, pos + 2) {
            Ok(r) => if pos < r.pos <= tokens.len() {
                steps_at(
                    tokens,
                    DslView::Then(Box::new(node), Box::new(r.node)),
                    r.pos,
                    clean && r.clean,
                )
            } else {
                Err(DslErrorView::Syntax)
            },
            Err(e) => Err(e),
        }
    } else {
        Ok(Read { node, pos, clean })
    }
}

/// The sequence at a place.
pub open spec fn sequence_at(tokens: Seq<TokenView>, pos: int) -> Result<Read<DslView>, DslErrorView>
    decreases tokens, tokens.len() - pos, 8int,
{
    match alternative_at(tokens, pos) {
        Ok(first) => if pos < first.pos <= tokens.len() {
            steps_at(tokens, first.node, first.pos, first.clean)
        } else {
            Err(DslErrorView::Syntax)
        },
        Err(e) => Err(e),
    }
}

/// What was read, where reading goes on, and whether every group on the way was read to its end.
#[derive(Debug)]
pub struct ReadAt<T> {
    pub node: T,
    pub pos: usize,
    pub clean: bool,
}

pub open spec fn node_read(
    r: Result<ReadAt<DslNode>, DslError>,
    wanted: Result<Read<DslView>, DslErrorView>,
    len: nat,
) -> bool {
    match (r, wanted) {
        (Ok(a), Ok(b)) => a.node.view() == b.node && a.pos == b.pos && a.clean == b.clean && a.pos
            <= len,
        (Err(a), Err(b)) => a@ == b,
        _ => false,
    }
}

fn quoted_error(before: &str, name: &str, after: &str) -> (r: DslError)
    ensures
        r@ == DslErrorView::Rule(before@ + name@ + after@),
{
    let mut text = before.to_owned();
    text.append(name);
    text.append(after);
    DslError::Rule(text)
}

fn punct_at(tokens: &Vec<Token>, pos: usize, ch: char) -> (r: bool)
    ensures
        r == is_punct_at(tokens_view(tokens@), pos as int, ch),
{
    proof {
        lemma_tokens_view(tokens@);
    }
    if pos >= tokens.len() {
        return false;
    }
    match &tokens[pos] {
        Token::Punct { ch: c, .. } => *c == ch,
        _ => false,
    }
}

fn arrow_at(tokens: &Vec<Token>, pos: usize) -> (r: bool)
    ensures
        r == is_arrow_at(tokens_view(tokens@), pos as int),
{
    proof {
        lemma_tokens_view(tokens@);
    }
    if pos >= tokens.len() {
        return false;
    }
    match &tokens[pos] {
        Token::Punct { ch, joint } => *ch == '-' && *joint && punct_at(tokens, pos + 1, '>'),
        _ => false,
    }
}

impl IdentOrString {
    /// Reads an argument, and whether nothing follows it.
    fn parse(tokens: &Vec<Token>) -> (r: Result<(IdentOrString, bool), DslError>)
        ensures
            match (r, read_ident_or_string(tokens_view(tokens@))) {
                (Ok(a), Ok(b)) => a.0@ == b.0 && a.1 == b.1,
                (Err(a), Err(b)) => a@ == b,
                _ => false,
            },
    {
        proof {
            lemma_tokens_view(tokens@);
        }
        if tokens.len() > 0 {
            match &tokens[0] {
                Token::Ident(s) => {
                    return Ok((IdentOrString::Ident(s.clone()), tokens.len() == 1));
                },
                Token::Text { value, literal } => {
                    let arg = IdentOrString::String {
                        value: value.clone(),
                        literal: literal.clone(),
                    };
                    return Ok((arg, tokens.len() == 1));
                },
                _ => {},
            }
        }
        Err(DslError::Rule("Expected either an identifier or a string literal".to_owned()))
    }
}

pub open spec fn call_read(
    r: Result<(MatcherCall, bool), DslError>,
    wanted: Result<(MatcherCallView, bool), DslErrorView>,
) -> bool {
    match (r, wanted) {
        (Ok(a), Ok(b)) => a.0@ == b.0 && a.1 == b.1,
        (Err(a), Err(b)) => a@ == b,
        _ => false,
    }
}

impl MatcherCall {
    /// The matcher of a name on an argument in Rust, as it is written, if `syn` can read it.
    pub fn of_reading(name: &str, source: &str, readable: bool) -> (r: Result<
        (MatcherCall, bool),
        DslError,
    >)
        requires
            name@ == "binary_exact"@ || name@ == "binary_starts_with"@ || name@
                == "binary_ends_with"@ || name@ == "binary_contains"@ || name@ == "json_schema"@
                || name@ == "custom"@,
        ensures
            call_read(r, source_matcher(name@, source@, readable)),
    {
        if !readable {
            return Err(DslError::Syntax);
        }
        let text = source.to_owned();
        let call = if same_text(name, "binary_exact") {
            MatcherCall::BinaryExact(text)
        } else if same_text(name, "binary_starts_with") {
            MatcherCall::BinaryStartsWith(text)
        } else if same_text(name, "binary_ends_with") {
            MatcherCall::BinaryEndsWith(text)
        } else if same_text(name, "binary_contains") {
            MatcherCall::BinaryContains(text)
        } else if same_text(name, "json_schema") {
            MatcherCall::JsonSchema(text)
        } else {
            MatcherCall::Custom(text)
        };
        Ok((call, true))
    }

    /// Reads the matcher of a name from the inside of its group.
    fn of_name(name: &str, group: &Group) -> (r: Result<(MatcherCall, bool), DslError>)
        ensures
            call_read(r, matcher_of(name@, group.source@, group.tokens_view(), group.reads)),
    {
        proof {
            lemma_tokens_view(group.tokens@);
        }
        let source = group.source.as_str();
        if same_text(name, "any") {
            return if group.tokens.len() == 0 {
                Ok((MatcherCall::Any, true))
            } else {
                Err(quoted_error("Matcher '", name, "' does not take any arguments"))
            };
        }
        if same_text(name, "never") {
            return if group.tokens.len() == 0 {
                Ok((MatcherCall::Never, true))
            } else {
                Err(quoted_error("Matcher '", name, "' does not take any arguments"))
            };
        }
        if same_text(name, "exact") {
            return match IdentOrString::parse(&group.tokens) {
                Ok((s, clean)) => Ok((MatcherCall::Exact(s), clean)),
                Err(e) => Err(e),
            };
        }
        if same_text(name, "starts_with") {
            return match IdentOrString::parse(&group.tokens) {
                Ok((s, clean)) => Ok((MatcherCall::StartsWith(s), clean)),
                Err(e) => Err(e),
            };
        }
        if same_text(name, "ends_with") {
            return match IdentOrString::parse(&group.tokens) {
                Ok((s, clean)) => Ok((MatcherCall::EndsWith(s), clean)),
                Err(e) => Err(e),
            };
        }
        if same_text(name, "contains") {
            return match IdentOrString::parse(&group.tokens) {
                Ok((s, clean)) => Ok((MatcherCall::Contains(s), clean)),
                Err(e) => Err(e),
            };
        }
        if same_text(name, "regex") {
            return match IdentOrString::parse(&group.tokens) {
                Ok((s, clean)) => Ok((MatcherCall::Regex(s), clean)),
                Err(e) => Err(e),
            };
        }
        if same_text(name, "binary_exact") || same_text(name, "binary_starts_with") || same_text(
            name,
            "binary_ends_with",
        ) || same_text(name, "binary_contains") {
            return MatcherCall::of_reading(name, source, group.reads.expr);
        }
        if same_text(name, "message_type") {
            if group.tokens.len() > 0 {
                if let Token::Ident(s) = &group.tokens[0] {
                    return Ok((MatcherCall::MessageType(s.clone()), group.tokens.len() == 1));
                }
            }
            return Err(DslError::Syntax);
        }
        if same_text(name, "json_schema") {
            return MatcherCall::of_reading(name, source, group.reads.ty);
        }
        if same_text(name, "custom") {
            return MatcherCall::of_reading(name, source, group.reads.closure);
        }
        Err(quoted_error("Unknown matcher '", name, "'"))
    }

    /// Reads the matcher at a place.
    pub fn parse(tokens: &Vec<Token>, pos: usize) -> (r: Result<ReadAt<MatcherCall>, DslError>)
        requires
            pos <= tokens@.len(),
        ensures
            match (r, matcher_at(tokens_view(tokens@), pos as int)) {
                (Ok(a), Ok(b)) => a.node@ == b.node && a.pos == b.pos && a.clean == b.clean
                    && a.pos <= tokens@.len(),
                (Err(a), Err(b)) => a@ == b,
                _ => false,
            },
    {
        proof {
            lemma_tokens_view(tokens@);
        }
        if pos < tokens.len() {
            if let Token::Ident(name) = &tokens[pos] {
                if pos + 1 < tokens.len() {
                    if let Token::Paren(group) = &tokens[pos + 1] {
                        return match MatcherCall::of_name(name.as_str(), group) {
                            Ok((node, clean)) => Ok(ReadAt { node, pos: pos + 2, clean }),
                            Err(e) => Err(e),
                        };
                    }
                }
                return Err(quoted_error("Expected parenthesis after matcher '", name.as_str(), "'"));
            }
        }
        Err(DslError::Rule("Expected an ident for matcher!".to_owned()))
    }
}

impl ChainedMethod {
    /// Reads the method at a place.
    pub fn parse(tokens: &Vec<Token>, pos: usize) -> (r: Result<ReadAt<ChainedMethod>, DslError>)
        requires
            pos <= tokens@.len(),
        ensures
            match (r, method_at(tokens_view(tokens@), pos as int)) {
                (Ok(a), Ok(b)) => a.node@ == b.node && a.pos == b.pos && a.clean == b.clean
                    && a.pos <= tokens@.len(),
                (Err(a), Err(b)) => a@ == b,
                _ => false,
            },
    {
        proof {
            lemma_tokens_view(tokens@);
        }
        if pos < tokens.len() {
            if let Token::Ident(name) = &tokens[pos] {
                if pos + 1 < tokens.len() {
                    if let Token::Paren(group) = &tokens[pos + 1] {
                        proof {
                            lemma_tokens_view(group.tokens@);
                        }
                        let mut args = group.source.clone();
                        let count: usize = group.tokens.len();
                        if count > 0 && !punct_at(&group.tokens, count - 1, ',') {
                            args.append(",");
                        }
                        return Ok(
                            ReadAt {
                                node: ChainedMethod { ident: name.clone(), args },
                                pos: pos + 2,
                                clean: group.reads.args,
                            },
                        );
                    }
                }
                return Err(quoted_error("Expected parenthesis after ident '", name.as_str(), "'"));
            }
        }
        Err(DslError::Rule("Expected ident!".to_owned()))
    }
}

impl MethodChain {
    /// Reads the matcher at a place with the methods behind it.
    pub fn parse(tokens: &Vec<Token>, pos: usize) -> (r: Result<ReadAt<DslNode>, DslError>)
        requires
            pos <= tokens@.len(),
        ensures
            node_read(r, chain_at(tokens_view(tokens@), pos as int), tokens@.len()),
    {
        let ghost ts = tokens_view(tokens@);
        proof {
            lemma_tokens_view(tokens@);
        }
        let first = match MatcherCall::parse(tokens, pos) {
            Ok(first) => first,
            Err(e) => return Err(e),
        };
        let base = first.node;
        let mut at: usize = first.pos;
        let mut clean: bool = first.clean;
        let mut methods: Vec<ChainedMethod> = Vec::new();
        let len: usize = tokens.len();
        assert(methods_view(methods@) =~= Seq::<ChainedMethodView>::empty());
        while punct_at(tokens, at, '.')
            invariant
                at <= len == tokens@.len(),
                ts == tokens_view(tokens@),
                ts.len() == tokens@.len(),
                matcher_at(ts, pos as int) is Ok,
                base@ == matcher_at(ts, pos as int)->Ok_0.node,
                methods_at(
                    ts,
                    Seq::empty(),
                    matcher_at(ts, pos as int)->Ok_0.pos,
                    matcher_at(ts, pos as int)->Ok_0.clean,
                ) == methods_at(ts, methods_view(methods@), at as int, clean),
            decreases tokens@.len() - at,
        {
            let ghost before = methods@;
            match ChainedMethod::parse(tokens, at + 1) {
                Ok(m) => {
                    methods.push(m.node);
                    assert(methods_view(methods@) =~= methods_view(before).push(m.node@));
                    clean = clean && m.clean;
                    at = m.pos;
                },
                Err(e) => return Err(e),
            }
        }
        Ok(ReadAt { node: DslNode::MethodChain(MethodChain { base, methods }), pos: at, clean })
    }
}

proof fn lemma_nodes_push(nodes: Seq<DslNode>, node: DslNode)
    ensures
        nodes_view(nodes.push(node)) == nodes_view(nodes).push(node.view()),
{
    assert(nodes.push(node).drop_last() =~= nodes);
}

proof fn lemma_nodes_view(nodes: Seq<DslNode>)
    ensures
        nodes_view(nodes).len() == nodes.len(),
        forall|i: int| 0 <= i < nodes.len() ==> #[trigger] nodes_view(nodes)[i] == nodes[i].view(),
    decreases nodes.len(),
{
    if nodes.len() > 0 {
        lemma_nodes_view(nodes.drop_last());
        assert forall|i: int| 0 <= i < nodes.len() implies #[trigger] nodes_view(nodes)[i]
            == nodes[i].view() by {
            if i < nodes.len() - 1 {
                assert(nodes_view(nodes.drop_last())[i] == nodes.drop_last()[i].view());
            }
        }
    }
}

fn parse_group(token: &Token) -> (r: Result<(DslNode, bool), DslError>)
    ensures
        match (r, group_of(token.view())) {
            (Ok(a), Ok(b)) => a.0.view() == b.0 && a.1 == b.1,
            (Err(a), Err(b)) => a@ == b,
            _ => false,
        },
    decreases *token, 0int, 0int,
{
    match token {
        Token::Paren(group) => {
            proof {
                lemma_tokens_view(group.tokens@);
            }
            match DslNode::parse_then(&group.tokens, 0) {
                Ok(r) => {
                    let clean = r.clean && r.pos == group.tokens.len();
                    Ok((r.node, clean))
                },
                Err(e) => Err(e),
            }
        },
        _ => Err(DslError::Syntax),
    }
}

impl DslNode {
    /// Reads the group or the matcher at a place.
    pub fn parse_base(tokens: &Vec<Token>, pos: usize) -> (r: Result<ReadAt<DslNode>, DslError>)
        requires
            pos <= tokens@.len(),
        ensures
            node_read(r, base_at(tokens_view(tokens@), pos as int), tokens@.len()),
        decreases *tokens, tokens@.len() - pos, 1int,
    {
        proof {
            lemma_tokens_view(tokens@);
        }
        if pos < tokens.len() {
            if let Token::Paren(_) = &tokens[pos] {
                return match parse_group(&tokens[pos]) {
                    Ok((node, clean)) => Ok(ReadAt { node, pos: pos + 1, clean }),
                    Err(e) => Err(e),
                };
            }
        }
        MethodChain::parse(tokens, pos)
    }

    /// Reads the negation or the base at a place.
    pub fn parse_not(tokens: &Vec<Token>, pos: usize) -> (r: Result<ReadAt<DslNode>, DslError>)
        requires
            pos <= tokens@.len(),
        ensures
            node_read(r, negation_at(tokens_view(tokens@), pos as int), tokens@.len()),
        decreases *tokens, tokens@.len() - pos, 2int,
    {
        proof {
            lemma_tokens_view(tokens@);
        }
        let len: usize = tokens.len();
        if punct_at(tokens, pos, '!') {
            match DslNode::parse_base(tokens, pos + 1) {
                Ok(r) => Ok(
                    ReadAt { node: DslNode::Not(Box::new(r.node)), pos: r.pos, clean: r.clean },
                ),
                Err(e) => Err(e),
            }
        } else {
            DslNode::parse_base(tokens, pos)
        }
    }

    /// Reads the conjunction at a place.
    pub fn parse_and(tokens: &Vec<Token>, pos: usize) -> (r: Result<ReadAt<DslNode>, DslError>)
        requires
            pos <= tokens@.len(),
        ensures
            node_read(r, conjunction_at(tokens_view(tokens@), pos as int), tokens@.len()),
        decreases *tokens, tokens@.len() - pos, 4int,
    {
        let ghost ts = tokens_view(tokens@);
        proof {
            lemma_tokens_view(tokens@);
        }
        let len: usize = tokens.len();
        let first = match DslNode::parse_not(tokens, pos) {
            Ok(first) => first,
            Err(e) => return Err(e),
        };
        proof {
            lemma_progress(ts, pos as int);
        }
        let mut at: usize = first.pos;
        let mut clean: bool = first.clean;
        let mut nodes: Vec<DslNode> = Vec::new();
        nodes.push(first.node);
        proof {
            lemma_nodes_push(Seq::empty(), first.node);
            assert(nodes@ =~= Seq::<DslNode>::empty().push(first.node));
            assert(nodes_view(nodes@) =~= seq![first.node.view()]);
        }
        let ghost start = negation_at(ts, pos as int)->Ok_0;
        while punct_at(tokens, at, '&')
            invariant
                pos < at <= len == tokens@.len(),
                ts == tokens_view(tokens@),
                ts.len() == tokens@.len(),
                nodes@.len() > 0,
                conjuncts_at(ts, seq![start.node], start.pos, start.clean) == conjuncts_at(
                    ts,
                    nodes_view(nodes@),
                    at as int,
                    clean,
                ),
                negation_at(ts, pos as int) == Ok::<Read<DslView>, DslErrorView>(start),
                pos < start.pos <= ts.len(),
            decreases tokens@.len() - at,
        {
            let ghost before = nodes@;
            match DslNode::parse_not(tokens, at + 1) {
                Ok(r) => {
                    proof {
                        lemma_progress(ts, at + 1);
                        lemma_nodes_push(before, r.node);
                    }
                    nodes.push(r.node);
                    clean = clean && r.clean;
                    at = r.pos;
                },
                Err(e) => return Err(e),
            }
        }
        proof {
            lemma_nodes_view(nodes@);
        }
        let node = single_or(nodes, false);
        Ok(ReadAt { node, pos: at, clean })
    }

    /// Reads the alternative at a place.
    pub fn parse_or(tokens: &Vec<Token>, pos: usize) -> (r: Result<ReadAt<DslNode>, DslError>)
        requires
            pos <= tokens@.len(),
        ensures
            node_read(r, alternative_at(tokens_view(tokens@), pos as int), tokens@.len()),
        decreases *tokens, tokens@.len() - pos, 6int,
    {
        let ghost ts = tokens_view(tokens@);
        proof {
            lemma_tokens_view(tokens@);
        }
        let len: usize = tokens.len();
        let first = match DslNode::parse_and(tokens, pos) {
            Ok(first) => first,
            Err(e) => return Err(e),
        };
        proof {
            lemma_progress(ts, pos as int);
        }
        let mut at: usize = first.pos;
        let mut clean: bool = first.clean;
        let mut nodes: Vec<DslNode> = Vec::new();
        nodes.push(first.node);
        proof {
            lemma_nodes_push(Seq::empty(), first.node);
            assert(nodes@ =~= Seq::<DslNode>::empty().push(first.node));
            assert(nodes_view(nodes@) =~= seq![first.node.view()]);
        }
        let ghost start = conjunction_at(ts, pos as int)->Ok_0;
        while punct_at(tokens, at, '|')
            invariant
                pos < at <= len == tokens@.len(),
                ts == tokens_view(tokens@),
                ts.len() == tokens@.len(),
                nodes@.len() > 0,
                alternatives_at(ts, seq![start.node], start.pos, start.clean) == alternatives_at(
                    ts,
                    nodes_view(nodes@),
                    at as int,
                    clean,
                ),
                conjunction_at(ts, pos as int) == Ok::<Read<DslView>, DslErrorView>(start),
                pos < start.pos <= ts.len(),
            decreases tokens@.len() - at,
        {
            let ghost before = nodes@;
            match DslNode::parse_and(tokens, at + 1) {
                Ok(r) => {
                    proof {
                        lemma_progress(ts, at + 1);
                        lemma_nodes_push(before, r.node);
                    }
                    nodes.push(r.node);
                    clean = clean && r.clean;
                    at = r.pos;
                },
                Err(e) => return Err(e),
            }
        }
        proof {
            lemma_nodes_view(nodes@);
        }
        let node = single_or(nodes, true);
        Ok(ReadAt { node, pos: at, clean })
    }

    /// Reads the sequence at a place.
    pub fn parse_then(tokens: &Vec<Token>, pos: usize) -> (r: Result<ReadAt<DslNode>, DslError>)
        requires
            pos <= tokens@.len(),
        ensures
            node_read(r, sequence_at(tokens_view(tokens@), pos as int), tokens@.len()),
        decreases *tokens, tokens@.len() - pos, 8int,
    {
        let ghost ts = tokens_view(tokens@);
        proof {
            lemma_tokens_view(tokens@);
        }
        let len: usize = tokens.len();
        let first = match DslNode::parse_or(tokens, pos) {
            Ok(first) => first,
            Err(e) => return Err(e),
        };
        proof {
            lemma_progress(ts, pos as int);
        }
        let mut at: usize = first.pos;
        let mut clean: bool = first.clean;
        let mut node = first.node;
        let ghost start = alternative_at(ts, pos as int)->Ok_0;
        while arrow_at(tokens, at)
            invariant
                pos < at <= len == tokens@.len(),
                ts == tokens_view(tokens@),
                ts.len() == tokens@.len(),
                steps_at(ts, start.node, start.pos, start.clean) == steps_at(
                    ts,
                    node.view(),
                    at as int,
                    clean,
                ),
                alternative_at(ts, pos as int) == Ok::<Read<DslView>, DslErrorView>(start),
                pos < start.pos <= ts.len(),
            decreases tokens@.len() - at,
        {
            match DslNode::parse_or(tokens, at + 2) {
                Ok(r) => {
                    proof {
                        lemma_progress(ts, at + 2);
                    }
                    node = DslNode::Then(Box::new(node), Box::new(r.node));
                    clean = clean && r.clean;
                    at = r.pos;
                },
                Err(e) => return Err(e),
            }
        }
        Ok(ReadAt { node, pos: at, clean })
    }
}

/// A single operand, or all of them as an alternative or a conjunction.
fn single_or(nodes: Vec<DslNode>, alternative: bool) -> (r: DslNode)
    requires
        nodes@.len() > 0,
    ensures
        r.view() == if nodes@.len() == 1 {
            nodes_view(nodes@)[0]
        } else if alternative {
            DslView::Or(nodes_view(nodes@))
        } else {
            DslView::And(nodes_view(nodes@))
        },
{
    let mut nodes = nodes;
    if nodes.len() == 1 {
        proof {
            lemma_nodes_view(nodes@);
        }
        nodes.swap_remove(0)
    } else if alternative {
        DslNode::Or(nodes)
    } else {
        DslNode::And(nodes)
    }
}

/// Whatever is read at a place ends behind it, and not behind the last token.
pub proof fn lemma_progress(tokens: Seq<TokenView>, pos: int)
    requires
        0 <= pos <= tokens.len(),
    ensures
        negation_at(tokens, pos) matches Ok(r) ==> pos < r.pos <= tokens.len(),
        conjunction_at(tokens, pos) matches Ok(r) ==> pos < r.pos <= tokens.len(),
        alternative_at(tokens, pos) matches Ok(r) ==> pos < r.pos <= tokens.len(),
        sequence_at(tokens, pos) matches Ok(r) ==> pos < r.pos <= tokens.len(),
{
    lemma_base_progress(tokens, pos);
    if pos < tokens.len() {
        lemma_base_progress(tokens, pos + 1);
    }
    if let Ok(first) = negation_at(tokens, pos) {
        lemma_conjuncts_progress(tokens, seq![first.node], first.pos, first.clean);
    }
    if let Ok(first) = conjunction_at(tokens, pos) {
        lemma_alternatives_progress(tokens, seq![first.node], first.pos, first.clean);
    }
    if let Ok(first) = alternative_at(tokens, pos) {
        lemma_steps_progress(tokens, first.node, first.pos, first.clean);
    }
}

proof fn lemma_base_progress(tokens: Seq<TokenView>, pos: int)
    requires
        0 <= pos <= tokens.len(),
    ensures
        base_at(tokens, pos) matches Ok(r) ==> pos < r.pos <= tokens.len(),
{
    if let Ok(base) = matcher_at(tokens, pos) {
        lemma_methods_progress(tokens, Seq::empty(), base.pos, base.clean);
    }
}

proof fn lemma_methods_progress(
    tokens: Seq<TokenView>,
    methods: Seq<ChainedMethodView>,
    pos: int,
    clean: bool,
)
    requires
        0 <= pos <= tokens.len(),
    ensures
        methods_at(tokens, methods, pos, clean) matches Ok(r) ==> pos <= r.pos <= tokens.len(),
    decreases tokens.len() - pos,
{
    if is_punct_at(tokens, pos, '.') {
        if let Ok(m) = method_at(tokens, pos + 1) {
            lemma_methods_progress(tokens, methods.push(m.node), pos + 3, clean && m.clean);
        }
    }
}

proof fn lemma_conjuncts_progress(
    tokens: Seq<TokenView>,
    nodes: Seq<DslView>,
    pos: int,
    clean: bool,
)
    ensures
        conjuncts_at(tokens, nodes, pos, clean) matches Ok(r) ==> pos <= r.pos && (r.pos == pos
            || r.pos <= tokens.len()),
    decreases tokens.len() - pos,
{
    if is_punct_at(tokens, pos, '&') {
        if let Ok(r) = negation_at(tokens, pos + 1) {
            if pos < r.pos <= tokens.len() {
                lemma_conjuncts_progress(tokens, nodes.push(r.node), r.pos, clean && r.clean);
            }
        }
    }
}

proof fn lemma_alternatives_progress(
    tokens: Seq<TokenView>,
    nodes: Seq<DslView>,
    pos: int,
    clean: bool,
)
    ensures
        alternatives_at(tokens, nodes, pos, clean) matches Ok(r) ==> pos <= r.pos && (r.pos == pos
            || r.pos <= tokens.len()),
    decreases tokens.len() - pos,
{
    if is_punct_at(tokens, pos, '|') {
        if let Ok(r) = conjunction_at(tokens, pos + 1) {
            if pos < r.pos <= tokens.len() {
                lemma_alternatives_progress(tokens, nodes.push(r.node), r.pos, clean && r.clean);
            }
        }
    }
}

proof fn lemma_steps_progress(tokens: Seq<TokenView>, node: DslView, pos: int, clean: bool)
    ensures
        steps_at(tokens, node, pos, clean) matches Ok(r) ==> pos <= r.pos && (r.pos == pos || r.pos
            <= tokens.len()),
    decreases tokens.len() - pos,
{
    if is_arrow_at(tokens, pos) {
        if let Ok(r) = alternative_at(tokens, pos + 2) {
            if pos < r.pos <= tokens.len() {
                lemma_steps_progress(
                    tokens,
                    DslView::Then(Box::new(node), Box::new(r.node)),
                    r.pos,
                    clean && r.clean,
                );
            }
        }
    }
}

/// What the payload of a `#[rule(..)]` attribute is.
#[derive(Debug)]
pub enum RuleExpr {
    /// The name of a type: `rule(MyRule)`.
    Struct(String),
    /// The path of a function that makes a rule: `rule(fn = make_rule)`.
    FnRef(String),
    /// An expression in curly brackets.
    Dsl(DslNode),
}

pub enum RuleExprView {
    Struct(Seq<char>),
    FnRef(Seq<char>),
    Dsl(DslView),
}

impl RuleExpr {
    pub open spec fn view(&self) -> RuleExprView {
        match self {
            RuleExpr::Struct(s) => RuleExprView::Struct(s@),
            RuleExpr::FnRef(p) => RuleExprView::FnRef(p@),
            RuleExpr::Dsl(node) => RuleExprView::Dsl(node.view()),
        }
    }
}

/// The place of the first of some attributes whose path is `rule`.
pub open spec fn rule_attribute(paths: Seq<Seq<char>>) -> Option<int>
    decreases paths.len(),
{
    if paths.len() == 0 {
        None
    } else {
        match rule_attribute(paths.drop_last()) {
            Some(i) => Some(i),
            None => if paths.last() == "rule"@ {
                Some(paths.len() - 1)
            } else {
                None
            },
        }
    }
}

/// Finds the first of some attributes, given by their paths, that is `rule`.
pub fn find_rule_attribute(paths: &Vec<String>) -> (r: Result<usize, DslError>)
    ensures
        match (r, rule_attribute(texts(paths@))) {
            (Ok(i), Some(v)) => i == v && i < paths@.len(),
            (Err(e), None) => e@ == DslErrorView::Rule("missing #[rule(...)] attribute"@),
            _ => false,
        },
{
    let ghost all = texts(paths@);
    let mut i: usize = 0;
    assert(rule_attribute(all.take(0)) is None);
    while i < paths.len()
        invariant
            i <= paths@.len(),
            all == texts(paths@),
            rule_attribute(all.take(i as int)) is None,
        decreases paths@.len() - i,
    {
        proof {
            assert(all.take(i + 1).drop_last() =~= all.take(i as int));
            assert(all.take(i + 1).last() == paths@[i as int]@);
        }
        if same_text(paths[i].as_str(), "rule") {
            proof {
                lemma_rule_attribute(all, i as int);
            }
            return Ok(i);
        }
        i += 1;
    }
    assert(all.take(i as int) =~= all);
    Err(DslError::Rule("missing #[rule(...)] attribute".to_owned()))
}

/// What is found among the first attributes is found among all.
proof fn lemma_rule_attribute(paths: Seq<Seq<char>>, i: int)
    requires
        0 <= i < paths.len(),
        rule_attribute(paths.take(i + 1)) == Some(i),
    ensures
        rule_attribute(paths) == Some(i),
    decreases paths.len(),
{
    if i + 1 == paths.len() {
        assert(paths.take(i + 1) =~= paths);
    } else {
        assert(paths.drop_last().take(i + 1) =~= paths.take(i + 1));
        lemma_rule_attribute(paths.drop_last(), i);
    }
}

/// What a payload is. Nothing may be left over, neither in it nor in any of its groups.
pub open spec fn rule_expr_of(
    source: Seq<char>,
    tokens: Seq<TokenView>,
    reads: Readings,
) -> Result<RuleExprView, DslErrorView> {
    if is_ident_at(tokens, 0) {
        if tokens.len() == 1 {
            Ok(RuleExprView::Struct(tokens[0]->Ident_0))
        } else {
            Err(DslErrorView::Syntax)
        }
    } else if tokens.len() > 0 && tokens[0] == TokenView::Other("fn"@) {
        if is_punct_at(tokens, 1, '=') && occurs(source, "="@) {
            if reads.path {
                Ok(RuleExprView::FnRef(behind_equals(source)))
            } else {
                Err(DslErrorView::Syntax)
            }
        } else {
            Err(DslErrorView::Syntax)
        }
    } else if tokens.len() > 0 && tokens[0] is Brace {
        let inner = tokens[0]->Brace_tokens;
        match sequence_at(inner, 0) {
            Ok(r) => if r.clean && r.pos == inner.len() && tokens.len() == 1 {
                Ok(RuleExprView::Dsl(r.node))
            } else {
                Err(DslErrorView::Syntax)
            },
            Err(e) => Err(e),
        }
    } else {
        Err(
            DslErrorView::Rule(
                "Expected either a struct ident, a function reference (fn = ...), or a DSL expression!"@,
            ),
        )
    }
}

impl RuleExpr {
    /// Reads a payload.
    pub fn parse(payload: &Group) -> (r: Result<RuleExpr, DslError>)
        ensures
            match (r, rule_expr_of(payload.source@, payload.tokens_view(), payload.reads)) {
                (Ok(a), Ok(b)) => a.view() == b,
                (Err(a), Err(b)) => a@ == b,
                _ => false,
            },
    {
        let tokens = &payload.tokens;
        proof {
            lemma_tokens_view(tokens@);
        }
        if tokens.len() > 0 {
            match &tokens[0] {
                Token::Ident(name) => {
                    return if tokens.len() == 1 {
                        Ok(RuleExpr::Struct(name.clone()))
                    } else {
                        Err(DslError::Syntax)
                    };
                },
                Token::Other(word) => {
                    if same_text(word.as_str(), "fn") {
                        if punct_at(tokens, 1, '=') {
                            if let Some(path) = after_first(payload.source.as_str(), "=") {
                                return if payload.reads.path {
                                    Ok(RuleExpr::FnRef(path.to_owned()))
                                } else {
                                    Err(DslError::Syntax)
                                };
                            }
                        }
                        return Err(DslError::Syntax);
                    }
                },
                Token::Brace(group) => {
                    proof {
                        lemma_tokens_view(group.tokens@);
                    }
                    return match DslNode::parse_then(&group.tokens, 0) {
                        Ok(r) => if r.clean && r.pos == group.tokens.len() && tokens.len() == 1 {
                            Ok(RuleExpr::Dsl(r.node))
                        } else {
                            Err(DslError::Syntax)
                        },
                        Err(e) => Err(e),
                    };
                },
                _ => {},
            }
        }
        Err(
            DslError::Rule(
                "Expected either a struct ident, a function reference (fn = ...), or a DSL expression!".to_owned(),
            ),
        )
    }
}

pub open spec fn lowered_text_arg(s: IdentOrStringView) -> Seq<char> {
    match s {
        IdentOrStringView::Ident(i) => i,
        IdentOrStringView::String { literal, .. } => literal,
    }
}

/// The call of a constructor on one argument.
pub open spec fn call_text(name: Seq<char>, arg: Seq<char>) -> Seq<char> {
    name + "("@ + arg + ")"@
}

/// The constructor of a matcher.
pub open spec fn lowered_matcher(call: MatcherCallView) -> Seq<char> {
    match call {
        MatcherCallView::Any => "any()"@,
        MatcherCallView::Never => "never()"@,
        MatcherCallView::Exact(s) => call_text("text_exact"@, lowered_text_arg(s)),
        MatcherCallView::StartsWith(s) => call_text("text_starts_with"@, lowered_text_arg(s)),
        MatcherCallView::EndsWith(s) => call_text("text_ends_with"@, lowered_text_arg(s)),
        MatcherCallView::Contains(s) => call_text("text_contains"@, lowered_text_arg(s)),
        MatcherCallView::Regex(s) => call_text("text_regex"@, lowered_text_arg(s)),
        MatcherCallView::BinaryExact(e) => call_text("binary_exact"@, e),
        MatcherCallView::BinaryStartsWith(e) => call_text("binary_starts_with"@, e),
        MatcherCallView::BinaryEndsWith(e) => call_text("binary_ends_with"@, e),
        MatcherCallView::BinaryContains(e) => call_text("binary_contains"@, e),
        MatcherCallView::MessageType(t) => call_text(
            "message_type"@,
            "::binary_options_tools_core::rules::MessageType::"@ + t,
        ),
        MatcherCallView::JsonSchema(t) => "json_schema::<"@ + t + ">()"@,
        MatcherCallView::Custom(c) => call_text("custom"@, c),
    }
}

/// The call of a method.
pub open spec fn lowered_method(m: ChainedMethodView) -> Seq<char> {
    m.ident + "("@ + m.args + ")"@
}

/// Calls of methods, each behind a dot.
pub open spec fn lowered_methods(methods: Seq<ChainedMethodView>) -> Seq<char>
    decreases methods.len(),
{
    if methods.len() == 0 {
        Seq::empty()
    } else {
        lowered_methods(methods.drop_last()) + "."@ + lowered_method(methods.last())
    }
}

/// Rust source that makes a rule builder of a matcher and its methods.
pub open spec fn lowered_chain(base: MatcherCallView, methods: Seq<ChainedMethodView>) -> Seq<char> {
    "::binary_options_tools_core::rules::RuleBuilder::"@ + lowered_matcher(base) + lowered_methods(
        methods,
    )
}

/// Rust source that makes a rule builder of an expression.
pub open spec fn lowered_inner(node: DslView) -> Seq<char>
    decreases node,
{
    match node {
        DslView::And(nodes) => if nodes.len() == 0 {
            "panic!(\"AND operator requires at least one operand\")"@
        } else {
            lowered_operands(nodes, ".and("@)
        },
        DslView::Or(nodes) => if nodes.len() == 0 {
            "panic!(\"OR operator requires at least one operand\")"@
        } else {
            lowered_operands(nodes, ".or("@)
        },
        DslView::Then(a, b) => lowered_inner(*a) + ".then("@ + lowered_inner(*b) + ".build())"@,
        DslView::Not(a) => lowered_inner(*a) + ".not()"@,
        DslView::MethodChain { base, methods } => lowered_chain(base, methods),
    }
}

/// Rust source that puts operands together, the first as a builder, the others as arguments.
pub open spec fn lowered_operands(nodes: Seq<DslView>, op: Seq<char>) -> Seq<char>
    decreases nodes,
{
    if nodes.len() == 0 {
        Seq::empty()
    } else if nodes.len() == 1 {
        lowered_inner(nodes[0])
    } else {
        lowered_operands(nodes.drop_last(), op) + op + lowered_inner(nodes.last()) + ".build())"@
    }
}

/// Whether an expression has no operands where it needs one.
pub open spec fn lacks_operands(node: DslView) -> bool {
    match node {
        DslView::And(nodes) => nodes.len() == 0,
        DslView::Or(nodes) => nodes.len() == 0,
        _ => false,
    }
}

/// Rust source that makes a rule of an expression.
pub open spec fn lowered(node: DslView) -> Seq<char> {
    if lacks_operands(node) {
        lowered_inner(node)
    } else {
        lowered_inner(node) + ".build()"@
    }
}

/// Rust source that makes a boxed rule of a payload.
pub open spec fn lowered_rule(rule: RuleExprView) -> Seq<char> {
    "::std::boxed::Box::new("@ + match rule {
        RuleExprView::Struct(s) => s + "::new()"@,
        RuleExprView::FnRef(p) => p + "()"@,
        RuleExprView::Dsl(node) => lowered(node),
    } + ")"@
}

impl IdentOrString {
    fn to_tokens(&self) -> (r: String)
        ensures
            r@ == lowered_text_arg(self@),
    {
        match self {
            IdentOrString::Ident(i) => i.clone(),
            IdentOrString::String { literal, .. } => literal.clone(),
        }
    }
}

fn call_of(name: &str, arg: &str) -> (r: String)
    ensures
        r@ == call_text(name@, arg@),
{
    let mut text = name.to_owned();
    text.append("(");
    text.append(arg);
    text.append(")");
    text
}

impl MatcherCall {
    /// The constructor of the matcher.
    pub fn to_tokens(&self) -> (r: String)
        ensures
            r@ == lowered_matcher(self@),
    {
        match self {
            MatcherCall::Any => "any()".to_owned(),
            MatcherCall::Never => "never()".to_owned(),
            MatcherCall::Exact(s) => call_of("text_exact", s.to_tokens().as_str()),
            MatcherCall::StartsWith(s) => call_of("text_starts_with", s.to_tokens().as_str()),
            MatcherCall::EndsWith(s) => call_of("text_ends_with", s.to_tokens().as_str()),
            MatcherCall::Contains(s) => call_of("text_contains", s.to_tokens().as_str()),
            MatcherCall::Regex(s) => call_of("text_regex", s.to_tokens().as_str()),
            MatcherCall::BinaryExact(e) => call_of("binary_exact", e.as_str()),
            MatcherCall::BinaryStartsWith(e) => call_of("binary_starts_with", e.as_str()),
            MatcherCall::BinaryEndsWith(e) => call_of("binary_ends_with", e.as_str()),
            MatcherCall::BinaryContains(e) => call_of("binary_contains", e.as_str()),
            MatcherCall::MessageType(t) => {
                let mut path = "::binary_options_tools_core::rules::MessageType::".to_owned();
                path.append(t.as_str());
                call_of("message_type", path.as_str())
            },
            MatcherCall::JsonSchema(t) => {
                let mut text = "json_schema::<".to_owned();
                text.append(t.as_str());
                text.append(">()");
                text
            },
            MatcherCall::Custom(c) => call_of("custom", c.as_str()),
        }
    }
}

impl ChainedMethod {
    /// The call of the method.
    pub fn to_tokens(&self) -> (r: String)
        ensures
            r@ == lowered_method(self@),
    {
        call_of(self.ident.as_str(), self.args.as_str())
    }
}

impl MethodChain {
    /// Rust source that makes a rule builder of the matcher and its methods.
    pub fn to_tokens(&self) -> (r: String)
        ensures
            r@ == lowered_chain(self.base@, methods_view(self.methods@)),
    {
        let ghost all = methods_view(self.methods@);
        let mut text = "::binary_options_tools_core::rules::RuleBuilder::".to_owned();
        text.append(self.base.to_tokens().as_str());
        let ghost start = text@;
        let mut i: usize = 0;
        assert(text@ =~= start + lowered_methods(all.take(0)));
        while i < self.methods.len()
            invariant
                i <= self.methods@.len(),
                all == methods_view(self.methods@),
                text@ == start + lowered_methods(all.take(i as int)),
            decreases self.methods@.len() - i,
        {
            assert(all.take(i + 1).drop_last() =~= all.take(i as int));
            text.append(".");
            text.append(self.methods[i].to_tokens().as_str());
            assert(text@ =~= start + lowered_methods(all.take(i + 1)));
            i += 1;
        }
        assert(all.take(i as int) =~= all);
        text
    }
}

fn operands_to_tokens(nodes: &Vec<DslNode>, op: &str) -> (r: String)
    requires
        nodes@.len() > 0,
    ensures
        r@ == lowered_operands(nodes_view(nodes@), op@),
    decreases *nodes,
{
    let ghost all = nodes_view(nodes@);
    proof {
        lemma_nodes_view(nodes@);
    }
    let mut text = nodes[0].to_tokens_inner();
    let mut i: usize = 1;
    assert(all.take(1)[0] == all[0]);
    while i < nodes.len()
        invariant
            1 <= i <= nodes@.len(),
            all == nodes_view(nodes@),
            all.len() == nodes@.len(),
            forall|j: int| 0 <= j < nodes@.len() ==> #[trigger] all[j] == nodes@[j].view(),
            text@ == lowered_operands(all.take(i as int), op@),
        decreases nodes@.len() - i,
    {
        assert(all.take(i + 1).drop_last() =~= all.take(i as int));
        assert(all.take(i + 1).last() == all[i as int]);
        text.append(op);
        text.append(nodes[i].to_tokens_inner().as_str());
        text.append(".build())");
        i += 1;
    }
    assert(all.take(i as int) =~= all);
    text
}

impl DslNode {
    /// Rust source that makes a rule builder of the expression.
    pub fn to_tokens_inner(&self) -> (r: String)
        ensures
            r@ == lowered_inner(self.view()),
        decreases *self,
    {
        match self {
            DslNode::And(nodes) => {
                proof {
                    lemma_nodes_view(nodes@);
                }
                if nodes.len() == 0 {
                    "panic!(\"AND operator requires at least one operand\")".to_owned()
                } else {
                    operands_to_tokens(nodes, ".and(")
                }
            },
            DslNode::Or(nodes) => {
                proof {
                    lemma_nodes_view(nodes@);
                }
                if nodes.len() == 0 {
                    "panic!(\"OR operator requires at least one operand\")".to_owned()
                } else {
                    operands_to_tokens(nodes, ".or(")
                }
            },
            DslNode::Then(a, b) => {
                let mut text = a.to_tokens_inner();
                text.append(".then(");
                text.append(b.to_tokens_inner().as_str());
                text.append(".build())");
                text
            },
            DslNode::Not(a) => {
                let mut text = a.to_tokens_inner();
                text.append(".not()");
                text
            },
            DslNode::MethodChain(chain) => chain.to_tokens(),
        }
    }

    /// Rust source that makes a rule of the expression.
    pub fn to_tokens(&self) -> (r: String)
        ensures
            r@ == lowered(self.view()),
    {
        let empty = match self {
            DslNode::And(nodes) => {
                proof {
                    lemma_nodes_view(nodes@);
                }
                nodes.len() == 0
            },
            DslNode::Or(nodes) => {
                proof {
                    lemma_nodes_view(nodes@);
                }
                nodes.len() == 0
            },
            _ => false,
        };
        let mut text = self.to_tokens_inner();
        if !empty {
            text.append(".build()");
        }
        text
    }
}

impl RuleExpr {
    /// Rust source that makes a boxed rule of the payload.
    pub fn to_tokens(&self) -> (r: String)
        ensures
            r@ == lowered_rule(self.view()),
    {
        let mut text = "::std::boxed::Box::new(".to_owned();
        match self {
            RuleExpr::Struct(s) => {
                let mut inner = s.clone();
                inner.append("::new()");
                text.append(inner.as_str());
            },
            RuleExpr::FnRef(p) => {
                let mut inner = p.clone();
                inner.append("()");
                text.append(inner.as_str());
            },
            RuleExpr::Dsl(node) => {
                text.append(node.to_tokens().as_str());
            },
        }
        text.append(")");
        text
    }
}

} // verus!
