//! The override list of a directive: for each identifier it names, whether
//! the identifier is captured as it is, replaced by an expression, or left
//! out.
//!
//! ```text
//! list  = [ entry { "," entry } [ "," ] ]
//! entry = name [ "=" literal ]
//! ```
//!
//! The list is read token by token, and the tokens are those of the host
//! language: a name is any identifier, a literal any string literal of the
//! language, and white space and comments stand between tokens as they do
//! there. A name that stands alone keeps the identifier, a literal with the
//! value `_` suppresses it, any other literal holds the expression that
//! replaces it. Places in a list are counted in tokens, from zero.

use crate::text::{decimal, push_decimal, same_text};
use quote::ToTokens;
use vstd::prelude::*;
use vstd::string::*;

verus! {

/// What a directive asks for one identifier.
#[derive(Debug, Clone, PartialEq, Eq)]
pub enum Override {
    /// Capture the identifier as it is.
    Keep,
    /// Capture the given expression in the identifier's place.
    Replace(String),
    /// Do not capture the identifier.
    Suppress,
}

/// The mathematical value of an [`Override`].
pub enum OverrideView {
    Keep,
    Replace(Seq<char>),
    Suppress,
}

impl View for Override {
    type V = OverrideView;

    open spec fn view(&self) -> OverrideView {
        match self {
            Override::Keep => OverrideView::Keep,
            Override::Replace(e) => OverrideView::Replace(e@),
            Override::Suppress => OverrideView::Suppress,
        }
    }
}

impl DeepView for Override {
    type V = OverrideView;

    open spec fn deep_view(&self) -> OverrideView {
        self@
    }
}

/// One entry of an override list: a name, what is asked for it, and the
/// place in the written list at which it was asked.
#[derive(Debug, Clone, PartialEq, Eq)]
pub struct OverrideEntry {
    pub name: String,
    pub action: Override,
    pub at: usize,
}

/// The mathematical value of an [`OverrideEntry`].
pub struct EntryView {
    pub name: Seq<char>,
    pub action: OverrideView,
    pub at: usize,
}

impl View for OverrideEntry {
    type V = EntryView;

    open spec fn view(&self) -> EntryView {
        EntryView { name: self.name@, action: self.action@, at: self.at }
    }
}

impl DeepView for OverrideEntry {
    type V = EntryView;

    open spec fn deep_view(&self) -> EntryView {
        self@
    }
}

/// No two entries have the same name.
pub open spec fn distinct_names(entries: Seq<EntryView>) -> bool {
    forall|i: int, j: int|
        0 <= i < j < entries.len() ==> (#[trigger] entries[i]).name != (#[trigger] entries[j]).name
}

/// Whether some entry is named `name`.
pub open spec fn names(entries: Seq<EntryView>, name: Seq<char>) -> bool {
    exists|i: int| 0 <= i < entries.len() && (#[trigger] entries[i]).name == name
}

/// The position of the first entry named `name`; meaningful where `names`
/// holds.
pub open spec fn position(entries: Seq<EntryView>, name: Seq<char>) -> int {
    choose|i: int|
        0 <= i < entries.len() && (#[trigger] entries[i]).name == name && forall|j: int|
            0 <= j < i ==> (#[trigger] entries[j]).name != name
}

/// The entry for `name`, if there is one.
pub open spec fn found(entries: Seq<EntryView>, name: Seq<char>) -> Option<EntryView> {
    if names(entries, name) {
        Some(entries[position(entries, name)])
    } else {
        None
    }
}

/// What the entries say about `name`, if anything.
pub open spec fn lookup(entries: Seq<EntryView>, name: Seq<char>) -> Option<OverrideView> {
    match found(entries, name) {
        Some(entry) => Some(entry.action),
        None => None,
    }
}

/// The entries after `name` has been given `action` at the written place
/// `at`: an entry of that name keeps its position in the list and takes the
/// new action and place, a new name goes to the end.
pub open spec fn inserted(
    entries: Seq<EntryView>,
    name: Seq<char>,
    action: OverrideView,
    at: usize,
) -> Seq<EntryView> {
    if names(entries, name) {
        entries.update(position(entries, name), EntryView { name, action, at })
    } else {
        entries.push(EntryView { name, action, at })
    }
}

/// An override list: entries in the order in which their names were first
/// written. A list made by `new` and `insert` holds each name once.
#[derive(Debug, Clone, PartialEq, Eq)]
pub struct ArgsReplace {
    entries: Vec<OverrideEntry>,
}

impl View for ArgsReplace {
    type V = Seq<EntryView>;

    closed spec fn view(&self) -> Seq<EntryView> {
        self.entries.deep_view()
    }
}

impl ArgsReplace {
    /// The invariant of an override list: no name occurs twice.
    pub open spec fn wf(&self) -> bool {
        distinct_names(self@)
    }

    /// The empty override list.
    pub fn new() -> (r: ArgsReplace)
        ensures
            r@ == Seq::<EntryView>::empty(),
            r.wf(),
    {
        let r = ArgsReplace { entries: Vec::new() };
        assert(r.entries.deep_view() =~= Seq::<EntryView>::empty());
        r
    }

    /// The entries, in order.
    pub fn entries(&self) -> (r: &Vec<OverrideEntry>)
        ensures
            r.deep_view() == self@,
    {
        &self.entries
    }

    fn find(&self, name: &str) -> (r: Option<usize>)
        ensures
            match r {
                Some(i) => names(self@, name@) && position(self@, name@) == i && i < self@.len(),
                None => !names(self@, name@),
            },
    {
        let mut i: usize = 0;
        while i < self.entries.len()
            invariant
                i <= self.entries.len(),
                forall|j: int| 0 <= j < i ==> (#[trigger] self@[j]).name != name@,
            decreases self.entries.len() - i,
        {
            if same_text(self.entries[i].name.as_str(), name) {
                assert(self@[i as int].name == name@);
                return Some(i);
            }
            i += 1;
        }
        None
    }

    /// The entry for `name`, if there is one.
    pub fn entry(&self, name: &str) -> (r: Option<&OverrideEntry>)
        ensures
            r.deep_view() == found(self@, name@),
    {
        match self.find(name) {
            Some(i) => Some(&self.entries[i]),
            None => None,
        }
    }

    /// What the list says about `name`, if anything.
    pub fn get(&self, name: &str) -> (r: Option<&Override>)
        ensures
            r.deep_view() == lookup(self@, name@),
    {
        match self.find(name) {
            Some(i) => Some(&self.entries[i].action),
            None => None,
        }
    }

    /// Gives `name` the action `action`, asked at the written place `at`;
    /// of two entries for one name the later one counts.
    pub fn insert(&mut self, name: String, action: Override, at: usize)
        ensures
            final(self)@ == inserted(old(self)@, name@, action@, at),
            old(self).wf() ==> final(self).wf(),
    {
        let ghost before = self@;
        match self.find(name.as_str()) {
            Some(i) => {
                self.entries[i] = OverrideEntry { name, action, at };
                assert(self.entries.deep_view() =~= before.update(
                    i as int,
                    EntryView { name: name@, action: action@, at },
                ));
            },
            None => {
                self.entries.push(OverrideEntry { name, action, at });
                assert(self.entries.deep_view() =~= before.push(
                    EntryView { name: name@, action: action@, at },
                ));
            },
        }
    }
}


/// What is wrong with an override list.
#[derive(Debug, Clone, Copy, PartialEq, Eq, Structural)]
pub enum ParseErrorKind {
    /// The text is not made of tokens.
    InvalidTokens,
    /// An entry does not begin with a name.
    ExpectedName,
    /// No string literal follows the `=` of an entry.
    ExpectedString,
    /// Something other than a comma follows an entry.
    ExpectedComma,
    /// The name of an entry without a value, or the value of an entry, is no
    /// expression.
    InvalidExpression,
}

/// A rejected override list: what is wrong, and the index of the token at
/// which it is wrong, which is the number of tokens where something is
/// missing at the end, and zero where the text is not made of tokens.
#[derive(Debug, Clone, Copy, PartialEq, Eq, Structural)]
pub struct ParseError {
    pub kind: ParseErrorKind,
    pub at: usize,
}

/// What a kind of fault is called in a message.
pub open spec fn kind_text(kind: ParseErrorKind) -> Seq<char> {
    match kind {
        ParseErrorKind::InvalidTokens => "expected tokens"@,
        ParseErrorKind::ExpectedName => "expected a name"@,
        ParseErrorKind::ExpectedString => "expected a string literal"@,
        ParseErrorKind::ExpectedComma => "expected a comma"@,
        ParseErrorKind::InvalidExpression => "expected an expression"@,
    }
}

/// The message for a rejected override list: what is wrong, and where.
pub open spec fn error_text(e: ParseError) -> Seq<char> {
    kind_text(e.kind) + " at token "@ + decimal(e.at as nat) + " of the override list"@
}

impl ParseError {
    /// The message for this fault.
    pub fn to_string(&self) -> (r: String)
        ensures
            r@ == error_text(*self),
    {
        let mut out = String::from_str(
            match self.kind {
                ParseErrorKind::InvalidTokens => "expected tokens",
                ParseErrorKind::ExpectedName => "expected a name",
                ParseErrorKind::ExpectedString => "expected a string literal",
                ParseErrorKind::ExpectedComma => "expected a comma",
                ParseErrorKind::InvalidExpression => "expected an expression",
            },
        );
        out.append(" at token ");
        push_decimal(&mut out, self.at as u64);
        out.append(" of the override list");
        out
    }
}

/// One token of an override list, as far as the list's grammar reads it.
#[derive(Debug, Clone, PartialEq, Eq)]
pub enum Token {
    /// An identifier, with its text.
    Ident(String),
    /// One character of punctuation.
    Punct(char),
    /// A string literal, with its value.
    Str(String),
    /// Any other literal, and any group in brackets.
    Other,
}

/// The mathematical value of a [`Token`].
pub enum TokenView {
    Ident(Seq<char>),
    Punct(char),
    Str(Seq<char>),
    Other,
}

impl View for Token {
    type V = TokenView;

    open spec fn view(&self) -> TokenView {
        match self {
            Token::Ident(name) => TokenView::Ident(name@),
            Token::Punct(c) => TokenView::Punct(*c),
            Token::Str(value) => TokenView::Str(value@),
            Token::Other => TokenView::Other,
        }
    }
}

impl DeepView for Token {
    type V = TokenView;

    open spec fn deep_view(&self) -> TokenView {
        self@
    }
}

/// The tokens that `text` is made of, where it is made of tokens of the
/// host language, and nothing where it is not.
pub uninterp spec fn tokens_of(text: Seq<char>) -> Option<Seq<TokenView>>;

/// Reads `text` as tokens.
///
/// Trusted: the body calls `proc_macro2::TokenStream::from_str`, which lexes
/// the text into token trees or returns an error, and hands the trees on in
/// order, each as a plain value: an identifier with its text
/// (`Ident::to_string`), a punctuation character (`Punct::as_char`), and a
/// literal as syn reads it (`syn::Lit::new`), with its value where it is a
/// string literal (`LitStr::value`). The crates are built without the
/// `proc-macro` feature, so lexing is proc-macro2's own in every process.
/// The contract claims that the outcome is a function of the text alone,
/// and gives that function its name; it claims nothing about which texts
/// are made of tokens, nor of which.
#[verifier::external_body]
fn lex(text: &str) -> (r: Option<Vec<Token>>)
    ensures
        r.deep_view() == tokens_of(text@),
{
    let stream = text.parse::<proc_macro2::TokenStream>().ok()?;
    let tokens = stream.into_iter().map(|tree| match tree {
        proc_macro2::TokenTree::Ident(ident) => Token::Ident(ident.to_string()),
        proc_macro2::TokenTree::Punct(punct) => Token::Punct(punct.as_char()),
        proc_macro2::TokenTree::Literal(literal) => match syn::Lit::new(literal) {
            syn::Lit::Str(string) => Token::Str(string.value()),
            _ => Token::Other,
        },
        proc_macro2::TokenTree::Group(_) => Token::Other,
    });
    Some(tokens.collect())
}

/// One entry of an override list as it is written: its name, the value of
/// its string literal if it has one, and the place of the literal, or of
/// the name where there is none.
#[derive(Debug, Clone, PartialEq, Eq)]
pub struct RawEntry {
    pub name: String,
    pub value: Option<String>,
    pub at: usize,
}

/// The mathematical value of a [`RawEntry`].
pub struct RawEntryView {
    pub name: Seq<char>,
    pub value: Option<Seq<char>>,
    pub at: usize,
}

impl View for RawEntry {
    type V = RawEntryView;

    open spec fn view(&self) -> RawEntryView {
        RawEntryView { name: self.name@, value: self.value.deep_view(), at: self.at }
    }
}

impl DeepView for RawEntry {
    type V = RawEntryView;

    open spec fn deep_view(&self) -> RawEntryView {
        self@
    }
}

/// Reads the entry that begins with the token `i`: the entry, and the place
/// behind it. An entry is a name, alone or followed by `=` and a string
/// literal.
pub open spec fn entry_at(tokens: Seq<TokenView>, i: int) -> Result<(RawEntryView, int), ParseError> {
    if 0 <= i < tokens.len() && tokens[i] is Ident {
        let name = tokens[i]->Ident_0;
        if i + 1 < tokens.len() && tokens[i + 1] == TokenView::Punct('=') {
            if i + 2 < tokens.len() && tokens[i + 2] is Str {
                Ok(
                    (
                        RawEntryView {
                            name,
                            value: Some(tokens[i + 2]->Str_0),
                            at: (i + 2) as usize,
                        },
                        i + 3,
                    ),
                )
            } else {
                Err(ParseError { kind: ParseErrorKind::ExpectedString, at: (i + 2) as usize })
            }
        } else {
            Ok((RawEntryView { name, value: None, at: i as usize }, i + 1))
        }
    } else {
        Err(ParseError { kind: ParseErrorKind::ExpectedName, at: i as usize })
    }
}

/// Reads what stands behind an entry, at the place `i`: nothing, where the
/// list ends there; a comma, which gives the place behind it, where the
/// list goes on or ends; anything else is a fault.
pub open spec fn behind_entry(tokens: Seq<TokenView>, i: int) -> Result<Option<int>, ParseError> {
    if i < 0 || i >= tokens.len() {
        Ok(None)
    } else if tokens[i] == TokenView::Punct(',') {
        Ok(Some(i + 1))
    } else {
        Err(ParseError { kind: ParseErrorKind::ExpectedComma, at: i as usize })
    }
}

/// Reads the entry that begins with the token `i`.
pub fn read_entry(tokens: &Vec<Token>, i: usize) -> (r: Result<(RawEntry, usize), ParseError>)
    ensures
        match r {
            Ok((entry, behind)) => entry_at(tokens.deep_view(), i as int) == Ok::<
                (RawEntryView, int),
                ParseError,
            >((entry@, behind as int)) && i < behind <= tokens.len(),
            Err(e) => entry_at(tokens.deep_view(), i as int) == Err::<
                (RawEntryView, int),
                ParseError,
            >(e),
        },
{
    if i >= tokens.len() {
        return Err(ParseError { kind: ParseErrorKind::ExpectedName, at: i });
    }
    assert(tokens.deep_view()[i as int] == tokens[i as int]@);
    let name = match &tokens[i] {
        Token::Ident(name) => name.clone(),
        _ => {
            return Err(ParseError { kind: ParseErrorKind::ExpectedName, at: i });
        },
    };
    if i + 1 < tokens.len() {
        assert(tokens.deep_view()[i + 1] == tokens[i + 1]@);
        let assigns = match &tokens[i + 1] {
            Token::Punct(c) => *c == '=',
            _ => false,
        };
        if assigns {
            if i + 2 < tokens.len() {
                assert(tokens.deep_view()[i + 2] == tokens[i + 2]@);
                match &tokens[i + 2] {
                    Token::Str(value) => {
                        return Ok(
                            (RawEntry { name, value: Some(value.clone()), at: i + 2 }, i + 3),
                        );
                    },
                    _ => {},
                }
            }
            return Err(ParseError { kind: ParseErrorKind::ExpectedString, at: i + 2 });
        }
    }
    Ok((RawEntry { name, value: None, at: i }, i + 1))
}

/// Reads what stands behind an entry, at the place `i`.
pub fn read_behind(tokens: &Vec<Token>, i: usize) -> (r: Result<Option<usize>, ParseError>)
    ensures
        match r {
            Ok(Some(next)) => behind_entry(tokens.deep_view(), i as int) == Ok::<
                Option<int>,
                ParseError,
            >(Some(next as int)) && i < next <= tokens.len(),
            Ok(None) => behind_entry(tokens.deep_view(), i as int) == Ok::<
                Option<int>,
                ParseError,
            >(None),
            Err(e) => behind_entry(tokens.deep_view(), i as int) == Err::<
                Option<int>,
                ParseError,
            >(e),
        },
{
    if i >= tokens.len() {
        return Ok(None);
    }
    assert(tokens.deep_view()[i as int] == tokens[i as int]@);
    let comma = match &tokens[i] {
        Token::Punct(c) => *c == ',',
        _ => false,
    };
    if comma {
        Ok(Some(i + 1))
    } else {
        Err(ParseError { kind: ParseErrorKind::ExpectedComma, at: i })
    }
}

/// The text of the tokens of `text`, where `text` is one expression of the
/// host language from its first token to its last, and nothing where it is
/// not.
pub uninterp spec fn expr_tokens(text: Seq<char>) -> Option<Seq<char>>;

/// Reads `text` as one expression and hands back its tokens as text.
///
/// Trusted: the body calls `syn::parse_str::<syn::Expr>`, which lexes the
/// text with proc-macro2 and parses all of it as one expression, or returns
/// an error. The expression's tokens are then written out with
/// `ToTokens::to_token_stream` and `to_string`. The crates are built without
/// the `proc-macro` feature, so lexing and writing are proc-macro2's own in
/// every process. The contract claims that the outcome is a function of the
/// text alone, and gives that function its name; it claims nothing about
/// which texts are expressions, nor about how tokens are written.
#[verifier::external_body]
fn expr_text(text: &str) -> (r: Option<String>)
    ensures
        r.deep_view() == expr_tokens(text@),
{
    match syn::parse_str::<syn::Expr>(text) {
        Ok(expr) => Some(expr.to_token_stream().to_string()),
        Err(_) => None,
    }
}

/// The text of an entry that has to be an expression: its value where it
/// has one, its name where it has none.
pub open spec fn probe(entry: RawEntryView) -> Seq<char> {
    match entry.value {
        Some(value) => value,
        None => entry.name,
    }
}

/// What an entry asks for, where `tokens` is what reading its probe as an
/// expression gave: the value `_` suppresses, whatever `tokens` is; any
/// other value replaces, by the tokens of the expression that it is; no
/// value keeps, where the name is an expression.
pub open spec fn decided(entry: RawEntryView, tokens: Option<Seq<char>>) -> Result<
    OverrideView,
    ParseError,
> {
    if entry.value == Some("_"@) {
        Ok(OverrideView::Suppress)
    } else {
        match tokens {
            None => Err(ParseError { kind: ParseErrorKind::InvalidExpression, at: entry.at }),
            Some(t) => if entry.value is Some {
                Ok(OverrideView::Replace(t))
            } else {
                Ok(OverrideView::Keep)
            },
        }
    }
}

/// What the written entry `entry` asks for, or why it is rejected.
pub open spec fn asked(entry: RawEntryView) -> Result<OverrideView, ParseError> {
    decided(entry, expr_tokens(probe(entry)))
}

/// The override list that the tokens from the place `i` on give when their
/// entries are added, first to last, to `entries`. Each entry is read,
/// asked, and added, and then what stands behind it is read; the first
/// fault on that way is the error.
pub open spec fn parsed_from(tokens: Seq<TokenView>, i: int, entries: Seq<EntryView>) -> Result<
    Seq<EntryView>,
    ParseError,
>
    decreases tokens.len() - i,
{
    if i < 0 || i >= tokens.len() {
        Ok(entries)
    } else {
        match entry_at(tokens, i) {
            Err(e) => Err(e),
            Ok((entry, behind)) => match asked(entry) {
                Err(e) => Err(e),
                Ok(action) => match behind_entry(tokens, behind) {
                    Err(e) => Err(e),
                    Ok(None) => Ok(inserted(entries, entry.name, action, entry.at)),
                    Ok(Some(next)) => parsed_from(
                        tokens,
                        next,
                        inserted(entries, entry.name, action, entry.at),
                    ),
                },
            },
        }
    }
}

/// The override list that the text `s` stands for, or what is wrong with it.
pub open spec fn parsed(s: Seq<char>) -> Result<Seq<EntryView>, ParseError> {
    match tokens_of(s) {
        None => Err(ParseError { kind: ParseErrorKind::InvalidTokens, at: 0 }),
        Some(tokens) => parsed_from(tokens, 0, Seq::empty()),
    }
}

/// Decides what a written entry asks for, given in `tokens` the outcome of
/// reading its value (or, where it has none, its name) as an expression.
pub fn decide(entry: &RawEntry, tokens: Option<String>) -> (r: Result<Override, ParseError>)
    ensures
        match r {
            Ok(action) => decided(entry@, tokens.deep_view()) == Ok::<OverrideView, ParseError>(
                action@,
            ),
            Err(e) => decided(entry@, tokens.deep_view()) == Err::<OverrideView, ParseError>(e),
        },
{
    if entry.suppresses() {
        return Ok(Override::Suppress);
    }
    match tokens {
        None => Err(ParseError { kind: ParseErrorKind::InvalidExpression, at: entry.at }),
        Some(t) => match entry.value {
            Some(_) => Ok(Override::Replace(t)),
            None => Ok(Override::Keep),
        },
    }
}

impl RawEntry {
    /// Whether the entry's value is `_`.
    pub fn suppresses(&self) -> (r: bool)
        ensures
            r == (self@.value == Some("_"@)),
    {
        match &self.value {
            Some(value) => same_text(value.as_str(), "_"),
            None => false,
        }
    }

    /// The text of the entry that has to be an expression.
    pub fn probe(&self) -> (r: &str)
        ensures
            r@ == probe(self@),
    {
        match &self.value {
            Some(value) => value.as_str(),
            None => self.name.as_str(),
        }
    }
}

impl ArgsReplace {
    /// Parses the override list of a directive: entries `name`,
    /// `name = "expr"` or `name = "_"`, separated by commas. A name alone
    /// keeps the identifier, `"_"` suppresses it, any other literal replaces
    /// it by the expression that the literal holds. Of two entries for one
    /// name the later one counts, at the place of the first. The list is
    /// rejected where it is not written so, and where a name that stands
    /// alone, or a value, is no expression.
    pub fn parse(text: &str) -> (r: Result<ArgsReplace, ParseError>)
        ensures
            match r {
                Ok(overrides) => parsed(text@) == Ok::<Seq<EntryView>, ParseError>(overrides@)
                    && overrides.wf(),
                Err(e) => parsed(text@) == Err::<Seq<EntryView>, ParseError>(e),
            },
    {
        let tokens = match lex(text) {
            Some(tokens) => tokens,
            None => {
                return Err(ParseError { kind: ParseErrorKind::InvalidTokens, at: 0 });
            },
        };
        let mut overrides = ArgsReplace::new();
        let mut i: usize = 0;
        while i < tokens.len()
            invariant
                i <= tokens.len(),
                overrides.wf(),
                parsed(text@) == parsed_from(tokens.deep_view(), i as int, overrides@),
            decreases tokens.len() - i,
        {
            let (entry, behind) = match read_entry(&tokens, i) {
                Ok(read) => read,
                Err(e) => {
                    return Err(e);
                },
            };
            let expr = if entry.suppresses() {
                None
            } else {
                expr_text(entry.probe())
            };
            let action = match decide(&entry, expr) {
                Ok(action) => action,
                Err(e) => {
                    return Err(e);
                },
            };
            let next = match read_behind(&tokens, behind) {
                Ok(next) => next,
                Err(e) => {
                    return Err(e);
                },
            };
            overrides.insert(entry.name, action, entry.at);
            match next {
                Some(next) => {
                    i = next;
                },
                None => {
                    return Ok(overrides);
                },
            }
        }
        Ok(overrides)
    }
}

} // verus!
