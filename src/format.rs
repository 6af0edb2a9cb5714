//! The final formatting pass, done by the StyLua formatter in a fixed style.
use vstd::prelude::*;
use stylua_lib::{
    CallParenType, CollapseSimpleStatement, Config, IndentType, LineEndings, LuaVersion,
    OutputVerification, QuoteStyle, SpaceAfterFunctionNames,
};
use crate::document::{assemble, document_text};
use crate::model::{ConfigModel, Enum, EnumSetConfig, is_identifier, valid_config, valid_enum};

verus! {

/// How lines end.
#[derive(Debug, Clone, Copy, PartialEq, Eq)]
pub enum LineEnding {
    Unix,
    Windows,
}

/// What a level of indentation is made of.
#[derive(Debug, Clone, Copy, PartialEq, Eq)]
pub enum IndentKind {
    Tabs,
    Spaces,
}

/// Which quotes string literals use, where the text allows either.
#[derive(Debug, Clone, Copy, PartialEq, Eq)]
pub enum Quotes {
    PreferDouble,
    PreferSingle,
}

/// Whether calls keep parentheses around a single string or table argument.
#[derive(Debug, Clone, Copy, PartialEq, Eq)]
pub enum CallParens {
    Always,
    Input,
}

/// Whether simple statements may be written on one line.
#[derive(Debug, Clone, Copy, PartialEq, Eq)]
pub enum Collapse {
    Never,
    ConditionalOnly,
}

/// Whether a space stands between a function's name and its parentheses.
#[derive(Debug, Clone, Copy, PartialEq, Eq)]
pub enum NameSpacing {
    Never,
    Always,
}

/// The style in which the formatter prints Luau.
#[derive(Debug, Clone, Copy, PartialEq, Eq)]
pub struct FormatStyle {
    pub column_width: usize,
    pub indent_width: usize,
    pub line_endings: LineEnding,
    pub indent: IndentKind,
    pub quotes: Quotes,
    pub calls: CallParens,
    pub collapse: Collapse,
    pub name_spacing: NameSpacing,
}

/// A style as plain values: the two widths, then each choice as whether it is the first one
/// listed below (Windows line ends, tabs, double quotes, parentheses always, collapse only
/// conditionals, no space after names).
pub open spec fn style_values(s: FormatStyle) -> (nat, nat, bool, bool, bool, bool, bool, bool) {
    (
        s.column_width as nat,
        s.indent_width as nat,
        s.line_endings == LineEnding::Windows,
        s.indent == IndentKind::Tabs,
        s.quotes == Quotes::PreferDouble,
        s.calls == CallParens::Always,
        s.collapse == Collapse::ConditionalOnly,
        s.name_spacing == NameSpacing::Never,
    )
}

/// The style of the generated module: tabs, double quotes, calls always parenthesised, no space
/// after function names, CRLF line ends, a column width of 200.
pub open spec fn module_style() -> FormatStyle {
    FormatStyle {
        column_width: 200,
        indent_width: 5,
        line_endings: LineEnding::Windows,
        indent: IndentKind::Tabs,
        quotes: Quotes::PreferDouble,
        calls: CallParens::Always,
        collapse: Collapse::ConditionalOnly,
        name_spacing: NameSpacing::Never,
    }
}

pub fn luau_style() -> (r: FormatStyle)
    ensures
        r == module_style(),
{
    FormatStyle {
        column_width: 200,
        indent_width: 5,
        line_endings: LineEnding::Windows,
        indent: IndentKind::Tabs,
        quotes: Quotes::PreferDouble,
        calls: CallParens::Always,
        collapse: Collapse::ConditionalOnly,
        name_spacing: NameSpacing::Never,
    }
}

/// What StyLua makes of a Luau text in a style: the formatted text, or the message of the error
/// with which it refuses the text.
pub uninterp spec fn luau_formatted(
    code: Seq<char>,
    style: (nat, nat, bool, bool, bool, bool, bool, bool),
) -> Result<Seq<char>, Seq<char>>;

/// Relies on `stylua_lib::format_code`, which parses the text as Luau and prints it again in the
/// given style, or fails on text that does not parse; the failure is rendered by the `Display`
/// of `stylua_lib::Error`. Both depend on the text and the style alone. The parser recurses once
/// per level of nesting with no bound, so only modules generated from valid names are admitted:
/// their nesting depth is fixed, as names hold no brackets and long unions and intersections
/// are read in a loop.
#[verifier::external_body]
fn stylua_format(code: &str, style: &FormatStyle) -> (r: Result<String, String>)
    requires
        exists|c: ConfigModel| valid_config(c) && code@ == document_text(c),
    ensures
        luau_formatted(code@, style_values(*style)) == (match r {
            Ok(s) => Ok(s@),
            Err(m) => Err(m@),
        }),
{
    stylua_lib::format_code(code, Config {
        syntax: LuaVersion::Luau,
        column_width: style.column_width,
        indent_width: style.indent_width,
        line_endings: match style.line_endings { LineEnding::Unix => LineEndings::Unix, LineEnding::Windows => LineEndings::Windows },
        indent_type: match style.indent { IndentKind::Tabs => IndentType::Tabs, IndentKind::Spaces => IndentType::Spaces },
        quote_style: match style.quotes { Quotes::PreferDouble => QuoteStyle::AutoPreferDouble, Quotes::PreferSingle => QuoteStyle::AutoPreferSingle },
        call_parentheses: match style.calls { CallParens::Always => CallParenType::Always, CallParens::Input => CallParenType::Input },
        collapse_simple_statement: match style.collapse { Collapse::Never => CollapseSimpleStatement::Never, Collapse::ConditionalOnly => CollapseSimpleStatement::ConditionalOnly },
        space_after_function_names: match style.name_spacing { NameSpacing::Never => SpaceAfterFunctionNames::Never, NameSpacing::Always => SpaceAfterFunctionNames::Always },
        ..Config::default()
    }, None, OutputVerification::None).map_err(|e| e.to_string())
}

/// A text that the formatter refused: the formatter's message and the text itself.
#[derive(Debug, Clone, PartialEq, Eq)]
pub struct FormatError {
    pub message: String,
    pub code: String,
}

/// The outcome of formatting as plain values: the formatted text, or the formatter's message.
pub open spec fn format_outcome(r: Result<String, FormatError>) -> Result<Seq<char>, Seq<char>> {
    match r {
        Ok(s) => Ok(s@),
        Err(e) => Err(e.message@),
    }
}

/// Formats a generated module in the module's style.
fn format_code(code: String) -> (r: Result<String, FormatError>)
    requires
        exists|c: ConfigModel| valid_config(c) && code@ == document_text(c),
    ensures
        format_outcome(r) == luau_formatted(code@, style_values(module_style())),
        r is Err ==> r->Err_0.code@ == code@,
{
    let style = luau_style();
    match stylua_format(code.as_str(), &style) {
        Ok(out) => Ok(out),
        Err(message) => Err(FormatError { message, code }),
    }
}

/// Every name of an enumeration is valid, as the type of names guarantees.
fn enum_names_valid(e: &Enum)
    ensures
        valid_enum(e@),
{
    let _ = e.name.as_str();
    let n = e.items.len();
    let mut k: usize = 0;
    while k < n
        invariant
            n == e.items@.len(),
            0 <= k <= n,
            forall|j: int| 0 <= j < k ==> is_identifier(#[trigger] e.items@[j].name@),
        decreases n - k,
    {
        let _ = e.items[k].name.as_str();
        k = k + 1;
    }
}

/// Every name of a configuration is valid, as the type of names guarantees.
fn config_names_valid(config: &EnumSetConfig)
    ensures
        valid_config(config@),
{
    let n = config.enums.len();
    let mut k: usize = 0;
    while k < n
        invariant
            n == config.enums@.len(),
            0 <= k <= n,
            forall|j: int| 0 <= j < k ==> valid_enum(#[trigger] config.enums@[j]@),
        decreases n - k,
    {
        enum_names_valid(&config.enums[k]);
        k = k + 1;
    }
}

/// The formatted module for a configuration; where the formatter refuses the assembled text,
/// its message and that text.
pub fn dump(config: EnumSetConfig) -> (r: Result<String, FormatError>)
    ensures
        format_outcome(r) == luau_formatted(document_text(config@), style_values(module_style())),
        r is Err ==> r->Err_0.code@ == document_text(config@),
{
    config_names_valid(&config);
    let code = assemble(&config);
    proof {
        assert(valid_config(config@) && code@ == document_text(config@));
    }
    format_code(code)
}

/// Generation is deterministic: equal configurations give the same module text, and so the same
/// formatted module or the same failure.
pub proof fn lemma_deterministic(a: ConfigModel, b: ConfigModel)
    requires
        a == b,
    ensures
        document_text(a) == document_text(b),
        luau_formatted(document_text(a), style_values(module_style())) == luau_formatted(
            document_text(b),
            style_values(module_style()),
        ),
{
}

} // verus!
