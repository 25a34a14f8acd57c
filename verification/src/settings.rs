//! The settings of the R language and the format options they resolve to.

use vstd::prelude::*;

verus! {

/// Whether lines are indented with tabs or with spaces.
#[derive(Clone, Copy, PartialEq, Eq, Structural, Hash, Debug)]
pub enum IndentStyle {
    Tab,
    Space,
}

/// How a line ends.
#[derive(Clone, Copy, PartialEq, Eq, Structural, Hash, Debug)]
pub enum LineEnding {
    /// Line feed only.
    Lf,
    /// Carriage return and line feed.
    Crlf,
    /// Carriage return only.
    Cr,
}

/// The number of spaces of one level of indentation.
#[derive(Clone, Copy, PartialEq, Eq, Structural, Hash, Debug)]
pub struct IndentWidth {
    pub value: u8,
}

/// The number of columns that a line may fill, from 1 to 320.
#[derive(Clone, Copy, PartialEq, Eq, Structural, Hash, Debug)]
pub struct LineWidth {
    pub value: u16,
}

impl LineWidth {
    pub open spec fn wf(self) -> bool {
        1 <= self.value <= 320
    }

    /// The line width of `value` columns, where that many are allowed.
    pub fn new(value: u16) -> (r: Option<LineWidth>)
        ensures
            r == if 1 <= value <= 320 {
                Some(LineWidth { value })
            } else {
                None
            },
    {
        if 1 <= value && value <= 320 {
            Some(LineWidth { value })
        } else {
            None
        }
    }
}

impl Default for IndentStyle {
    fn default() -> (r: Self)
        ensures
            r == IndentStyle::Tab,
    {
        IndentStyle::Tab
    }
}

impl Default for LineEnding {
    fn default() -> (r: Self)
        ensures
            r == LineEnding::Lf,
    {
        LineEnding::Lf
    }
}

impl Default for IndentWidth {
    fn default() -> (r: Self)
        ensures
            r == (IndentWidth { value: 2 }),
    {
        IndentWidth { value: 2 }
    }
}

impl Default for LineWidth {
    fn default() -> (r: Self)
        ensures
            r == (LineWidth { value: 80 }),
            r.wf(),
    {
        LineWidth { value: 80 }
    }
}

/// What the settings say of formatting R files.
#[derive(Clone, Copy, PartialEq, Eq, Debug, Default)]
pub struct RFormatterSettings {
    pub line_ending: Option<LineEnding>,
    pub line_width: Option<LineWidth>,
    pub indent_width: Option<IndentWidth>,
    pub indent_style: Option<IndentStyle>,
    pub enabled: Option<bool>,
}

/// What the settings say of parsing R files: nothing yet.
#[derive(Clone, Copy, PartialEq, Eq, Debug, Default)]
pub struct RParserSettings {}

/// What the settings say of linting R files.
#[derive(Clone, Copy, PartialEq, Eq, Debug, Default)]
pub struct RLinterSettings {
    pub enabled: Option<bool>,
}

/// What the settings say of formatting files of any language.
#[derive(Clone, Copy, PartialEq, Eq, Debug, Default)]
pub struct FormatSettings {
    pub indent_style: Option<IndentStyle>,
    pub indent_width: Option<IndentWidth>,
    pub line_ending: Option<LineEnding>,
    pub line_width: Option<LineWidth>,
}

/// The options with which an R file is formatted.
#[derive(Clone, Copy, PartialEq, Eq, Structural, Debug)]
pub struct RFormatOptions {
    pub indent_style: IndentStyle,
    pub indent_width: IndentWidth,
    pub line_ending: LineEnding,
    pub line_width: LineWidth,
}

impl RFormatOptions {
    /// The options that hold where the settings say nothing: tabs, two
    /// spaces to a level, line feeds, 80 columns.
    pub open spec fn spec_new() -> RFormatOptions {
        RFormatOptions {
            indent_style: IndentStyle::Tab,
            indent_width: IndentWidth { value: 2 },
            line_ending: LineEnding::Lf,
            line_width: LineWidth { value: 80 },
        }
    }

    pub fn new() -> (r: RFormatOptions)
        ensures
            r == Self::spec_new(),
    {
        RFormatOptions {
            indent_style: IndentStyle::default(),
            indent_width: IndentWidth::default(),
            line_ending: LineEnding::default(),
            line_width: LineWidth::default(),
        }
    }

    pub fn with_indent_style(self, indent_style: IndentStyle) -> (r: RFormatOptions)
        ensures
            r == (RFormatOptions { indent_style, ..self }),
    {
        RFormatOptions { indent_style, ..self }
    }

    pub fn with_indent_width(self, indent_width: IndentWidth) -> (r: RFormatOptions)
        ensures
            r == (RFormatOptions { indent_width, ..self }),
    {
        RFormatOptions { indent_width, ..self }
    }

    pub fn with_line_ending(self, line_ending: LineEnding) -> (r: RFormatOptions)
        ensures
            r == (RFormatOptions { line_ending, ..self }),
    {
        RFormatOptions { line_ending, ..self }
    }

    pub fn with_line_width(self, line_width: LineWidth) -> (r: RFormatOptions)
        ensures
            r == (RFormatOptions { line_width, ..self }),
    {
        RFormatOptions { line_width, ..self }
    }
}

/// The first of the language's value, the global value and the default
/// that is there.
pub open spec fn pick<T>(language: Option<T>, global: Option<T>, default: T) -> T {
    match language {
        Some(value) => value,
        None => match global {
            Some(value) => value,
            None => default,
        },
    }
}

/// The format options that the two groups of settings resolve to: for
/// each option the value of the R settings where they have one, else that of
/// the global settings, else the default.
pub open spec fn resolved_options(
    global: Option<&FormatSettings>,
    language: Option<&RFormatterSettings>,
) -> RFormatOptions {
    let l = match language {
        Some(settings) => *settings,
        None => RFormatterSettings {
            line_ending: None,
            line_width: None,
            indent_width: None,
            indent_style: None,
            enabled: None,
        },
    };
    let g = match global {
        Some(settings) => *settings,
        None => FormatSettings {
            indent_style: None,
            indent_width: None,
            line_ending: None,
            line_width: None,
        },
    };
    RFormatOptions {
        indent_style: pick(l.indent_style, g.indent_style, IndentStyle::Tab),
        indent_width: pick(l.indent_width, g.indent_width, IndentWidth { value: 2 }),
        line_ending: pick(l.line_ending, g.line_ending, LineEnding::Lf),
        line_width: pick(l.line_width, g.line_width, LineWidth { value: 80 }),
    }
}

/// Resolves the format options of an R file from the global settings and
/// the settings of the language.
pub fn resolve_format_options(
    global: Option<&FormatSettings>,
    language: Option<&RFormatterSettings>,
) -> (r: RFormatOptions)
    ensures
        r == resolved_options(global, language),
{
    let indent_style = match language {
        Some(RFormatterSettings { indent_style: Some(value), .. }) => *value,
        _ => match global {
            Some(FormatSettings { indent_style: Some(value), .. }) => *value,
            _ => IndentStyle::default(),
        },
    };
    let line_width = match language {
        Some(RFormatterSettings { line_width: Some(value), .. }) => *value,
        _ => match global {
            Some(FormatSettings { line_width: Some(value), .. }) => *value,
            _ => LineWidth::default(),
        },
    };
    let indent_width = match language {
        Some(RFormatterSettings { indent_width: Some(value), .. }) => *value,
        _ => match global {
            Some(FormatSettings { indent_width: Some(value), .. }) => *value,
            _ => IndentWidth::default(),
        },
    };
    let line_ending = match language {
        Some(RFormatterSettings { line_ending: Some(value), .. }) => *value,
        _ => match global {
            Some(FormatSettings { line_ending: Some(value), .. }) => *value,
            _ => LineEnding::default(),
        },
    };
    RFormatOptions::new().with_line_ending(line_ending).with_indent_style(
        indent_style,
    ).with_indent_width(indent_width).with_line_width(line_width)
}

} // verus!
