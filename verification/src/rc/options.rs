//! The formatting options a `.nessemblerc` (or one of its `overrides`) sets,
//! and how they overlay the inherited ones.
//!
//! Every key is optional: an absent key leaves the inherited value. The
//! enumerated keys are validated, and a bad value is reported with the key's
//! name and the values it accepts.

use vstd::prelude::*;
use crate::text::{push_str, str_eq, string_of};

verus! {

/// How a line is indented.
#[derive(Clone, Copy, Debug, PartialEq, Eq, Structural)]
pub enum IndentStyle {
    Space,
    Tab,
}

/// How a keyword's letters are cased.
#[derive(Clone, Copy, Debug, PartialEq, Eq, Structural)]
pub enum Case {
    Preserve,
    Lower,
    Upper,
}

/// How a lint rule reports.
#[derive(Clone, Copy, Debug, PartialEq, Eq, Structural)]
pub enum RuleSeverity {
    Off,
    Warn,
    Error,
}

/// The formatting options a configuration can set.
#[derive(Clone, Copy, Debug, PartialEq, Eq, Structural)]
pub struct FormatOptions {
    pub indent_style: IndentStyle,
    pub indent_width: usize,
    pub comma_spacing: bool,
    pub final_newline: bool,
    pub indent_directives: bool,
    pub align_continuations: bool,
    pub data_per_line: usize,
    pub respect_stride_hints: bool,
    pub blank_line_after_return: bool,
    pub max_consecutive_blank_lines: usize,
    pub mnemonic_case: Case,
    pub hex_digit_case: Case,
}

/// The formatting keys of a `.nessemblerc` or an `overrides` entry, each
/// unset (`None`) unless the file gives it.
#[derive(Clone, Debug, Default)]
pub struct RcOptions {
    pub indent_style: Option<String>,
    pub indent_width: Option<usize>,
    pub comma_spacing: Option<bool>,
    pub final_newline: Option<bool>,
    pub indent_directives: Option<bool>,
    pub align_continuations: Option<bool>,
    pub data_per_line: Option<usize>,
    pub respect_stride_hints: Option<bool>,
    pub blank_line_after_return: Option<bool>,
    pub max_consecutive_blank_lines: Option<usize>,
    pub mnemonic_case: Option<String>,
    pub hex_digit_case: Option<String>,
}

/// The case a keyword names.
pub open spec fn case_named(s: Seq<char>) -> Option<Case> {
    if s == "preserve"@ {
        Some(Case::Preserve)
    } else if s == "lower"@ {
        Some(Case::Lower)
    } else if s == "upper"@ {
        Some(Case::Upper)
    } else {
        None
    }
}

/// The complaint about a bad case keyword `value` for `key`.
pub open spec fn case_message(key: Seq<char>, value: Seq<char>) -> Seq<char> {
    "invalid "@ + key + " `"@ + value + "` (expected \"preserve\", \"lower\", or \"upper\")"@
}

/// Parse a case keyword (`"preserve"`, `"lower"`, `"upper"`) for the key
/// `key`.
pub fn parse_case(key: &str, value: &str) -> (r: Result<Case, String>)
    ensures
        r matches Ok(c) ==> case_named(value@) == Some(c),
        r matches Err(m) ==> case_named(value@) is None && m@ == case_message(key@, value@),
{
    if str_eq(value, "preserve") {
        Ok(Case::Preserve)
    } else if str_eq(value, "lower") {
        Ok(Case::Lower)
    } else if str_eq(value, "upper") {
        Ok(Case::Upper)
    } else {
        let mut m: Vec<char> = Vec::new();
        push_str(&mut m, "invalid ");
        push_str(&mut m, key);
        push_str(&mut m, " `");
        push_str(&mut m, value);
        push_str(&mut m, "` (expected \"preserve\", \"lower\", or \"upper\")");
        assert(m@ =~= case_message(key@, value@));
        Err(string_of(&m))
    }
}

/// The severity a keyword names.
pub open spec fn severity_named(s: Seq<char>) -> Option<RuleSeverity> {
    if s == "off"@ {
        Some(RuleSeverity::Off)
    } else if s == "warn"@ {
        Some(RuleSeverity::Warn)
    } else if s == "error"@ {
        Some(RuleSeverity::Error)
    } else {
        None
    }
}

/// The complaint about a bad severity `value` for `rule`.
pub open spec fn severity_message(rule: Seq<char>, value: Seq<char>) -> Seq<char> {
    "rule `"@ + rule + "` has invalid severity `"@ + value
        + "` (expected \"off\", \"warn\", or \"error\")"@
}

/// Parse a severity keyword (`"off"`, `"warn"`, `"error"`) for the rule
/// `rule`.
pub fn parse_severity(rule: &str, value: &str) -> (r: Result<RuleSeverity, String>)
    ensures
        r matches Ok(s) ==> severity_named(value@) == Some(s),
        r matches Err(m) ==> severity_named(value@) is None && m@ == severity_message(rule@, value@),
{
    if str_eq(value, "off") {
        Ok(RuleSeverity::Off)
    } else if str_eq(value, "warn") {
        Ok(RuleSeverity::Warn)
    } else if str_eq(value, "error") {
        Ok(RuleSeverity::Error)
    } else {
        let mut m: Vec<char> = Vec::new();
        push_str(&mut m, "rule `");
        push_str(&mut m, rule);
        push_str(&mut m, "` has invalid severity `");
        push_str(&mut m, value);
        push_str(&mut m, "` (expected \"off\", \"warn\", or \"error\")");
        assert(m@ =~= severity_message(rule@, value@));
        Err(string_of(&m))
    }
}

/// The indent style a keyword names.
pub open spec fn style_named(s: Seq<char>) -> Option<IndentStyle> {
    if s == "space"@ {
        Some(IndentStyle::Space)
    } else if s == "tab"@ {
        Some(IndentStyle::Tab)
    } else {
        None
    }
}

/// The complaint about a bad indent style.
pub open spec fn style_message(value: Seq<char>) -> Seq<char> {
    "invalid indentStyle `"@ + value + "` (expected \"space\" or \"tab\")"@
}

/// `v`, or `d` when unset.
pub open spec fn or_keep<T>(v: Option<T>, d: T) -> T {
    match v {
        Some(x) => x,
        None => d,
    }
}

/// `base` with the indent style and every plain (unvalidated) key of `rc`
/// that is set laid over it. `style` is the style the indent-style key
/// names, when it is set.
pub open spec fn plain_overlay(rc: RcOptions, base: FormatOptions, style: Option<IndentStyle>) -> FormatOptions {
    FormatOptions {
        indent_style: or_keep(style, base.indent_style),
        indent_width: or_keep(rc.indent_width, base.indent_width),
        comma_spacing: or_keep(rc.comma_spacing, base.comma_spacing),
        final_newline: or_keep(rc.final_newline, base.final_newline),
        indent_directives: or_keep(rc.indent_directives, base.indent_directives),
        align_continuations: or_keep(rc.align_continuations, base.align_continuations),
        data_per_line: or_keep(rc.data_per_line, base.data_per_line),
        respect_stride_hints: or_keep(rc.respect_stride_hints, base.respect_stride_hints),
        blank_line_after_return: or_keep(rc.blank_line_after_return, base.blank_line_after_return),
        max_consecutive_blank_lines: or_keep(
            rc.max_consecutive_blank_lines,
            base.max_consecutive_blank_lines,
        ),
        ..base
    }
}

/// The outcome of laying `rc` over `base`, keys taken in order: the indent
/// style first (a bad one changes nothing), then the plain keys, then the
/// mnemonic case and the hex-digit case; a bad case stops there, with what
/// came before it already laid over. The result is the options afterwards
/// and the complaint, if any.
pub open spec fn overlay(rc: RcOptions, base: FormatOptions) -> (FormatOptions, Option<Seq<char>>) {
    let style_bad = match rc.indent_style {
        Some(s) => style_named(s@) is None,
        None => false,
    };
    if style_bad {
        (base, Some(style_message(rc.indent_style.unwrap()@)))
    } else {
        let style = match rc.indent_style {
            Some(s) => style_named(s@),
            None => None,
        };
        let b1 = plain_overlay(rc, base, style);
        match rc.mnemonic_case {
            Some(s) if case_named(s@) is None => (b1, Some(case_message("mnemonicCase"@, s@))),
            _ => {
                let b2 = FormatOptions {
                    mnemonic_case: match rc.mnemonic_case {
                        Some(s) => case_named(s@).unwrap(),
                        None => b1.mnemonic_case,
                    },
                    ..b1
                };
                match rc.hex_digit_case {
                    Some(s) if case_named(s@) is None => (
                        b2,
                        Some(case_message("hexDigitCase"@, s@)),
                    ),
                    Some(s) => (FormatOptions { hex_digit_case: case_named(s@).unwrap(), ..b2 }, None),
                    None => (b2, None),
                }
            },
        }
    }
}

/// `v`, or `d` when unset.
fn keep<T: Copy>(v: Option<T>, d: T) -> (r: T)
    ensures
        r == or_keep(v, d),
{
    match v {
        Some(x) => x,
        None => d,
    }
}

/// The indent style an optional keyword names: none when unset, an error
/// when it names none.
fn style_of(v: &Option<String>) -> (r: Result<Option<IndentStyle>, String>)
    ensures
        v is None ==> r == Ok::<Option<IndentStyle>, String>(None),
        v matches Some(s) ==> match style_named(s@) {
            Some(st) => r == Ok::<Option<IndentStyle>, String>(Some(st)),
            None => r matches Err(m) && m@ == style_message(s@),
        },
{
    match v {
        Some(s) => {
            if str_eq(s.as_str(), "space") {
                Ok(Some(IndentStyle::Space))
            } else if str_eq(s.as_str(), "tab") {
                Ok(Some(IndentStyle::Tab))
            } else {
                let mut m: Vec<char> = Vec::new();
                push_str(&mut m, "invalid indentStyle `");
                push_str(&mut m, s.as_str());
                push_str(&mut m, "` (expected \"space\" or \"tab\")");
                assert(m@ =~= style_message(s@));
                Err(string_of(&m))
            }
        },
        None => Ok(None),
    }
}

/// A copy of an optional keyword.
fn copy_text(o: &Option<String>) -> (r: Option<String>)
    ensures
        r == *o,
{
    match o {
        Some(s) => Some(s.clone()),
        None => None,
    }
}

impl RcOptions {
    /// A copy of these options.
    pub fn clone_options(&self) -> (r: RcOptions)
        ensures
            r == *self,
    {
        RcOptions {
            indent_style: copy_text(&self.indent_style),
            indent_width: self.indent_width,
            comma_spacing: self.comma_spacing,
            final_newline: self.final_newline,
            indent_directives: self.indent_directives,
            align_continuations: self.align_continuations,
            data_per_line: self.data_per_line,
            respect_stride_hints: self.respect_stride_hints,
            blank_line_after_return: self.blank_line_after_return,
            max_consecutive_blank_lines: self.max_consecutive_blank_lines,
            mnemonic_case: copy_text(&self.mnemonic_case),
            hex_digit_case: copy_text(&self.hex_digit_case),
        }
    }

    /// `base` with the indent style `style` and the plain keys laid over.
    fn plain_over(&self, base: FormatOptions, style: Option<IndentStyle>) -> (r: FormatOptions)
        ensures
            r == plain_overlay(*self, base, style),
    {
        FormatOptions {
            indent_style: keep(style, base.indent_style),
            indent_width: keep(self.indent_width, base.indent_width),
            comma_spacing: keep(self.comma_spacing, base.comma_spacing),
            final_newline: keep(self.final_newline, base.final_newline),
            indent_directives: keep(self.indent_directives, base.indent_directives),
            align_continuations: keep(self.align_continuations, base.align_continuations),
            data_per_line: keep(self.data_per_line, base.data_per_line),
            respect_stride_hints: keep(self.respect_stride_hints, base.respect_stride_hints),
            blank_line_after_return: keep(self.blank_line_after_return, base.blank_line_after_return),
            max_consecutive_blank_lines: keep(
                self.max_consecutive_blank_lines,
                base.max_consecutive_blank_lines,
            ),
            ..base
        }
    }

    /// Lay the set formatting keys over `base`, validating the enumerated
    /// ones.
    pub fn apply(&self, base: &mut FormatOptions) -> (r: Result<(), String>)
        ensures
            *final(base) == overlay(*self, *old(base)).0,
            r is Ok <==> overlay(*self, *old(base)).1 is None,
            r matches Err(m) ==> overlay(*self, *old(base)).1 == Some(m@),
    {
        let style = match style_of(&self.indent_style) {
            Ok(st) => st,
            Err(e) => return Err(e),
        };
        *base = self.plain_over(*base, style);
        if let Some(s) = &self.mnemonic_case {
            match parse_case("mnemonicCase", s.as_str()) {
                Ok(c) => base.mnemonic_case = c,
                Err(e) => return Err(e),
            }
        }
        if let Some(s) = &self.hex_digit_case {
            match parse_case("hexDigitCase", s.as_str()) {
                Ok(c) => base.hex_digit_case = c,
                Err(e) => return Err(e),
            }
        }
        Ok(())
    }
}

} // verus!
