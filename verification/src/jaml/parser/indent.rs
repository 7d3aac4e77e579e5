//! Indentation tracking: the first indented line of a document fixes the
//! unit, and every later line is measured in it.

use vstd::prelude::*;
use crate::error::{Error, ErrorModel};
use crate::text::{chars_of, has_char, string_of};

verus! {

/// The indentation unit of a document: so many spaces, or so many tabs, per
/// level.
#[derive(Debug, Clone, Copy, PartialEq, Eq, Structural)]
pub enum Style {
    Spaces(usize),
    Tabs(usize),
}

/// A text made of `n` copies of `unit`.
pub open spec fn repeated(unit: Seq<char>, n: nat) -> Seq<char>
    decreases n,
{
    if n == 0 {
        Seq::empty()
    } else {
        repeated(unit, (n - 1) as nat) + unit
    }
}

/// How an indentation unit is shown in messages: its characters between
/// double quotes, each tab written as `\t`.
pub open spec fn style_text(style: Style) -> Seq<char> {
    match style {
        Style::Spaces(n) => seq!['"'] + repeated(seq![' '], n as nat) + seq!['"'],
        Style::Tabs(n) => seq!['"'] + repeated(seq!['\\', 't'], n as nat) + seq!['"'],
    }
}

impl Style {
    /// The unit as it is shown in messages.
    pub fn describe(&self) -> (r: String)
        ensures
            r@ == style_text(*self),
    {
        let mut out: Vec<char> = Vec::new();
        out.push('"');
        let (count, tabs) = match self {
            Style::Spaces(n) => (*n, false),
            Style::Tabs(n) => (*n, true),
        };
        let ghost unit = if tabs {
            seq!['\\', 't']
        } else {
            seq![' ']
        };
        let mut i: usize = 0;
        assert(out@ =~= seq!['"'] + repeated(unit, 0));
        while i < count
            invariant
                i <= count,
                unit == (if tabs {
                    seq!['\\', 't']
                } else {
                    seq![' ']
                }),
                out@ == seq!['"'] + repeated(unit, i as nat),
            decreases count - i,
        {
            if tabs {
                out.push('\\');
                out.push('t');
            } else {
                out.push(' ');
            }
            i += 1;
            assert(out@ =~= seq!['"'] + repeated(unit, i as nat));
        }
        out.push('"');
        string_of(&out)
    }
}

/// Measures indentation against the unit that the first indented line set.
#[derive(Debug)]
pub struct Tracker {
    style: Option<Style>,
}

impl View for Tracker {
    type V = Option<Style>;

    closed spec fn view(&self) -> Option<Style> {
        self.style
    }
}

/// Whether a tracker state is usable: an established unit is never zero.
pub open spec fn style_wf(style: Option<Style>) -> bool {
    match style {
        None => true,
        Some(Style::Spaces(n)) => n > 0,
        Some(Style::Tabs(n)) => n > 0,
    }
}

/// The level that an indent has under a tracker state, or the error it gives.
pub open spec fn measured(style: Option<Style>, indent: Seq<char>) -> Result<int, ErrorModel> {
    let has_spaces = indent.contains(' ');
    let has_tabs = indent.contains('\t');
    if indent.len() == 0 {
        Ok(0)
    } else if has_spaces && has_tabs {
        Err(ErrorModel::MixedIndent(indent))
    } else {
        match style {
            None => Ok(1),
            Some(Style::Spaces(unit)) => {
                if has_tabs {
                    Err(
                        ErrorModel::InconsistentIndentStyle(
                            Style::Spaces(unit),
                            Style::Tabs(indent.len() as usize),
                        ),
                    )
                } else if indent.len() % (unit as nat) != 0 {
                    Err(ErrorModel::InvalidIndentCount(Style::Spaces(unit), indent.len() as int))
                } else {
                    Ok(indent.len() as int / unit as int)
                }
            },
            Some(Style::Tabs(unit)) => {
                if has_spaces {
                    Err(
                        ErrorModel::InconsistentIndentStyle(
                            Style::Tabs(unit),
                            Style::Spaces(indent.len() as usize),
                        ),
                    )
                } else if indent.len() % (unit as nat) != 0 {
                    Err(ErrorModel::InvalidIndentCount(Style::Tabs(unit), indent.len() as int))
                } else {
                    Ok(indent.len() as int / unit as int)
                }
            },
        }
    }
}

/// The tracker state after an indent was measured: the first indent that is
/// not empty and not mixed sets the unit, and nothing changes it afterwards.
pub open spec fn established(style: Option<Style>, indent: Seq<char>) -> Option<Style> {
    let has_spaces = indent.contains(' ');
    let has_tabs = indent.contains('\t');
    if indent.len() == 0 || (has_spaces && has_tabs) || style.is_some() {
        style
    } else if has_tabs {
        Some(Style::Tabs(indent.len() as usize))
    } else {
        Some(Style::Spaces(indent.len() as usize))
    }
}

/// The view of the outcome of a measurement.
pub open spec fn level_result(r: Result<usize, Error>) -> Result<int, ErrorModel> {
    match r {
        Ok(level) => Ok(level as int),
        Err(e) => Err(e@),
    }
}

impl Tracker {
    /// Whether the tracker's unit, if it has one, is not zero.
    pub open spec fn wf(&self) -> bool {
        style_wf(self@)
    }

    /// A tracker with no unit established.
    pub fn new() -> (r: Self)
        ensures
            r@.is_none(),
            r.wf(),
    {
        Tracker { style: None }
    }

    /// Measures one line's indentation, given as the characters of the
    /// indent, and returns its level. The first indent that is not empty
    /// sets the unit and has level 1.
    pub fn validate_chars(&mut self, indent: &Vec<char>) -> (r: Result<usize, Error>)
        requires
            old(self).wf(),
        ensures
            level_result(r) == measured(old(self)@, indent@),
            final(self)@ == established(old(self)@, indent@),
            final(self).wf(),
    {
        if indent.len() == 0 {
            return Ok(0);
        }
        let has_spaces = has_char(indent, ' ');
        let has_tabs = has_char(indent, '\t');
        if has_spaces && has_tabs {
            return Err(Error::MixedIndent(string_of(indent)));
        }
        match self.style {
            None => {
                if has_tabs {
                    self.style = Some(Style::Tabs(indent.len()));
                } else {
                    self.style = Some(Style::Spaces(indent.len()));
                }
                Ok(1)
            },
            Some(Style::Spaces(unit)) => {
                if has_tabs {
                    return Err(
                        Error::InconsistentIndentStyle(
                            Style::Spaces(unit),
                            Style::Tabs(indent.len()),
                        ),
                    );
                }
                let count = indent.len();
                if count % unit != 0 {
                    return Err(Error::InvalidIndentCount(Style::Spaces(unit), count));
                }
                Ok(count / unit)
            },
            Some(Style::Tabs(unit)) => {
                if has_spaces {
                    return Err(
                        Error::InconsistentIndentStyle(
                            Style::Tabs(unit),
                            Style::Spaces(indent.len()),
                        ),
                    );
                }
                let count = indent.len();
                if count % unit != 0 {
                    return Err(Error::InvalidIndentCount(Style::Tabs(unit), count));
                }
                Ok(count / unit)
            },
        }
    }

    /// Measures one line's indentation and returns its level.
    ///
    /// An empty indent has level 0. An indent that mixes spaces and tabs is
    /// an error. The first other indent sets the unit (its length and its
    /// character) and has level 1. Every later indent must be made of the
    /// same character and be a whole multiple of the unit long; its level is
    /// that multiple.
    pub fn validate(&mut self, indent_str: &str) -> (r: Result<usize, Error>)
        requires
            old(self).wf(),
        ensures
            level_result(r) == measured(old(self)@, indent_str@),
            final(self)@ == established(old(self)@, indent_str@),
            final(self).wf(),
    {
        let indent = chars_of(indent_str);
        self.validate_chars(&indent)
    }
}

} // verus!
