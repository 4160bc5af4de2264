//! The configuration snapshot for one run: every formatting and routing
//! switch, resolved by the caller before any line is processed.
use vstd::prelude::*;

verus! {

/// Formatting and routing switches, immutable for the run.
///
/// `delimiter` is printed after every rendered field; `colour` wraps the
/// separator and delimiter in a highlight escape; `only_fix` drops non-message
/// lines; `repeating` folds repeating groups before rendering; `strict` treats
/// partial messages as ordinary text; `strip` drops the spaces around the `=`;
/// `summary` renders matching messages through its template instead of the
/// field list; `tag` translates tag numbers on non-message lines; `value`
/// translates coded field values.
pub struct Options {
    pub delimiter: String,
    pub colour: bool,
    pub only_fix: bool,
    pub repeating: bool,
    pub strict: bool,
    pub strip: bool,
    pub summary: Option<String>,
    pub tag: bool,
    pub value: bool,
}

/// The mathematical model of `Options`.
#[verifier::ext_equal]
pub ghost struct SpecOptions {
    pub delimiter: Seq<char>,
    pub colour: bool,
    pub only_fix: bool,
    pub repeating: bool,
    pub strict: bool,
    pub strip: bool,
    pub summary: Option<Seq<char>>,
    pub tag: bool,
    pub value: bool,
}

impl View for Options {
    type V = SpecOptions;

    open spec fn view(&self) -> SpecOptions {
        SpecOptions {
            delimiter: self.delimiter@,
            colour: self.colour,
            only_fix: self.only_fix,
            repeating: self.repeating,
            strict: self.strict,
            strip: self.strip,
            summary: match self.summary {
                Some(t) => Some(t@),
                Option::None => Option::None,
            },
            tag: self.tag,
            value: self.value,
        }
    }
}

} // verus!
