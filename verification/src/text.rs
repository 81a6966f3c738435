//! The names under which goals, relations and statuses are exchanged as
//! text, and the text of a rational number.

use crate::model::Goal;
use crate::problem::Relation;
use crate::rational::Rational;
use crate::solver::Status;
use vstd::prelude::*;
use vstd::string::*;

verus! {

/// What `str::to_lowercase` makes of a text: every character in its lower
/// case, by the rules of Unicode.
pub uninterp spec fn lowercase(text: Seq<char>) -> Seq<char>;

/// What `i64::to_string` makes of a number: its decimal digits, after a
/// minus sign where it is negative.
pub uninterp spec fn decimal(n: int) -> Seq<char>;

/// `str::to_lowercase` of the standard library: the text in lower case.
#[verifier::external_body]
fn to_lowercase(text: &str) -> (lower: String)
    ensures
        lower@ == lowercase(text@),
{
    text.to_lowercase()
}

/// `i64::to_string` of the standard library: the number in decimal.
#[verifier::external_body]
fn to_decimal(n: i64) -> (digits: String)
    ensures
        digits@ == decimal(n as int),
{
    n.to_string()
}

/// Whether the text is the given word.
fn is_word(text: &str, word: &str) -> (b: bool)
    ensures
        b == (text@ == word@),
{
    text.to_owned() == word.to_owned()
}

impl Goal {
    /// The goal that a name in lower case stands for: `min` for minimising,
    /// anything else for maximising.
    pub fn from_lowercase(lower: &str) -> (goal: Goal)
        ensures
            goal == if lower@ == "min"@ {
                Goal::Min
            } else {
                Goal::Max
            },
    {
        if is_word(lower, "min") {
            Goal::Min
        } else {
            Goal::Max
        }
    }

    /// The goal that a name stands for, whatever its case.
    pub fn from_name(name: &str) -> (goal: Goal)
        ensures
            goal == if lowercase(name@) == "min"@ {
                Goal::Min
            } else {
                Goal::Max
            },
    {
        let lower = to_lowercase(name);
        Goal::from_lowercase(lower.as_str())
    }
}

/// The relation that a name stands for, if any: `<=` or `leq`, `>=` or
/// `geq`, and `=`, `==` or `eq`.
pub open spec fn relation_named(name: Seq<char>) -> Option<Relation> {
    if name == "<="@ || name == "leq"@ {
        Some(Relation::LessEqual)
    } else if name == ">="@ || name == "geq"@ {
        Some(Relation::GreaterEqual)
    } else if name == "="@ || name == "=="@ || name == "eq"@ {
        Some(Relation::Equal)
    } else {
        None
    }
}

impl Relation {
    /// The relation that a name stands for; `None` for an unknown name.
    pub fn from_name(name: &str) -> (relation: Option<Relation>)
        ensures
            relation == relation_named(name@),
    {
        if is_word(name, "<=") || is_word(name, "leq") {
            Some(Relation::LessEqual)
        } else if is_word(name, ">=") || is_word(name, "geq") {
            Some(Relation::GreaterEqual)
        } else if is_word(name, "=") || is_word(name, "==") || is_word(name, "eq") {
            Some(Relation::Equal)
        } else {
            None
        }
    }
}

impl Status {
    /// The name of the status.
    pub fn as_str(self) -> (name: &'static str)
        ensures
            name@ == match self {
                Status::InProgress => "in_progress"@,
                Status::Optimal => "optimal"@,
                Status::Infeasible => "infeasible"@,
                Status::Unbounded => "unbounded"@,
            },
    {
        match self {
            Status::InProgress => "in_progress",
            Status::Optimal => "optimal",
            Status::Infeasible => "infeasible",
            Status::Unbounded => "unbounded",
        }
    }
}

/// The text of a fraction from the texts of its parts: the numerator alone
/// for a whole number, else the numerator, a slash and the denominator.
pub fn fraction_text(numer: &str, denom: &str, whole: bool) -> (text: String)
    ensures
        text@ == if whole {
            numer@
        } else {
            numer@ + "/"@ + denom@
        },
{
    let mut text = numer.to_owned();
    if !whole {
        text.append("/");
        text.append(denom);
    }
    text
}

impl Rational {
    /// The number as text: a whole number as its integer, any other as
    /// `numerator/denominator`.
    pub fn to_text(&self) -> (text: String)
        ensures
            text@ == if self.denom_spec() == 1 {
                decimal(self.n())
            } else {
                decimal(self.n()) + "/"@ + decimal(self.d())
            },
    {
        let numer = to_decimal(self.numer());
        let denom = to_decimal(self.denom());
        fraction_text(numer.as_str(), denom.as_str(), self.denom() == 1)
    }
}

} // verus!
