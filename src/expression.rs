//! Regular expressions with named capture groups, as the `regex` crate
//! compiles and runs them.
use vstd::prelude::*;
use regex::Regex;

verus! {

#[verifier::external_type_specification]
#[verifier::external_body]
pub struct ExRegex(regex::Regex);

#[verifier::external_type_specification]
#[verifier::external_body]
pub struct ExRegexError(regex::Error);

/// Whether the `regex` crate compiles `pattern` with its default settings.
pub uninterp spec fn regex_accepts(pattern: Seq<char>) -> bool;

/// The capture groups of `pattern`, each with its name or `None` where it
/// has none: first the group of the whole match, which has no name, then
/// the others in the order of their opening parentheses.
pub uninterp spec fn regex_group_names(pattern: Seq<char>) -> Seq<Option<Seq<char>>>;

/// The first match of `pattern` in `line`: `None` where there is no match,
/// else the text captured by each named group that took part in it.
pub uninterp spec fn regex_captures(pattern: Seq<char>, line: Seq<char>) -> Option<
    Map<Seq<char>, Seq<char>>,
>;

/// The text of an optional string.
pub open spec fn text_of(o: Option<String>) -> Option<Seq<char>> {
    match o {
        Some(s) => Some(s@),
        None => None,
    }
}

/// The entry of `m` at `key`, if it has one.
pub open spec fn lookup(m: Map<Seq<char>, Seq<char>>, key: Seq<char>) -> Option<Seq<char>> {
    if m.dom().contains(key) {
        Some(m[key])
    } else {
        None
    }
}

/// A compiled regular expression together with the text it was compiled
/// from; the only way to make one is [`Expression::compile`], which keeps
/// the two together.
pub struct Expression {
    source: String,
    compiled: Regex,
}

impl View for Expression {
    type V = Seq<char>;

    /// The text the expression was compiled from.
    closed spec fn view(&self) -> Seq<char> {
        self.source@
    }
}

impl Expression {
    /// Relies on `regex::Regex::new`: compiles `source`, or returns why the
    /// crate refuses it.
    #[verifier::external_body]
    pub(crate) fn compile(source: &String) -> (r: Result<Expression, regex::Error>)
        ensures
            r is Ok <==> regex_accepts(source@),
            r is Ok ==> r->Ok_0@ == source@,
    {
        Regex::new(source.as_str()).map(|compiled| Expression { source: source.clone(), compiled })
    }

    /// Relies on `regex::Regex::capture_names`: the name of every capture
    /// group, `None` for a group without one.
    #[verifier::external_body]
    pub(crate) fn group_names(&self) -> (r: Vec<Option<String>>)
        ensures
            r@.len() == regex_group_names(self@).len(),
            forall|i: int| 0 <= i < r@.len() ==> text_of(#[trigger] r@[i]) == regex_group_names(self@)[i],
    {
        self.compiled.capture_names().map(|n| n.map(String::from)).collect()
    }

    /// Relies on `regex::Regex::captures` and `regex::Captures::name`: on a
    /// match in `line`, the text that each group of `names` captured, `None`
    /// for a group that took no part.
    #[verifier::external_body]
    pub(crate) fn captures(&self, line: &str, names: &Vec<String>) -> (r: Option<Vec<Option<String>>>)
        ensures
            r is Some <==> regex_captures(self@, line@) is Some,
            r is Some ==> r->Some_0@.len() == names@.len(),
            r is Some ==> forall|i: int|
                0 <= i < names@.len() ==> text_of(#[trigger] r->Some_0@[i]) == lookup(
                    regex_captures(self@, line@)->Some_0,
                    names@[i]@,
                ),
    {
        self.compiled.captures(line).map(
            |caps| names.iter().map(|n| caps.name(n).map(|m| m.as_str().to_string())).collect(),
        )
    }
}

} // verus!
