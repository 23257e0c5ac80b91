//! Random names for new containers, from the `names` crate.

use vstd::prelude::*;

verus! {

#[verifier::external_type_specification]
#[verifier::external_body]
pub struct ExGenerator<'a>(names::Generator<'a>);

/// A word of the `names` crate's lists: lower-case letters and hyphens, not
/// empty, neither starting nor ending with a hyphen.
pub open spec fn is_word(w: Seq<char>) -> bool {
    &&& w.len() > 0
    &&& w[0] != '-'
    &&& w[w.len() - 1] != '-'
    &&& forall|i: int| 0 <= i < w.len() ==> ('a' <= #[trigger] w[i] <= 'z' || w[i] == '-')
}

/// `word` is one of the `names` crate's adjectives (`names::ADJECTIVES`).
pub uninterp spec fn listed_adjective(word: Seq<char>) -> bool;

/// `word` is one of the `names` crate's nouns (`names::NOUNS`).
pub uninterp spec fn listed_noun(word: Seq<char>) -> bool;

/// A name as the default generator makes it: one of its adjectives and one
/// of its nouns, joined by a hyphen.
pub open spec fn is_generated_name(s: Seq<char>) -> bool {
    exists|adjective: Seq<char>, noun: Seq<char>|
        listed_adjective(adjective) && listed_noun(noun) && is_word(adjective) && is_word(noun)
            && s == adjective + seq!['-'] + noun
}

/// `<[&str]>::contains` on `names::ADJECTIVES`: whether `word` is one of
/// the crate's adjectives.
#[verifier::external_body]
fn adjectives_contain(word: &str) -> (r: bool)
    ensures
        r == listed_adjective(word@),
{
    names::ADJECTIVES.contains(&word)
}

/// `<[&str]>::contains` on `names::NOUNS`: whether `word` is one of the
/// crate's nouns.
#[verifier::external_body]
fn nouns_contain(word: &str) -> (r: bool)
    ensures
        r == listed_noun(word@),
{
    names::NOUNS.contains(&word)
}

/// Whether `word` is one of the adjectives that random names start with.
pub fn is_adjective(word: &str) -> (r: bool)
    ensures
        r == listed_adjective(word@),
{
    adjectives_contain(word)
}

/// Whether `word` is one of the nouns that random names end with.
pub fn is_noun(word: &str) -> (r: bool)
    ensures
        r == listed_noun(word@),
{
    nouns_contain(word)
}

/// A source of random names.
pub struct RandomNames {
    generator: names::Generator<'static>,
}

/// `names::Generator::default`: a generator over the crate's own word lists
/// that makes plain ("adjective-noun") names.
#[verifier::external_body]
fn default_generator() -> names::Generator<'static> {
    names::Generator::default()
}

/// `Iterator::next` of `names::Generator`. The generator of a `RandomNames`
/// is always the default one, whose `next` returns `Some` of a word of
/// `names::ADJECTIVES`, a hyphen and a word of `names::NOUNS`; the words are
/// picked at random. Which of the listed words come out is not stated.
#[verifier::external_body]
fn next_name(names: &mut RandomNames) -> (r: Option<String>)
    ensures
        r is Some,
        r matches Some(s) ==> is_generated_name(s@),
{
    names.generator.next()
}

impl RandomNames {
    /// A source of random names over the default word lists.
    pub fn new() -> Self {
        RandomNames { generator: default_generator() }
    }

    /// A new random name.
    pub fn generate_random_name(&mut self) -> (name: String)
        ensures
            is_generated_name(name@),
    {
        next_name(self).unwrap()
    }
}

} // verus!
