//! Pronouns, for the words that expander nodes make.

use vstd::prelude::*;

verus! {

/// The pronouns by which someone or something is spoken of.
#[derive(Debug, Clone, Copy, PartialEq, Eq, Structural)]
pub enum SingularPronouns {
    /// The speaker.
    IMeMine,
    /// The speaker among others.
    WeUsOurs,
    /// He, him, his.
    HeHimHis,
    /// They, them, theirs, of one person.
    TheyThemTheirs,
    /// She, her, hers.
    SheHerHers,
    /// It, it, its.
    ItItIts,
    /// They, them, theirs, of several.
    Plural,
    /// The one spoken to.
    SecondPerson,
    /// Who, of a person that is asked for.
    InterrogativePersonal,
    /// What, of a thing that is asked for.
    InterrogativeNonpersonal,
}

impl SingularPronouns {
    /// The pronoun as the subject of a sentence: "he", "they", "she".
    pub open spec fn nominative_word(self) -> Seq<char> {
        match self {
            SingularPronouns::IMeMine => "I"@,
            SingularPronouns::WeUsOurs => "we"@,
            SingularPronouns::HeHimHis => "he"@,
            SingularPronouns::TheyThemTheirs | SingularPronouns::Plural => "they"@,
            SingularPronouns::SheHerHers => "she"@,
            SingularPronouns::ItItIts => "it"@,
            SingularPronouns::SecondPerson => "you"@,
            SingularPronouns::InterrogativePersonal => "who"@,
            SingularPronouns::InterrogativeNonpersonal => "what"@,
        }
    }

    /// The pronoun as the subject of a sentence: "he", "they", "she".
    pub fn nominative(self) -> (word: &'static str)
        ensures
            word@ == self.nominative_word(),
    {
        match self {
            SingularPronouns::IMeMine => "I",
            SingularPronouns::WeUsOurs => "we",
            SingularPronouns::HeHimHis => "he",
            SingularPronouns::TheyThemTheirs | SingularPronouns::Plural => "they",
            SingularPronouns::SheHerHers => "she",
            SingularPronouns::ItItIts => "it",
            SingularPronouns::SecondPerson => "you",
            SingularPronouns::InterrogativePersonal => "who",
            SingularPronouns::InterrogativeNonpersonal => "what",
        }
    }

    /// The pronoun as the object of a sentence: "him", "them", "her".
    pub open spec fn accusative_word(self) -> Seq<char> {
        match self {
            SingularPronouns::IMeMine => "me"@,
            SingularPronouns::WeUsOurs => "we"@,
            SingularPronouns::HeHimHis => "him"@,
            SingularPronouns::TheyThemTheirs | SingularPronouns::Plural => "them"@,
            SingularPronouns::SheHerHers => "her"@,
            SingularPronouns::ItItIts => "it"@,
            SingularPronouns::SecondPerson => "you"@,
            SingularPronouns::InterrogativePersonal => "whom"@,
            SingularPronouns::InterrogativeNonpersonal => "what"@,
        }
    }

    /// The pronoun as the object of a sentence: "him", "them", "her".
    pub fn accusative(self) -> (word: &'static str)
        ensures
            word@ == self.accusative_word(),
    {
        match self {
            SingularPronouns::IMeMine => "me",
            SingularPronouns::WeUsOurs => "we",
            SingularPronouns::HeHimHis => "him",
            SingularPronouns::TheyThemTheirs | SingularPronouns::Plural => "them",
            SingularPronouns::SheHerHers => "her",
            SingularPronouns::ItItIts => "it",
            SingularPronouns::SecondPerson => "you",
            SingularPronouns::InterrogativePersonal => "whom",
            SingularPronouns::InterrogativeNonpersonal => "what",
        }
    }

    /// The pronoun that refers back to the subject.
    pub open spec fn reflexive_word(self) -> Seq<char> {
        match self {
            SingularPronouns::IMeMine => "mine"@,
            SingularPronouns::WeUsOurs => "we"@,
            SingularPronouns::HeHimHis => "his"@,
            SingularPronouns::TheyThemTheirs | SingularPronouns::InterrogativePersonal => "themself"@,
            SingularPronouns::SheHerHers => "her"@,
            SingularPronouns::ItItIts | SingularPronouns::InterrogativeNonpersonal => "itself"@,
            SingularPronouns::Plural => "themselves"@,
            SingularPronouns::SecondPerson => "yourself"@,
        }
    }

    /// The pronoun that refers back to the subject.
    pub fn reflexive(self) -> (word: &'static str)
        ensures
            word@ == self.reflexive_word(),
    {
        match self {
            SingularPronouns::IMeMine => "mine",
            SingularPronouns::WeUsOurs => "we",
            SingularPronouns::HeHimHis => "his",
            SingularPronouns::TheyThemTheirs | SingularPronouns::InterrogativePersonal => "themself",
            SingularPronouns::SheHerHers => "her",
            SingularPronouns::ItItIts | SingularPronouns::InterrogativeNonpersonal => "itself",
            SingularPronouns::Plural => "themselves",
            SingularPronouns::SecondPerson => "yourself",
        }
    }

    /// The possessive that stands before a noun: "his", "their", "her".
    pub open spec fn dep_genitive_word(self) -> Seq<char> {
        match self {
            SingularPronouns::IMeMine => "my"@,
            SingularPronouns::WeUsOurs => "our"@,
            SingularPronouns::HeHimHis => "his"@,
            SingularPronouns::TheyThemTheirs | SingularPronouns::Plural => "their"@,
            SingularPronouns::SheHerHers => "her"@,
            SingularPronouns::ItItIts | SingularPronouns::InterrogativeNonpersonal => "its"@,
            SingularPronouns::SecondPerson => "your"@,
            SingularPronouns::InterrogativePersonal => "whose"@,
        }
    }

    /// The possessive that stands before a noun: "his", "their", "her".
    pub fn dep_genitive(self) -> (word: &'static str)
        ensures
            word@ == self.dep_genitive_word(),
    {
        match self {
            SingularPronouns::IMeMine => "my",
            SingularPronouns::WeUsOurs => "our",
            SingularPronouns::HeHimHis => "his",
            SingularPronouns::TheyThemTheirs | SingularPronouns::Plural => "their",
            SingularPronouns::SheHerHers => "her",
            SingularPronouns::ItItIts | SingularPronouns::InterrogativeNonpersonal => "its",
            SingularPronouns::SecondPerson => "your",
            SingularPronouns::InterrogativePersonal => "whose",
        }
    }

    /// The possessive that stands alone: "his", "theirs", "hers".
    pub open spec fn indep_genitive_word(self) -> Seq<char> {
        match self {
            SingularPronouns::IMeMine => "mine"@,
            SingularPronouns::WeUsOurs => "ours"@,
            SingularPronouns::HeHimHis => "his"@,
            SingularPronouns::TheyThemTheirs | SingularPronouns::Plural => "theirs"@,
            SingularPronouns::SheHerHers => "hers"@,
            SingularPronouns::ItItIts | SingularPronouns::InterrogativeNonpersonal => "its"@,
            SingularPronouns::SecondPerson => "yours"@,
            SingularPronouns::InterrogativePersonal => "whose"@,
        }
    }

    /// The possessive that stands alone: "his", "theirs", "hers".
    pub fn indep_genitive(self) -> (word: &'static str)
        ensures
            word@ == self.indep_genitive_word(),
    {
        match self {
            SingularPronouns::IMeMine => "mine",
            SingularPronouns::WeUsOurs => "ours",
            SingularPronouns::HeHimHis => "his",
            SingularPronouns::TheyThemTheirs | SingularPronouns::Plural => "theirs",
            SingularPronouns::SheHerHers => "hers",
            SingularPronouns::ItItIts | SingularPronouns::InterrogativeNonpersonal => "its",
            SingularPronouns::SecondPerson => "yours",
            SingularPronouns::InterrogativePersonal => "whose",
        }
    }
}

} // verus!
