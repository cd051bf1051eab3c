//! What is known of a character that takes part in a conversation.

use crate::grammar::SingularPronouns;
use vstd::prelude::*;
use vstd::string::*;

verus! {

/// The kind of music that a character likes best.
#[derive(Debug, Clone, Copy, PartialEq, Eq, Hash, Structural)]
pub enum FavMusicGenre {
    /// Jazz.
    Jazz,
    /// Rock.
    Rock,
    /// Metal.
    Metal,
    /// Calypso.
    Calypso,
}

/// The gender of a character.
#[derive(Debug, Clone, Copy, PartialEq, Eq, Structural)]
pub enum Gender {
    /// Masculine.
    Masculine,
    /// Nonbinary.
    Nonbinary,
    /// Feminine.
    Feminine,
}

impl Gender {
    /// The pronouns that go with the gender.
    pub open spec fn pronouns_of(self) -> SingularPronouns {
        match self {
            Gender::Masculine => SingularPronouns::HeHimHis,
            Gender::Nonbinary => SingularPronouns::TheyThemTheirs,
            Gender::Feminine => SingularPronouns::SheHerHers,
        }
    }

    /// The pronouns that go with the gender.
    pub fn pronouns(self) -> (pronouns: SingularPronouns)
        ensures
            pronouns == self.pronouns_of(),
    {
        match self {
            Gender::Masculine => SingularPronouns::HeHimHis,
            Gender::Nonbinary => SingularPronouns::TheyThemTheirs,
            Gender::Feminine => SingularPronouns::SheHerHers,
        }
    }
}

/// The name of a character.
#[derive(Debug, PartialEq, Eq)]
pub struct Name {
    /// The first name.
    pub first: &'static str,
    /// The middle name, if there is one.
    pub middle: Option<&'static str>,
    /// The last name.
    pub last: &'static str,
}

impl Name {
    /// The names in their order, with one space between two of them.
    pub open spec fn full_name_text(self) -> Seq<char> {
        match self.middle {
            Some(middle) => self.first@ + " "@ + middle@ + " "@ + self.last@,
            None => self.first@ + " "@ + self.last@,
        }
    }

    /// The names in their order, with one space between two of them.
    pub fn full_name(&self) -> (full: String)
        ensures
            full@ == self.full_name_text(),
    {
        let mut full = String::from_str(self.first);
        match self.middle {
            Some(middle) => {
                full.append(" ");
                full.append(middle);
            },
            None => {},
        }
        full.append(" ");
        full.append(self.last);
        full
    }
}

} // verus!
