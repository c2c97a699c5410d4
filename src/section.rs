//! Sections of the to-do list.
use vstd::prelude::*;

use crate::text::{lower_of, lowercase};

verus! {

/// A section of the to-do list: the default `dump` or one named by the user.
#[derive(Clone, Debug, PartialEq, Eq, Hash)]
pub enum Section {
    Dump,
    Custom(String),
}

/// The section a lowercased name stands for: the empty name and `dump` are
/// the default section.
pub open spec fn names_dump(lower: Seq<char>) -> bool {
    lower.len() == 0 || lower == "dump"@
}

/// What identifies a section: nothing for the default one, else its name.
pub open spec fn section_id(s: Section) -> Option<Seq<char>> {
    match s {
        Section::Dump => None,
        Section::Custom(n) => Some(n@),
    }
}

/// The section a name stands for, compared without regard to case.
pub open spec fn id_of_name(name: Seq<char>) -> Option<Seq<char>> {
    if names_dump(lower_of(name)) {
        None
    } else {
        Some(lower_of(name))
    }
}

/// The section an optional name stands for: none is the default section.
pub open spec fn option_section_id(name: Option<&str>) -> Option<Seq<char>> {
    match name {
        None => None,
        Some(n) => id_of_name(n@),
    }
}

impl Section {
    /// The section for a name that is already lowercase.
    pub fn from_lowercase(lower: String) -> (r: Section)
        ensures
            names_dump(lower@) ==> r is Dump,
            !names_dump(lower@) ==> r is Custom && r->Custom_0@ == lower@,
    {
        if lower.as_str().is_empty() || lower == "dump".to_owned() {
            Section::Dump
        } else {
            Section::Custom(lower)
        }
    }

    /// The section a name stands for, compared without regard to case.
    pub fn parse(name: &str) -> (r: Section)
        ensures
            names_dump(lower_of(name@)) ==> r is Dump,
            !names_dump(lower_of(name@)) ==> r is Custom && r->Custom_0@ == lower_of(name@),
            section_id(r) == id_of_name(name@),
    {
        Section::from_lowercase(lowercase(name))
    }

    /// A copy of the section.
    pub fn copy(&self) -> (r: Section)
        ensures
            section_id(r) == section_id(*self),
    {
        match self {
            Section::Dump => Section::Dump,
            Section::Custom(x) => Section::Custom(x.clone()),
        }
    }

    /// Whether two sections are the same.
    pub fn same(&self, other: &Section) -> (r: bool)
        ensures
            r == (section_id(*self) == section_id(*other)),
    {
        match (self, other) {
            (Section::Dump, Section::Dump) => true,
            (Section::Custom(a), Section::Custom(b)) => *a == *b,
            _ => false,
        }
    }

    /// The section for an optional name: none is the default section.
    pub fn from_option(name: Option<&str>) -> (r: Section)
        ensures
            name is None ==> r is Dump,
            name is Some ==> (names_dump(lower_of(name->Some_0@)) ==> r is Dump),
            name is Some ==> (!names_dump(lower_of(name->Some_0@)) ==> r is Custom
                && r->Custom_0@ == lower_of(name->Some_0@)),
            section_id(r) == option_section_id(name),
    {
        match name {
            None => Section::Dump,
            Some(n) => Section::parse(n),
        }
    }

    /// The section's name: `dump` for the default one.
    pub fn name(&self) -> (r: String)
        ensures
            self is Dump ==> r@ == "dump"@,
            self is Custom ==> r@ == self->Custom_0@,
    {
        match self {
            Section::Dump => "dump".to_owned(),
            Section::Custom(x) => x.clone(),
        }
    }
}

impl std::default::Default for Section {
    fn default() -> (r: Section)
        ensures
            r is Dump,
    {
        Section::Dump
    }
}

} // verus!
