//! The decisions of the command-line front end: what was asked for, which
//! fields to edit, whether a clear was confirmed, and the tags being entered.

use vstd::prelude::*;
use crate::mark::texts;
use crate::picker::{shell_words, split_words, words_view};

verus! {

/// What a run was asked to do.
#[derive(Debug, Clone, Copy, PartialEq, Eq, Structural)]
pub enum Operation {
    /// Pick a mark and delete it.
    Delete,
    /// Pick a mark and edit its fields.
    Update,
    /// Enter a new mark.
    Add,
    /// Delete every mark, once confirmed.
    Clear,
    /// Pick a mark and open its target.
    Open,
    /// Pick a mark and print it.
    Show,
    /// Print every mark.
    ShowAll,
}

/// The command line of a run: the operation and the settings given there.
pub struct StartArgs {
    pub operation: Operation,
    pub config_path: Option<String>,
    pub database_path: Option<String>,
    pub dmenu_command: Option<String>,
    pub dmenu_mark_arguments: Option<String>,
    pub dmenu_tag_arguments: Option<String>,
}

/// A part of a mark to edit.
#[derive(Debug, Clone, Copy, PartialEq, Eq, Structural)]
pub enum UpdateField {
    Name,
    Description,
    Url,
    Application,
    AddTags,
    RemoveTags,
}

/// The field that a menu letter stands for.
pub open spec fn field_of(c: char) -> Option<UpdateField> {
    if c == 'n' {
        Some(UpdateField::Name)
    } else if c == 'd' {
        Some(UpdateField::Description)
    } else if c == 'u' {
        Some(UpdateField::Url)
    } else if c == 'a' {
        Some(UpdateField::Application)
    } else if c == '+' {
        Some(UpdateField::AddTags)
    } else if c == '-' {
        Some(UpdateField::RemoveTags)
    } else {
        None
    }
}

/// The fields that the letters of a menu answer stand for, in order; other
/// characters are ignored.
pub open spec fn menu_fields(s: Seq<char>) -> Seq<UpdateField>
    decreases s.len(),
{
    if s.len() == 0 {
        Seq::empty()
    } else {
        let r = menu_fields(s.drop_last());
        match field_of(s.last()) {
            Some(f) => r.push(f),
            None => r,
        }
    }
}

fn letter_field(c: char) -> (r: Option<UpdateField>)
    ensures
        r == field_of(c),
{
    if c == 'n' {
        Some(UpdateField::Name)
    } else if c == 'd' {
        Some(UpdateField::Description)
    } else if c == 'u' {
        Some(UpdateField::Url)
    } else if c == 'a' {
        Some(UpdateField::Application)
    } else if c == '+' {
        Some(UpdateField::AddTags)
    } else if c == '-' {
        Some(UpdateField::RemoveTags)
    } else {
        None
    }
}

/// The fields to edit, from the letters of the menu answer `line`.
pub fn parse_update_menu(line: &str) -> (r: Vec<UpdateField>)
    ensures
        r@ == menu_fields(line@),
{
    let n = line.unicode_len();
    let mut out: Vec<UpdateField> = Vec::new();
    let mut i: usize = 0;
    assert(line@.subrange(0, 0) =~= Seq::<char>::empty());
    while i < n
        invariant
            n == line@.len(),
            i <= n,
            out@ == menu_fields(line@.subrange(0, i as int)),
        decreases n - i,
    {
        let c = line.get_char(i);
        assert(line@.subrange(0, i + 1).drop_last() =~= line@.subrange(0, i as int));
        match letter_field(c) {
            Some(f) => {
                out.push(f);
            },
            None => {},
        }
        i = i + 1;
    }
    assert(line@.subrange(0, n as int) =~= line@);
    out
}

/// An answer to "clear every mark?".
#[derive(Debug, Clone, Copy, PartialEq, Eq, Structural)]
pub enum Confirmation {
    Yes,
    No,
    /// The answer is neither: ask again.
    Again,
}

/// The answer given by the words of a line: one word of one letter, `y` or
/// `Y` for yes, `n` or `N` for no; anything else (or invalid quoting) asks again.
pub open spec fn confirmation_of(words: Option<Seq<Seq<char>>>) -> Confirmation {
    match words {
        Some(w) => if w.len() == 1 && w[0].len() == 1 {
            if w[0][0] == 'y' || w[0][0] == 'Y' {
                Confirmation::Yes
            } else if w[0][0] == 'n' || w[0][0] == 'N' {
                Confirmation::No
            } else {
                Confirmation::Again
            }
        } else {
            Confirmation::Again
        },
        None => Confirmation::Again,
    }
}

/// The answer given by the words of a line (`None`: invalid quoting).
pub fn confirmation_from_words(words: Option<Vec<String>>) -> (r: Confirmation)
    ensures
        r == confirmation_of(words_view(words)),
{
    match words {
        Some(w) => {
            if w.len() != 1 {
                return Confirmation::Again;
            }
            let word = w[0].as_str();
            if word.unicode_len() != 1 {
                return Confirmation::Again;
            }
            let c = word.get_char(0);
            assert(texts(w@)[0] == w@[0]@);
            if c == 'y' || c == 'Y' {
                Confirmation::Yes
            } else if c == 'n' || c == 'N' {
                Confirmation::No
            } else {
                Confirmation::Again
            }
        },
        None => Confirmation::Again,
    }
}

/// The answer given by `line`, split into words by shell quoting rules.
pub fn parse_confirmation(line: &str) -> (r: Confirmation)
    ensures
        r == confirmation_of(shell_words(line@)),
{
    confirmation_from_words(split_words(line))
}

/// Adds `tag` to the tags being entered for a mark, unless it is there
/// already; tells whether it was added.
pub fn add_tag(tags: &mut Vec<String>, tag: String) -> (r: bool)
    ensures
        r == !texts(old(tags)@).contains(tag@),
        r ==> texts(final(tags)@) == texts(old(tags)@).push(tag@),
        !r ==> final(tags)@ == old(tags)@,
        texts(old(tags)@).no_duplicates() ==> texts(final(tags)@).no_duplicates(),
{
    let mut i: usize = 0;
    while i < tags.len()
        invariant
            i <= tags@.len(),
            forall|j: int| 0 <= j < i ==> tags@[j]@ != tag@,
        decreases tags@.len() - i,
    {
        if tags[i] == tag {
            assert(texts(tags@)[i as int] == tag@);
            return false;
        }
        i = i + 1;
    }
    let ghost before = tags@;
    tags.push(tag);
    assert(texts(tags@) =~= texts(before).push(tag@));
    true
}

} // verus!
