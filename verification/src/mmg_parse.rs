//! Lists of mod ids, as they stand in a file: one id on each line, with a
//! word behind it where the id is not one of Modrinth.

use crate::text::{find_char, position_of};
use vstd::prelude::*;
use vstd::string::StrSliceExecFns;

verus! {

/// The extension of the files that name a registry behind an id.
pub const FILE_EXT: &'static str = "mmg";

/// An id, together with the registry that it belongs to.
#[derive(Debug)]
pub enum IdType<'a> {
    Modrinth(&'a str),
    Curseforge(&'a str),
}

/// Mathematical value of an [`IdType`].
pub enum IdView {
    Modrinth(Seq<char>),
    Curseforge(Seq<char>),
}

impl<'a> View for IdType<'a> {
    type V = IdView;

    open spec fn view(&self) -> IdView {
        match *self {
            IdType::Modrinth(id) => IdView::Modrinth(id@),
            IdType::Curseforge(id) => IdView::Curseforge(id@),
        }
    }
}

/// Mathematical value of [`FileIDs`].
pub struct FileIDsView {
    pub modrinth: Option<Seq<Seq<char>>>,
    pub curseforge: Option<Seq<Seq<char>>>,
}

/// The ids of a file, sorted by registry. A registry without ids has no
/// list at all.
#[derive(Debug)]
pub struct FileIDs {
    modrinth: Option<Vec<String>>,
    curseforge: Option<Vec<String>>,
}

impl View for FileIDs {
    type V = FileIDsView;

    closed spec fn view(&self) -> FileIDsView {
        FileIDsView {
            modrinth: self.modrinth.deep_view(),
            curseforge: self.curseforge.deep_view(),
        }
    }
}

/// A list of ids as [`FileIDs`] holds it: none in place of an empty one.
pub open spec fn listed(ids: Seq<Seq<char>>) -> Option<Seq<Seq<char>>> {
    if ids.len() == 0 {
        None
    } else {
        Some(ids)
    }
}

impl FileIDs {
    pub fn build(modrinth_ids: Vec<String>, curse_ids: Vec<String>) -> (res: FileIDs)
        ensures
            res@ == (FileIDsView {
                modrinth: listed(modrinth_ids.deep_view()),
                curseforge: listed(curse_ids.deep_view()),
            }),
    {
        let modrinth = if modrinth_ids.len() == 0 {
            None
        } else {
            Some(modrinth_ids)
        };
        let curseforge = if curse_ids.len() == 0 {
            None
        } else {
            Some(curse_ids)
        };
        FileIDs { modrinth, curseforge }
    }

    pub fn build_modrinth_only(ids: Vec<String>) -> (res: FileIDs)
        ensures
            res@ == (FileIDsView { modrinth: listed(ids.deep_view()), curseforge: None }),
    {
        let modrinth = if ids.len() == 0 {
            None
        } else {
            Some(ids)
        };
        let curseforge = None;
        FileIDs { modrinth, curseforge }
    }

    pub fn modrinth(&self) -> (res: &Option<Vec<String>>)
        ensures
            res.deep_view() == self@.modrinth,
    {
        &self.modrinth
    }

    pub fn curseforge(&self) -> (res: &Option<Vec<String>>)
        ensures
            res.deep_view() == self@.curseforge,
    {
        &self.curseforge
    }
}

/// The text of a line up to its first blank: the id.
pub open spec fn first_word(line: Seq<char>) -> Seq<char> {
    line.take(position_of(line, ' '))
}

/// The text between the first blank of a line and the next one, if the line
/// has a blank.
pub open spec fn second_word(line: Seq<char>) -> Option<Seq<char>> {
    let blank = position_of(line, ' ');
    if blank < line.len() {
        let rest = line.skip(blank + 1);
        Some(rest.take(position_of(rest, ' ')))
    } else {
        None
    }
}

/// What a line says: its first word is the id, and the id is one of
/// Curseforge exactly when the second word is `-curse`.
pub open spec fn line_id(line: Seq<char>) -> IdView {
    if second_word(line) == Some("-curse"@) {
        IdView::Curseforge(first_word(line))
    } else {
        IdView::Modrinth(first_word(line))
    }
}

/// Reads one line of an id file. Every line gives an id, an empty one the
/// empty id.
pub fn parse_mmg_line<'a>(line: &'a String) -> (res: Option<IdType<'a>>)
    ensures
        res matches Some(id) && id@ == line_id(line@),
{
    let text: &'a str = line.as_str();
    let len = text.unicode_len();
    let blank = find_char(text, ' ');
    let id: &'a str = text.substring_char(0, blank);
    if blank < len {
        let rest: &'a str = text.substring_char(blank + 1, len);
        assert(rest@ =~= line@.skip(blank + 1));
        let end = find_char(rest, ' ');
        let val = rest.substring_char(0, end);
        if val.eq("-curse") {
            Some(IdType::Curseforge(id))
        } else {
            Some(IdType::Modrinth(id))
        }
    } else {
        Some(IdType::Modrinth(id))
    }
}

/// The ids of one registry among `lines`, in the order of the lines.
pub open spec fn ids_in(lines: Seq<Seq<char>>, curse: bool) -> Seq<Seq<char>>
    decreases lines.len(),
{
    if lines.len() == 0 {
        Seq::empty()
    } else {
        let before = ids_in(lines.drop_last(), curse);
        match line_id(lines.last()) {
            IdView::Modrinth(id) => if curse {
                before
            } else {
                before.push(id)
            },
            IdView::Curseforge(id) => if curse {
                before.push(id)
            } else {
                before
            },
        }
    }
}

/// Reads the lines of an id file in which a line may name its registry.
pub fn parse_ids(lines: &Vec<String>) -> (res: FileIDs)
    ensures
        res@ == (FileIDsView {
            modrinth: listed(ids_in(lines.deep_view(), false)),
            curseforge: listed(ids_in(lines.deep_view(), true)),
        }),
{
    let mut modrinth_ids: Vec<String> = Vec::new();
    let mut curse_ids: Vec<String> = Vec::new();
    let ghost all = lines.deep_view();
    let mut i: usize = 0;
    while i < lines.len()
        invariant
            i <= lines.len(),
            all == lines.deep_view(),
            modrinth_ids.deep_view() == ids_in(all.take(i as int), false),
            curse_ids.deep_view() == ids_in(all.take(i as int), true),
        decreases lines.len() - i,
    {
        let ghost modrinth_before = modrinth_ids.deep_view();
        let ghost curse_before = curse_ids.deep_view();
        assert(all.take(i + 1).drop_last() =~= all.take(i as int));
        assert(all.take(i + 1).last() == lines[i as int]@);
        match parse_mmg_line(&lines[i]) {
            Some(IdType::Modrinth(id)) => {
                modrinth_ids.push(id.to_owned());
                assert(modrinth_ids.deep_view() =~= modrinth_before.push(id@));
            },
            Some(IdType::Curseforge(id)) => {
                curse_ids.push(id.to_owned());
                assert(curse_ids.deep_view() =~= curse_before.push(id@));
            },
            None => {},
        }
        i += 1;
    }
    assert(all.take(lines.len() as int) =~= all);
    FileIDs::build(modrinth_ids, curse_ids)
}

/// Reads the lines of a plain id file: every line is an id of Modrinth.
pub fn parse_ids_txt(lines: Vec<String>) -> (res: FileIDs)
    ensures
        res@ == (FileIDsView { modrinth: listed(lines.deep_view()), curseforge: None }),
{
    FileIDs::build_modrinth_only(lines)
}

} // verus!
