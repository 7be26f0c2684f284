//! Nations as the ranked census lists them, and the pages it is read in.

use vstd::prelude::*;

verus! {

/// Number of nations on one page of the census.
pub const PAGE_SIZE: usize = 20;

/// One line of the ranked census.
#[derive(Clone, Debug, PartialEq, Eq)]
pub struct RankedNation {
    /// Canonical name of the nation.
    pub name: String,
    /// Place in the census, counted from one.
    pub rank: u32,
    /// Number of endorsements the nation holds.
    pub score: u32,
}

/// A line of the census as a mathematical value.
pub struct Nation {
    pub name: Seq<char>,
    pub rank: u32,
    pub score: u32,
}

impl View for RankedNation {
    type V = Nation;

    open spec fn view(&self) -> Nation {
        Nation { name: self.name@, rank: self.rank, score: self.score }
    }
}

impl DeepView for RankedNation {
    type V = Nation;

    open spec fn deep_view(&self) -> Nation {
        self@
    }
}

impl RankedNation {
    /// The line of the census for `name` at `rank` with `score`.
    pub fn new(name: String, rank: u32, score: u32) -> (nation: RankedNation)
        ensures
            nation@ == (Nation { name: name@, rank, score }),
    {
        RankedNation { name, rank, score }
    }

    /// A second nation with the same name, rank and score.
    pub fn duplicate(&self) -> (copy: RankedNation)
        ensures
            copy@ == self@,
    {
        RankedNation { name: self.name.clone(), rank: self.rank, score: self.score }
    }
}

/// The names of a run of census lines, in the same order.
pub open spec fn names_of(nations: Seq<Nation>) -> Seq<Seq<char>> {
    nations.map_values(|n: Nation| n.name)
}

/// The page that a listing stands for: its first `page_size` lines, or all
/// of them where it has fewer. A page is therefore never longer than
/// `page_size`, and never longer than the listing the service sent.
pub fn census_page(listing: Vec<RankedNation>, page_size: usize) -> (page: Vec<RankedNation>)
    ensures
        page.deep_view() == listing.deep_view().take(
            if listing.len() <= page_size {
                listing.len() as int
            } else {
                page_size as int
            },
        ),
        page.len() <= page_size,
        page.len() <= listing.len(),
{
    let mut page = listing;
    page.truncate(page_size);
    assert(page.deep_view() =~= listing.deep_view().take(
        if listing.len() <= page_size {
            listing.len() as int
        } else {
            page_size as int
        },
    ));
    page
}

/// Whether `name` is one of `names`.
pub fn contains_name(names: &Vec<String>, name: &String) -> (found: bool)
    ensures
        found == names.deep_view().contains(name@),
{
    let mut i: usize = 0;
    while i < names.len()
        invariant
            i <= names.len(),
            forall|j: int| 0 <= j < i ==> names.deep_view()[j] != name@,
        decreases names.len() - i,
    {
        if names[i] == *name {
            assert(names.deep_view()[i as int] == name@);
            return true;
        }
        i += 1;
    }
    false
}

/// A second list with the same names in the same order.
pub fn clone_names(names: &Vec<String>) -> (copy: Vec<String>)
    ensures
        copy.deep_view() == names.deep_view(),
{
    let mut copy: Vec<String> = Vec::new();
    let mut i: usize = 0;
    while i < names.len()
        invariant
            i <= names.len(),
            copy.len() == i,
            forall|j: int| 0 <= j < i ==> copy.deep_view()[j] == names.deep_view()[j],
        decreases names.len() - i,
    {
        copy.push(names[i].clone());
        i += 1;
    }
    assert(copy.deep_view() =~= names.deep_view());
    copy
}

} // verus!
