//! Results of running a global regular expression over a text.
//!
//! The expression itself is run by the host. What comes back for one match is
//! the list of its elements: the whole matched text first, then one text for
//! each capture group.

use vstd::prelude::*;
use vstd::string::*;

verus! {

/// One match of a pattern: the whole matched text and its capture groups.
pub struct Matches {
    pub global: String,
    pub groups: Vec<String>,
}

impl Clone for Matches {
    fn clone(&self) -> (copy: Matches)
        ensures
            copy.global@ == self.global@,
            texts(copy.groups@) == texts(self.groups@),
    {
        let mut groups: Vec<String> = Vec::new();
        let mut i: usize = 0;
        while i < self.groups.len()
            invariant
                0 <= i <= self.groups@.len(),
                groups@.len() == i,
                forall|k: int| 0 <= k < i ==> groups@[k]@ == self.groups@[k]@,
            decreases self.groups@.len() - i,
        {
            groups.push(self.groups[i].clone());
            i += 1;
        }
        assert(texts(groups@) =~= texts(self.groups@));
        Matches { global: self.global.clone(), groups }
    }
}

/// The texts of a list of strings.
pub open spec fn texts(strings: Seq<String>) -> Seq<Seq<char>> {
    Seq::new(strings.len(), |i: int| strings[i]@)
}

/// What has been read of a match after its first `count` elements: the first
/// element is the whole matched text, every later one a group.
pub open spec fn read_so_far(elements: Seq<Seq<char>>, count: int) -> (Seq<char>, Seq<Seq<char>>) {
    if count <= 0 {
        (Seq::empty(), Seq::empty())
    } else {
        (elements[0], elements.subrange(1, count))
    }
}

impl Matches {
    /// Reads the elements of one match, and records after each element what has
    /// been read so far: as many records as the match has elements, the last of
    /// them holding the whole matched text and all the groups.
    pub fn snapshots(elements: &Vec<String>) -> (records: Vec<Matches>)
        ensures
            records@.len() == elements@.len(),
            forall|k: int|
                0 <= k < records@.len() ==> ((#[trigger] records@[k]).global@, texts(records@[k].groups@))
                    == read_so_far(texts(elements@), k + 1),
    {
        let mut records: Vec<Matches> = Vec::new();
        let mut matches_set = Matches { global: String::new(), groups: Vec::new() };
        let mut index: usize = 0;
        while index < elements.len()
            invariant
                0 <= index <= elements@.len(),
                records@.len() == index,
                (matches_set.global@, texts(matches_set.groups@)) == read_so_far(texts(elements@), index as int),
                forall|k: int|
                    0 <= k < records@.len() ==> ((#[trigger] records@[k]).global@, texts(records@[k].groups@))
                        == read_so_far(texts(elements@), k + 1),
            decreases elements@.len() - index,
        {
            if index == 0 {
                matches_set.global = elements[index].clone();
                assert(texts(matches_set.groups@) =~= texts(elements@).subrange(1, 1));
            } else {
                let ghost before = texts(matches_set.groups@);
                matches_set.groups.push(elements[index].clone());
                assert(texts(matches_set.groups@) =~= before.push(elements@[index as int]@));
                assert(texts(matches_set.groups@) =~= texts(elements@).subrange(1, index as int + 1));
            }
            records.push(matches_set.clone());
            index += 1;
        }
        records
    }
}

} // verus!
