//! One precomputed board of the catalog.

use vstd::prelude::*;

verus! {

/// A board of the catalog: the letters that it is made of, the longest word
/// on it, the number of tiles that it takes, and the words found on it.
#[derive(Debug)]
pub struct Record {
    /// The length of the longest word. It is carried along and never consulted.
    pub wordlen: u32,
    /// The longest word on the board.
    pub longest: String,
    /// The letters that the board is made of.
    pub letters: String,
    /// The number of tiles that the board takes.
    pub spaces: u32,
    /// The found words. Each entry holds words separated by whitespace.
    pub words: Vec<String>,
}

/// What a [`Record`] holds, as mathematical values.
pub struct RecordView {
    pub wordlen: u32,
    pub longest: Seq<char>,
    pub letters: Seq<char>,
    pub spaces: u32,
    pub words: Seq<Seq<char>>,
}

impl View for Record {
    type V = RecordView;

    open spec fn view(&self) -> RecordView {
        RecordView {
            wordlen: self.wordlen,
            longest: self.longest@,
            letters: self.letters@,
            spaces: self.spaces,
            words: self.words.deep_view(),
        }
    }
}

impl DeepView for Record {
    type V = RecordView;

    open spec fn deep_view(&self) -> RecordView {
        self@
    }
}

/// A copy of a list of strings.
pub fn copy_strings(list: &Vec<String>) -> (copy: Vec<String>)
    ensures
        copy.deep_view() == list.deep_view(),
{
    let mut copy: Vec<String> = Vec::new();
    let mut i: usize = 0;
    while i < list.len()
        invariant
            i <= list.len(),
            copy.len() == i,
            forall|j: int| 0 <= j < i ==> copy@[j]@ == list@[j]@,
        decreases list.len() - i,
    {
        copy.push(list[i].clone());
        i += 1;
    }
    copy
}

impl Clone for Record {
    /// A record of its own that holds the same values.
    fn clone(&self) -> (copy: Self)
        ensures
            copy@ == self@,
    {
        Record {
            wordlen: self.wordlen,
            longest: self.longest.clone(),
            letters: self.letters.clone(),
            spaces: self.spaces,
            words: copy_strings(&self.words),
        }
    }
}

} // verus!
