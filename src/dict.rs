use vstd::prelude::*;
use vstd::string::StringExecFns;

use crate::error::W2vError;

verus! {

/// The vocabulary: each word with its index (its position) and its
/// occurrence count.
pub struct Dict {
    words: Vec<String>,
    counts: Vec<u64>,
}

/// True when no word occurs twice in `ws`.
pub open spec fn words_unique(ws: Seq<Seq<char>>) -> bool {
    forall|i: int, j: int| 0 <= i < ws.len() && 0 <= j < ws.len() && ws[i] == ws[j] ==> i == j
}

/// True when `w` occurs in `ws`.
pub open spec fn has_word(ws: Seq<Seq<char>>, w: Seq<char>) -> bool {
    exists|i: int| 0 <= i < ws.len() && ws[i] == w
}

impl Dict {
    /// The words, in index order.
    pub closed spec fn words(&self) -> Seq<Seq<char>> {
        self.words@.map_values(|s: String| s@)
    }

    /// The occurrence counts, in index order.
    pub closed spec fn counts(&self) -> Seq<u64> {
        self.counts@
    }

    /// Words and counts line up, and each word appears once.
    pub closed spec fn wf(&self) -> bool {
        &&& self.words@.len() == self.counts@.len()
        &&& words_unique(self.words())
    }

    pub open spec fn spec_size(&self) -> nat {
        self.words().len()
    }

    /// An empty dictionary.
    pub fn new() -> (r: Dict)
        ensures
            r.wf(),
            r.words() == Seq::<Seq<char>>::empty(),
            r.counts() == Seq::<u64>::empty(),
    {
        let r = Dict { words: Vec::new(), counts: Vec::new() };
        proof {
            assert(r.words() =~= Seq::<Seq<char>>::empty());
        }
        r
    }

    /// Number of distinct words.
    pub fn size(&self) -> (r: usize)
        requires
            self.wf(),
        ensures
            r == self.spec_size(),
            r == self.counts().len(),
    {
        self.words.len()
    }

    /// Finds the position of `word`, if present.
    fn find(&self, word: &str) -> (r: Option<usize>)
        requires
            self.wf(),
        ensures
            r is None <==> !has_word(self.words(), word@),
            r matches Some(i) ==> i < self.spec_size() && self.words()[i as int] == word@,
    {
        let target = String::from_str(word);
        let mut i: usize = 0;
        while i < self.words.len()
            invariant
                i <= self.words@.len(),
                target@ == word@,
                forall|k: int| 0 <= k < i ==> self.words()[k] != word@,
            decreases self.words@.len() - i,
        {
            if self.words[i] == target {
                assert(self.words()[i as int] == word@);
                return Some(i);
            }
            i = i + 1;
        }
        None
    }

    /// The index of `word`; `UnknownWord` when it is absent.
    pub fn index_of(&self, word: &str) -> (r: Result<usize, W2vError>)
        requires
            self.wf(),
        ensures
            r is Err <==> !has_word(self.words(), word@),
            r matches Err(e) ==> e == W2vError::UnknownWord,
            r matches Ok(i) ==> i < self.spec_size() && self.words()[i as int] == word@,
    {
        match self.find(word) {
            Some(i) => Ok(i),
            None => Err(W2vError::UnknownWord),
        }
    }

    /// The word at `index`; `IndexOutOfRange` when `index >= size()`.
    pub fn word_at(&self, index: usize) -> (r: Result<String, W2vError>)
        requires
            self.wf(),
        ensures
            r is Err <==> index >= self.spec_size(),
            r matches Err(e) ==> e == W2vError::IndexOutOfRange,
            r matches Ok(w) ==> w@ == self.words()[index as int],
    {
        if index < self.words.len() {
            Ok(self.words[index].clone())
        } else {
            Err(W2vError::IndexOutOfRange)
        }
    }

    /// The word at `index`, which must be in range.
    pub fn get_word(&self, index: usize) -> (r: String)
        requires
            self.wf(),
            index < self.spec_size(),
        ensures
            r@ == self.words()[index as int],
    {
        self.words[index].clone()
    }

    /// The occurrence count at `index`, which must be in range.
    pub fn get_count(&self, index: usize) -> (r: u64)
        requires
            self.wf(),
            index < self.spec_size(),
        ensures
            r == self.counts()[index as int],
    {
        self.counts[index]
    }

    /// The occurrence count of `word`; `UnknownWord` when it is absent.
    pub fn frequency_of(&self, word: &str) -> (r: Result<u64, W2vError>)
        requires
            self.wf(),
        ensures
            r is Err <==> !has_word(self.words(), word@),
            r matches Err(e) ==> e == W2vError::UnknownWord,
            r matches Ok(c) ==> exists|i: int|
                0 <= i < self.spec_size() && self.words()[i] == word@ && c == self.counts()[i],
    {
        match self.find(word) {
            Some(i) => Ok(self.counts[i]),
            None => Err(W2vError::UnknownWord),
        }
    }

    /// Adds `count` occurrences of `word` (saturating at `u64::MAX`) and
    /// returns its index. A new word takes the next index.
    pub fn add_word(&mut self, word: &str, count: u64) -> (r: usize)
        requires
            old(self).wf(),
            old(self).spec_size() < usize::MAX,
        ensures
            final(self).wf(),
            has_word(old(self).words(), word@) ==> {
                &&& r < old(self).spec_size()
                &&& final(self).words() == old(self).words()
                &&& old(self).words()[r as int] == word@
                &&& final(self).counts() == old(self).counts().update(
                    r as int,
                    if old(self).counts()[r as int] as int + count as int > u64::MAX as int {
                        u64::MAX
                    } else {
                        (old(self).counts()[r as int] + count) as u64
                    },
                )
            },
            !has_word(old(self).words(), word@) ==> {
                &&& r == old(self).spec_size()
                &&& final(self).words() == old(self).words().push(word@)
                &&& final(self).counts() == old(self).counts().push(count)
            },
    {
        match self.find(word) {
            Some(i) => {
                let c = self.counts[i].saturating_add(count);
                self.counts.set(i, c);
                i
            },
            None => {
                let ghost before = self.words();
                let n = self.words.len();
                self.words.push(String::from_str(word));
                self.counts.push(count);
                proof {
                    assert(self.words() =~= before.push(word@));
                }
                n
            },
        }
    }
}

/// Each word of the dictionary has one index: `word_at(index_of(w))` is
/// `w`, and no other index holds `w`.
pub proof fn lemma_word_index_unique(d: &Dict, i: int, j: int)
    requires
        d.wf(),
        0 <= i < d.spec_size(),
        0 <= j < d.spec_size(),
        d.words()[i] == d.words()[j],
    ensures
        i == j,
{
}

} // verus!
