//! Writing a generated adapter that somebody else may edit at the same time.
use vstd::prelude::*;
use crate::order::Parts;
use crate::path::{path_text, PathName};
use crate::text::{opt_text, plus3, same, same_opt, Text};

verus! {

/// An update under way: what was last read, and how many rounds are left.
pub struct Update {
    pub observed: Option<String>,
    pub rounds: u8,
}

/// What to do with freshly compiled contents.
pub enum Verdict {
    /// The file holds them already.
    Unchanged,
    /// Look at the file once more, then decide.
    Compare,
}

/// What to do after the second look.
pub enum Next {
    /// Put the compiled contents in place.
    Replace,
    /// Somebody edited the file: compile again from what it holds now.
    Recompile,
    /// It was edited in every round: leave it alone and report this.
    GiveUp(String),
}

/// The report for a file that kept changing.
pub open spec fn conflict(path: Parts) -> Text {
    "adapter changed during compilation; preserved "@ + path_text(path) + ", retry sync"@
}

impl Update {
    /// Begin with what the file holds; three rounds are allowed.
    pub fn begin(observed: Option<String>) -> (r: Update)
        ensures
            r.observed == observed,
            r.rounds == 3,
    {
        Update { observed, rounds: 3 }
    }

    /// The contents were compiled from what was observed.
    pub fn compiled(&self, next: &str) -> (r: Verdict)
        ensures
            r is Unchanged == (opt_text(self.observed) == Some(next@)),
    {
        let unchanged = match &self.observed {
            Some(text) => same(text, next),
            None => false,
        };
        if unchanged {
            Verdict::Unchanged
        } else {
            Verdict::Compare
        }
    }

    /// The file was looked at again, just before replacing it.
    pub fn looked_again(&mut self, path: &PathName, latest: Option<String>) -> (r: Next)
        requires
            old(self).rounds > 0,
        ensures
            final(self).rounds == old(self).rounds - 1,
            opt_text(latest) == opt_text(old(self).observed) ==> r is Replace && opt_text(final(self).observed)
                == opt_text(old(self).observed),
            opt_text(latest) != opt_text(old(self).observed) ==> {
                &&& final(self).observed == latest
                &&& old(self).rounds > 1 ==> r is Recompile
                &&& old(self).rounds == 1 ==> (r matches Next::GiveUp(message) && message@ == conflict(path@))
            },
    {
        self.rounds = self.rounds - 1;
        if same_opt(&latest, &self.observed) {
            return Next::Replace;
        }
        self.observed = latest;
        if self.rounds > 0 {
            Next::Recompile
        } else {
            Next::GiveUp(plus3("adapter changed during compilation; preserved ", &path.display(), ", retry sync"))
        }
    }
}

/// Must a file be written so that it holds `content`? A missing file must.
pub fn write_needed(previous: &Option<Vec<u8>>, content: &Vec<u8>) -> (r: bool)
    ensures
        r == !(previous is Some && previous->0@ == content@),
{
    match previous {
        None => true,
        Some(bytes) => !same_bytes(bytes, content),
    }
}

pub fn same_bytes(a: &Vec<u8>, b: &Vec<u8>) -> (r: bool)
    ensures
        r == (a@ == b@),
{
    if a.len() != b.len() {
        return false;
    }
    let mut i: usize = 0;
    while i < a.len()
        invariant
            i <= a.len() == b.len(),
            forall|j: int| 0 <= j < i ==> a@[j] == b@[j],
        decreases a.len() - i,
    {
        if a[i] != b[i] {
            return false;
        }
        i += 1;
    }
    assert(a@ =~= b@);
    true
}

} // verus!
