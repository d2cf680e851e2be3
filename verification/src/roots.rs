//! Finding the project that a working directory belongs to.
use vstd::prelude::*;

verus! {

/// What is found in one of the directories from the working directory upwards.
pub struct Ancestor {
    /// An agent's description.
    pub agent_file: bool,
    /// The project's memory.
    pub memory: bool,
    /// The workspaces of the project's agents.
    pub workspaces: bool,
}

/// A project has a memory and workspaces.
pub open spec fn is_project(a: Ancestor) -> bool {
    a.memory && a.workspaces
}

fn project(a: &Ancestor) -> (r: bool)
    ensures
        r == is_project(*a),
{
    a.memory && a.workspaces
}

/// The nearest project, the working directory first.
pub fn nearest_project(chain: &Vec<Ancestor>) -> (r: Option<usize>)
    ensures
        match r {
            Some(i) => i < chain@.len() && is_project(chain@[i as int]) && forall|j: int|
                0 <= j < i ==> !is_project(#[trigger] chain@[j]),
            None => forall|j: int| 0 <= j < chain@.len() ==> !is_project(#[trigger] chain@[j]),
        },
{
    let mut i: usize = 0;
    while i < chain.len()
        invariant
            i <= chain@.len(),
            forall|j: int| 0 <= j < i ==> !is_project(#[trigger] chain@[j]),
        decreases chain@.len() - i,
    {
        if project(&chain[i]) {
            return Some(i);
        }
        i += 1;
    }
    None
}

/// The project that a directory points to. An agent's workspace, which shows
/// the project's memory itself, belongs to the project two levels up.
pub open spec fn points_to(chain: Seq<Ancestor>, i: int) -> Option<int> {
    if chain[i].agent_file && chain[i].memory && i + 2 < chain.len() && is_project(chain[i + 2]) {
        Some(i + 2)
    } else if is_project(chain[i]) {
        Some(i)
    } else {
        None
    }
}

pub open spec fn opt_int(r: Option<usize>) -> Option<int> {
    match r {
        Some(i) => Some(i as int),
        None => None,
    }
}

/// What the nearest directory that points to a project points to.
pub fn project_of(chain: &Vec<Ancestor>) -> (r: Option<usize>)
    ensures
        match r {
            Some(p) => exists|i: int|
                0 <= i < chain@.len() && #[trigger] points_to(chain@, i) == Some(p as int) && forall|j: int|
                    0 <= j < i ==> #[trigger] points_to(chain@, j) is None,
            None => forall|j: int| 0 <= j < chain@.len() ==> #[trigger] points_to(chain@, j) is None,
        },
{
    let n = chain.len();
    let mut i: usize = 0;
    while i < n
        invariant
            n == chain@.len(),
            i <= n,
            forall|j: int| 0 <= j < i ==> #[trigger] points_to(chain@, j) is None,
        decreases n - i,
    {
        let found = if chain[i].agent_file && chain[i].memory && n - i > 2 && project(&chain[i + 2]) {
            Some(i + 2)
        } else if project(&chain[i]) {
            Some(i)
        } else {
            None
        };
        assert(opt_int(found) == points_to(chain@, i as int));
        if found.is_some() {
            return found;
        }
        i += 1;
    }
    None
}

// ---------------------------------------------------------------------- laws

/// Whatever is found is a project.
pub proof fn what_is_found_is_a_project(chain: Seq<Ancestor>, i: int)
    requires
        0 <= i < chain.len(),
    ensures
        points_to(chain, i) matches Some(p) ==> 0 <= p < chain.len() && is_project(chain[p]),
{
}

/// A directory with a memory and workspaces points to itself, unless it is the
/// workspace of an agent of a project; that one points two levels up, and a
/// directory without a memory nowhere.
pub proof fn a_workspace_points_to_its_project(chain: Seq<Ancestor>, i: int)
    requires
        0 <= i < chain.len(),
    ensures
        chain[i].agent_file && chain[i].memory && i + 2 < chain.len() && chain[i + 2].memory && chain[i + 2].workspaces
            ==> points_to(chain, i) == Some(i + 2),
        !chain[i].agent_file && chain[i].memory && chain[i].workspaces ==> points_to(chain, i) == Some(i),
        chain[i].memory && chain[i].workspaces ==> points_to(chain, i) is Some,
        !chain[i].memory ==> points_to(chain, i) is None,
        points_to(chain, i) == Some(i) ==> chain[i].memory && chain[i].workspaces,
{
}

} // verus!
