//! Local test cases compared with the server's, for `diff` and `push`.
//!
//! A test case is a file name and its bytes; the local ones are in name order.

use vstd::prelude::*;

use crate::local::bytes_eq;
use crate::text::{contains_str, views};

verus! {

/// How a test case compares between the local directory and the server.
#[derive(Debug, Clone, Copy, PartialEq, Eq, Structural)]
pub enum TestcaseState {
    /// Only the local directory has it.
    LocalOnly,
    /// Only the server has it.
    RemoteOnly,
    /// Both have it, with the same bytes.
    Same,
    /// Both have it, with different bytes.
    Differs,
}

/// The names of the test cases.
pub open spec fn case_names(s: Seq<(String, Vec<u8>)>) -> Seq<Seq<char>> {
    Seq::new(s.len(), |i: int| s[i].0@)
}

pub open spec fn bytes_view(o: Option<Vec<u8>>) -> Option<Seq<u8>> {
    match o {
        Some(b) => Some(b@),
        None => None,
    }
}

/// The state of a local test case whose server copy is `fetched` (`None`:
/// the server has no test case of that name).
pub open spec fn state_of(content: Seq<u8>, fetched: Option<Seq<u8>>) -> TestcaseState {
    match fetched {
        None => TestcaseState::LocalOnly,
        Some(f) => if f == content {
            TestcaseState::Same
        } else {
            TestcaseState::Differs
        },
    }
}

/// For each local test case, whether the server lists one of that name: the
/// ones whose server copy has to be fetched to compare.
pub fn on_server(local: &Vec<(String, Vec<u8>)>, remote_names: &Vec<String>) -> (r: Vec<bool>)
    ensures
        r@.len() == local@.len(),
        forall|i: int| 0 <= i < local@.len() ==> r@[i] == views(remote_names@).contains(#[trigger] local@[i].0@),
{
    let mut out: Vec<bool> = Vec::new();
    let mut i: usize = 0;
    while i < local.len()
        invariant
            i <= local@.len(),
            out@.len() == i,
            forall|k: int| 0 <= k < i ==> out@[k] == views(remote_names@).contains(#[trigger] local@[k].0@),
        decreases local@.len() - i,
    {
        out.push(contains_str(remote_names, local[i].0.as_str()));
        i = i + 1;
    }
    out
}

/// The state of each local test case, given the server's copies: `fetched[i]`
/// is the server's content of `local[i]`, `None` when the server has no test
/// case of that name.
pub fn local_states(local: &Vec<(String, Vec<u8>)>, fetched: &Vec<Option<Vec<u8>>>) -> (r: Vec<TestcaseState>)
    requires
        fetched@.len() == local@.len(),
    ensures
        r@.len() == local@.len(),
        forall|i: int| 0 <= i < local@.len() ==> #[trigger] r@[i] == state_of(local@[i].1@, bytes_view(fetched@[i])),
{
    let mut out: Vec<TestcaseState> = Vec::new();
    let mut i: usize = 0;
    while i < local.len()
        invariant
            i <= local@.len(),
            fetched@.len() == local@.len(),
            out@.len() == i,
            forall|k: int| 0 <= k < i ==> #[trigger] out@[k] == state_of(local@[k].1@, bytes_view(fetched@[k])),
        decreases local@.len() - i,
    {
        let state = match &fetched[i] {
            None => TestcaseState::LocalOnly,
            Some(f) => if bytes_eq(f, &local[i].1) {
                TestcaseState::Same
            } else {
                TestcaseState::Differs
            },
        };
        out.push(state);
        i = i + 1;
    }
    out
}

/// The names in `remote` that are not in `local`, in order.
pub open spec fn missing_from(remote: Seq<Seq<char>>, local: Seq<Seq<char>>) -> Seq<Seq<char>>
    decreases remote.len(),
{
    if remote.len() == 0 {
        seq![]
    } else if local.contains(remote.last()) {
        missing_from(remote.drop_last(), local)
    } else {
        missing_from(remote.drop_last(), local).push(remote.last())
    }
}

/// The server's test cases that the local directory does not have, in the
/// server's order.
pub fn remote_only(local: &Vec<(String, Vec<u8>)>, remote_names: &Vec<String>) -> (r: Vec<String>)
    ensures
        views(r@) == missing_from(views(remote_names@), case_names(local@)),
{
    let mut names: Vec<String> = Vec::new();
    let mut i: usize = 0;
    while i < local.len()
        invariant
            i <= local@.len(),
            names@.len() == i,
            forall|k: int| 0 <= k < i ==> #[trigger] names@[k]@ == local@[k].0@,
        decreases local@.len() - i,
    {
        names.push(local[i].0.clone());
        i = i + 1;
    }
    assert(views(names@) =~= case_names(local@));
    let mut out: Vec<String> = Vec::new();
    let mut j: usize = 0;
    while j < remote_names.len()
        invariant
            j <= remote_names@.len(),
            views(names@) == case_names(local@),
            views(out@) == missing_from(views(remote_names@).subrange(0, j as int), case_names(local@)),
        decreases remote_names@.len() - j,
    {
        let ghost prev = views(remote_names@).subrange(0, j as int);
        let ghost next = views(remote_names@).subrange(0, j + 1);
        assert(next.drop_last() == prev);
        assert(next.last() == remote_names@[j as int]@);
        if !contains_str(&names, remote_names[j].as_str()) {
            let n = remote_names[j].clone();
            out.push(n);
            assert(views(out@) =~= views(out@).drop_last().push(n@));
        }
        j = j + 1;
    }
    assert(views(remote_names@).subrange(0, remote_names@.len() as int) == views(remote_names@));
    out
}

} // verus!
