//! The daemon's choice of processes to inject the interceptor into: each
//! process once, the first time it is seen, when its command is Node.js.

use vstd::prelude::*;
use crate::text::{chars_ends_with, has_suffix, to_chars};

verus! {

/// A command whose first argument names a Node.js executable.
pub open spec fn is_node_command(first_arg: Seq<char>) -> bool {
    has_suffix(first_arg, "node"@) || has_suffix(first_arg, "astraea-node"@)
}

/// The processes the daemon has seen.
pub struct ProcessWatch {
    seen: Vec<u32>,
}

impl ProcessWatch {
    /// The process ids seen so far.
    pub closed spec fn seen(&self) -> Set<u32> {
        Set::new(|p: u32| self.seen@.contains(p))
    }

    /// A watch that has seen no process.
    pub fn new() -> (r: Self)
        ensures
            r.seen() == Set::<u32>::empty(),
    {
        let r = ProcessWatch { seen: Vec::new() };
        assert(r.seen() =~= Set::<u32>::empty());
        r
    }

    /// Records that process `pid` was seen, with the first argument of its
    /// command line (`None` when it could not be read), and says whether to
    /// inject it: only a process not seen before whose command is Node.js.
    pub fn observe(&mut self, pid: u32, first_arg: Option<&str>) -> (inject: bool)
        ensures
            final(self).seen() == old(self).seen().insert(pid),
            inject == (!old(self).seen().contains(pid) && (first_arg matches Some(a)
                && is_node_command(a@))),
    {
        let mut known = false;
        for i in 0..self.seen.len()
            invariant
                known == exists|j: int| 0 <= j < i && self.seen@[j] == pid,
        {
            if self.seen[i] == pid {
                known = true;
            }
        }
        let ghost before = self.seen@;
        assert(known == before.contains(pid));
        if !known {
            self.seen.push(pid);
            assert forall|p: u32| self.seen@.contains(p) <==> (before.contains(p) || p == pid) by {
                if self.seen@.contains(p) {
                    let k = choose|k: int| 0 <= k < self.seen@.len() && self.seen@[k] == p;
                    if k < before.len() {
                        assert(before[k] == p);
                    }
                }
                if before.contains(p) {
                    let k = choose|k: int| 0 <= k < before.len() && before[k] == p;
                    assert(self.seen@[k] == p);
                }
                if p == pid {
                    assert(self.seen@[before.len() as int] == p);
                }
            }
        }
        assert(self.seen() =~= old(self).seen().insert(pid));
        if known {
            return false;
        }
        match first_arg {
            Some(a) => {
                let c = to_chars(a);
                chars_ends_with(&c, &to_chars("node")) || chars_ends_with(&c, &to_chars("astraea-node"))
            },
            None => false,
        }
    }
}

} // verus!
