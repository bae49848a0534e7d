//! The ports of a remote host that are forwarded to this machine.

use std::collections::HashMap;

use vstd::prelude::*;

verus! {

broadcast use vstd::std_specs::hash::group_hash_axioms;

/// A forwarded port: the port here, and the process that forwards it where its
/// number is known.
#[derive(Clone, Copy, Debug, PartialEq, Eq, Structural)]
pub struct Forward {
    pub local: u16,
    pub pid: Option<u32>,
}

/// Whether a list names each process of a table, and no other, in some order of
/// the ports.
pub open spec fn lists_pids(pids: Seq<u32>, m: Map<u16, Forward>) -> bool {
    forall|pid: u32| #[trigger]
        pids.contains(pid) <==> exists|p: u16|
            m.contains_key(p) && (#[trigger] m[p]).pid == Some(pid)
}

/// The remote ports of a table, each once, in some order.
pub fn remotes(table: &HashMap<u16, Forward>) -> (r: Vec<u16>)
    ensures
        r@.no_duplicates(),
        r@.to_set() == table@.dom(),
{
    let mut out: Vec<u16> = Vec::new();
    for p in it: table.keys()
        invariant
            out@ == it.seq().unref().take(it.index() as int),
            it.seq().unref().no_duplicates(),
            it.seq().unref().to_set() == table@.dom(),
            it.index() == it.seq().len() ==> out@ == it.seq().unref(),
    {
        out.push(*p);
        assert(it.index() + 1 == it.seq().len() ==> out@ =~= it.seq().unref());
    }
    out
}

/// The processes that forward the ports of a table.
pub fn pids(table: &HashMap<u16, Forward>) -> (r: Vec<u32>)
    ensures
        lists_pids(r@, table@),
{
    let ports = remotes(table);
    let mut out: Vec<u32> = Vec::new();
    for i in 0..ports.len()
        invariant
            ports@.to_set() == table@.dom(),
            forall|pid: u32| #[trigger]
                out@.contains(pid) <==> exists|j: int|
                    0 <= j < i && table@[#[trigger] ports@[j]].pid == Some(pid),
    {
        let ghost before = out@;
        let ghost port = ports@[i as int];
        assert(ports@.to_set().contains(port));
        match table.get(&ports[i]) {
            Some(forward) => match forward.pid {
                Some(pid) => {
                    out.push(pid);
                    assert(out@[before.len() as int] == pid);
                },
                None => {},
            },
            None => {},
        }
        assert forall|pid: u32| #[trigger] out@.contains(pid) <==> exists|j: int|
            0 <= j < i + 1 && table@[#[trigger] ports@[j]].pid == Some(pid) by {
            if before.contains(pid) {
                let a = choose|a: int| 0 <= a < before.len() && before[a] == pid;
                assert(out@[a] == pid);
                let j = choose|j: int|
                    0 <= j < i && table@[#[trigger] ports@[j]].pid == Some(pid);
                assert(table@[ports@[j]].pid == Some(pid));
            }
            if table@[port].pid == Some(pid) {
                assert(table@[ports@[i as int]].pid == Some(pid));
            }
            if out@.contains(pid) && !before.contains(pid) {
                let a = choose|a: int| 0 <= a < out@.len() && out@[a] == pid;
                if a < before.len() {
                    assert(before[a] == pid);
                }
            }
        }
    }
    proof {
        assert forall|pid: u32| #[trigger] out@.contains(pid) <==> exists|p: u16|
            table@.contains_key(p) && (#[trigger] table@[p]).pid == Some(pid) by {
            if out@.contains(pid) {
                let j = choose|j: int|
                    0 <= j < ports@.len() && table@[#[trigger] ports@[j]].pid == Some(pid);
                assert(ports@.to_set().contains(ports@[j]));
                assert(table@.contains_key(ports@[j]));
            }
            if exists|p: u16| table@.contains_key(p) && (#[trigger] table@[p]).pid == Some(pid) {
                let p = choose|p: u16|
                    table@.contains_key(p) && (#[trigger] table@[p]).pid == Some(pid);
                assert(ports@.to_set().contains(p));
                let j = choose|j: int| 0 <= j < ports@.len() && ports@[j] == p;
                assert(table@[ports@[j]].pid == Some(pid));
            }
        }
    }
    out
}

} // verus!
