//! Lists of ids that stand for sets.

use vstd::prelude::*;

verus! {

/// Adds `id` to a list of ids, unless it is there.
pub fn insert_id(ids: &mut Vec<u64>, id: u64)
    ensures
        final(ids)@.to_set() == old(ids)@.to_set().insert(id),
        forall|x: u64| #[trigger] final(ids)@.contains(x) <==> (x == id || old(ids)@.contains(x)),
        old(ids)@.no_duplicates() ==> final(ids)@.no_duplicates(),
{
    let mut i: usize = 0;
    while i < ids.len()
        invariant
            i <= ids@.len(),
            ids@ == old(ids)@,
            forall|j: int| 0 <= j < i ==> ids@[j] != id,
        decreases ids@.len() - i,
    {
        if ids[i] == id {
            assert(ids@[i as int] == id);
            assert(ids@.contains(id));
            assert(ids@.to_set() =~= ids@.to_set().insert(id));
            return ;
        }
        i += 1;
    }
    ids.push(id);
    proof {
        let before = old(ids)@;
        assert forall|x: u64| #[trigger] ids@.contains(x) <==> (x == id || before.contains(x)) by {
            if before.contains(x) {
                let j = choose|j: int| 0 <= j < before.len() && before[j] == x;
                assert(ids@[j] == x);
            }
            if x == id {
                assert(ids@[before.len() as int] == x);
            }
            if ids@.contains(x) {
                let j = choose|j: int| 0 <= j < ids@.len() && ids@[j] == x;
                if j < before.len() {
                    assert(before[j] == x);
                }
            }
        }
        assert(ids@.to_set() =~= before.to_set().insert(id));
        if before.no_duplicates() {
            assert forall|a: int, b: int|
                0 <= a < ids@.len() && 0 <= b < ids@.len() && a != b implies ids@[a] != ids@[b] by {
                if a < before.len() && b < before.len() {
                    assert(before[a] != before[b]);
                }
            }
        }
    }
}

/// Takes `id` out of a list of ids; the other ids keep their order.
pub fn remove_id(ids: &mut Vec<u64>, id: u64)
    ensures
        final(ids)@.to_set() == old(ids)@.to_set().remove(id),
        forall|x: u64| #[trigger] final(ids)@.contains(x) <==> (x != id && old(ids)@.contains(x)),
        old(ids)@.no_duplicates() ==> final(ids)@.no_duplicates(),
{
    let mut kept: Vec<u64> = Vec::new();
    let mut i: usize = 0;
    while i < ids.len()
        invariant
            i <= ids@.len(),
            ids@ == old(ids)@,
            forall|x: u64| #[trigger]
                kept@.contains(x) <==> (x != id && ids@.take(i as int).contains(x)),
            ids@.no_duplicates() ==> kept@.no_duplicates(),
        decreases ids@.len() - i,
    {
        let ghost before = kept@;
        let ghost seen = ids@.take(i as int);
        if ids[i] != id {
            kept.push(ids[i]);
        }
        proof {
            let grown = ids@.take(i + 1);
            assert forall|x: u64| #[trigger]
                kept@.contains(x) <==> (x != id && grown.contains(x)) by {
                if kept@.contains(x) {
                    let a = choose|a: int| 0 <= a < kept@.len() && kept@[a] == x;
                    if a < before.len() {
                        assert(before[a] == x);
                        assert(before.contains(x));
                        let b = choose|b: int| 0 <= b < seen.len() && seen[b] == x;
                        assert(grown[b] == x);
                    } else {
                        assert(grown[i as int] == x);
                    }
                }
                if x != id && grown.contains(x) {
                    let b = choose|b: int| 0 <= b < grown.len() && grown[b] == x;
                    if b < i {
                        assert(seen[b] == x);
                        assert(seen.contains(x));
                        assert(before.contains(x));
                        let a = choose|a: int| 0 <= a < before.len() && before[a] == x;
                        assert(kept@[a] == x);
                    } else {
                        assert(kept@[before.len() as int] == x);
                    }
                }
            }
            if ids@.no_duplicates() {
                assert forall|a: int, b: int|
                    0 <= a < kept@.len() && 0 <= b < kept@.len() && a != b implies kept@[a]
                    != kept@[b] by {
                    if a < before.len() && b < before.len() {
                        assert(before[a] != before[b]);
                    } else {
                        let old_one = if a < before.len() { a } else { b };
                        assert(before.contains(before[old_one]));
                        assert(seen.contains(before[old_one]));
                        let c = choose|c: int| 0 <= c < seen.len() && seen[c] == before[old_one];
                        assert(ids@[c] == before[old_one]);
                        assert(ids@[c] != ids@[i as int]);
                    }
                }
            }
        }
        i += 1;
    }
    proof {
        assert(ids@.take(ids@.len() as int) =~= ids@);
        assert(kept@.to_set() =~= ids@.to_set().remove(id));
    }
    *ids = kept;
}

} // verus!
