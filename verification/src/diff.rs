//! Differences between two sets of mount records.

use vstd::prelude::*;

use crate::mount::{mount_eq, LinuxMount, MountView};

verus! {

/// The records of `cur` that are not in `prev`, in `cur`'s order.
pub open spec fn added_of(prev: Seq<MountView>, cur: Seq<MountView>) -> Seq<MountView> {
    cur.filter(|m: MountView| !prev.contains(m))
}

/// The records of `prev` that are not in `cur`, in `prev`'s order.
pub open spec fn removed_of(prev: Seq<MountView>, cur: Seq<MountView>) -> Seq<MountView> {
    added_of(cur, prev)
}

/// `s` with every repetition of an earlier record dropped.
pub open spec fn dedup(s: Seq<MountView>) -> Seq<MountView>
    decreases s.len(),
{
    if s.len() == 0 {
        Seq::empty()
    } else {
        let rest = dedup(s.drop_last());
        if rest.contains(s.last()) {
            rest
        } else {
            rest.push(s.last())
        }
    }
}

/// Deduplication keeps membership and leaves no duplicates.
pub proof fn lemma_dedup(s: Seq<MountView>)
    ensures
        dedup(s).no_duplicates(),
        forall|m: MountView| dedup(s).contains(m) <==> s.contains(m),
    decreases s.len(),
{
    if s.len() == 0 {
        assert(forall|m: MountView| !s.contains(m));
    } else {
        let rest = dedup(s.drop_last());
        lemma_dedup(s.drop_last());
        assert(s.drop_last().push(s.last()) =~= s);
        assert forall|m: MountView| dedup(s).contains(m) <==> s.contains(m) by {
            let d = dedup(s);
            if s.contains(m) {
                let i = choose|i: int| 0 <= i < s.len() && s[i] == m;
                if i < s.len() - 1 {
                    assert(s.drop_last()[i] == m);
                    assert(s.drop_last().contains(m));
                    assert(rest.contains(m));
                    if !rest.contains(s.last()) {
                        let j = choose|j: int| 0 <= j < rest.len() && rest[j] == m;
                        assert(d[j] == m);
                    }
                    assert(d.contains(m));
                } else {
                    assert(m == s.last());
                    if !rest.contains(s.last()) {
                        assert(d[d.len() - 1] == m);
                    }
                    assert(d.contains(m));
                }
            }
            if d.contains(m) {
                let i = choose|i: int| 0 <= i < d.len() && d[i] == m;
                if i < rest.len() {
                    assert(rest[i] == m);
                    assert(rest.contains(m));
                    assert(s.drop_last().contains(m));
                    let j = choose|j: int| 0 <= j < s.drop_last().len() && s.drop_last()[j] == m;
                    assert(s[j] == m);
                    assert(s.contains(m));
                } else {
                    assert(m == s.last());
                    assert(s[s.len() - 1] == m);
                    assert(s.contains(m));
                }
            }
        }
        if !rest.contains(s.last()) {
            let d = rest.push(s.last());
            assert forall|i: int, j: int|
                0 <= i < d.len() && 0 <= j < d.len() && i != j implies d[i] != d[j] by {
                if i < rest.len() && j < rest.len() {
                    assert(d[i] == rest[i] && d[j] == rest[j]);
                } else if i < rest.len() {
                    assert(rest.contains(rest[i]) && d[j] == s.last());
                } else if j < rest.len() {
                    assert(rest.contains(rest[j]) && d[i] == s.last());
                }
            }
        }
    }
}

/// Membership in the added records: present now, absent before.
pub proof fn lemma_added_contains(prev: Seq<MountView>, cur: Seq<MountView>, m: MountView)
    ensures
        added_of(prev, cur).contains(m) <==> cur.contains(m) && !prev.contains(m),
{
    broadcast use vstd::seq_lib::group_filter_ensures;

    let pred = |x: MountView| !prev.contains(x);
    if added_of(prev, cur).contains(m) {
        let i = choose|i: int|
            0 <= i < added_of(prev, cur).len() && added_of(prev, cur)[i] == m;
        assert(pred(added_of(prev, cur)[i]));
        cur.lemma_filter_contains_rev(pred, m);
    }
    if cur.contains(m) && !prev.contains(m) {
        let i = choose|i: int| 0 <= i < cur.len() && cur[i] == m;
        assert(pred(cur[i]));
        cur.lemma_filter_contains(pred, i);
    }
}

/// The added and the removed records partition the symmetric difference of
/// the two sets, with no overlap, and a set diffed against itself yields
/// nothing in either direction.
pub proof fn lemma_diff_partitions(prev: Seq<MountView>, cur: Seq<MountView>)
    ensures
        added_of(prev, cur).to_set() == cur.to_set().difference(prev.to_set()),
        removed_of(prev, cur).to_set() == prev.to_set().difference(cur.to_set()),
        added_of(prev, cur).to_set().disjoint(removed_of(prev, cur).to_set()),
        added_of(prev, cur).to_set().union(removed_of(prev, cur).to_set()) == cur.to_set().union(
            prev.to_set(),
        ).difference(cur.to_set().intersect(prev.to_set())),
        added_of(cur, cur) == Seq::<MountView>::empty(),
        removed_of(cur, cur) == Seq::<MountView>::empty(),
{
    assert forall|m: MountView|
        added_of(prev, cur).contains(m) <==> cur.contains(m) && !prev.contains(m) by {
        lemma_added_contains(prev, cur, m);
    }
    assert forall|m: MountView|
        removed_of(prev, cur).contains(m) <==> prev.contains(m) && !cur.contains(m) by {
        lemma_added_contains(cur, prev, m);
    }
    assert(added_of(prev, cur).to_set() =~= cur.to_set().difference(prev.to_set()));
    assert(removed_of(prev, cur).to_set() =~= prev.to_set().difference(cur.to_set()));
    assert(added_of(prev, cur).to_set().union(removed_of(prev, cur).to_set())
        =~= cur.to_set().union(prev.to_set()).difference(cur.to_set().intersect(prev.to_set())));
    lemma_self_diff_empty(cur);
}

/// A set diffed against itself yields no change.
pub proof fn lemma_self_diff_empty(s: Seq<MountView>)
    ensures
        added_of(s, s) == Seq::<MountView>::empty(),
        removed_of(s, s) == Seq::<MountView>::empty(),
{
    let pred = |x: MountView| !s.contains(x);
    assert(s.all(|x: MountView| !pred(x))) by {
        assert forall|i: int| 0 <= i < s.len() implies !pred(s[i]) by {
            assert(s.contains(s[i]));
        }
    }
    s.lemma_all_neg_filter_empty(pred);
    assert(added_of(s, s) =~= Seq::<MountView>::empty());
}

/// Whether the value of `m` is among the records of `v`.
pub fn contains_mount(v: &Vec<LinuxMount>, m: &LinuxMount) -> (r: bool)
    ensures
        r == v.deep_view().contains(m.deep_view()),
{
    let mut i: usize = 0;
    while i < v.len()
        invariant
            i <= v@.len(),
            forall|j: int| 0 <= j < i ==> v.deep_view()[j] != m.deep_view(),
        decreases v@.len() - i,
    {
        if mount_eq(&v[i], m) {
            proof {
                assert(v.deep_view()[i as int] == m.deep_view());
            }
            return true;
        }
        i = i + 1;
    }
    proof {
        assert(!v.deep_view().contains(m.deep_view()));
    }
    false
}

/// Copies `v` with every repetition of an earlier record dropped.
pub fn dedup_mounts(v: &Vec<LinuxMount>) -> (r: Vec<LinuxMount>)
    ensures
        r.deep_view() == dedup(v.deep_view()),
{
    let mut out: Vec<LinuxMount> = Vec::new();
    let mut i: usize = 0;
    while i < v.len()
        invariant
            i <= v@.len(),
            out.deep_view() == dedup(v.deep_view().take(i as int)),
        decreases v@.len() - i,
    {
        proof {
            assert(v.deep_view().take(i as int + 1).drop_last() =~= v.deep_view().take(i as int));
            assert(v.deep_view().take(i as int + 1).last() == v.deep_view()[i as int]);
        }
        if !contains_mount(&out, &v[i]) {
            let ghost out0 = out.deep_view();
            out.push(v[i].duplicate());
            proof {
                assert(out.deep_view() =~= out0.push(v.deep_view()[i as int]));
            }
        }
        i = i + 1;
    }
    proof {
        assert(v.deep_view().take(v@.len() as int) =~= v.deep_view());
    }
    out
}

/// Copies the records of `src` whose values are not among those of `other`,
/// in `src`'s order.
fn filter_not_in(other: &Vec<LinuxMount>, src: &Vec<LinuxMount>) -> (r: Vec<LinuxMount>)
    ensures
        r.deep_view() == added_of(other.deep_view(), src.deep_view()),
{
    let mut out: Vec<LinuxMount> = Vec::new();
    let mut i: usize = 0;
    while i < src.len()
        invariant
            i <= src@.len(),
            out.deep_view() == added_of(other.deep_view(), src.deep_view().take(i as int)),
        decreases src@.len() - i,
    {
        proof {
            reveal_with_fuel(Seq::<_>::filter, 2);
            assert(src.deep_view().take(i as int + 1).drop_last() =~= src.deep_view().take(
                i as int,
            ));
            assert(src.deep_view().take(i as int + 1).last() == src.deep_view()[i as int]);
        }
        if !contains_mount(other, &src[i]) {
            let ghost out0 = out.deep_view();
            out.push(src[i].duplicate());
            proof {
                assert(out.deep_view() =~= out0.push(src.deep_view()[i as int]));
            }
        }
        i = i + 1;
    }
    proof {
        assert(src.deep_view().take(src@.len() as int) =~= src.deep_view());
    }
    out
}

/// The records of `cur` absent from `prev` (the mounts), and the records of
/// `prev` absent from `cur` (the unmounts), each in its source's order.
pub fn diff_mounts(prev: &Vec<LinuxMount>, cur: &Vec<LinuxMount>) -> (r: (
    Vec<LinuxMount>,
    Vec<LinuxMount>,
))
    ensures
        r.0.deep_view() == added_of(prev.deep_view(), cur.deep_view()),
        r.1.deep_view() == removed_of(prev.deep_view(), cur.deep_view()),
{
    let added = filter_not_in(prev, cur);
    let removed = filter_not_in(cur, prev);
    (added, removed)
}

} // verus!
