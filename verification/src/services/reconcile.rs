//! Reconciling exact groups and perceptual clusters into groups that do not
//! overlap.
//!
//! A perceptual cluster may hold a file that also belongs to an exact group
//! (in a scan: the one file that went into the perceptual comparison for its
//! group). Such a member stands for its whole exact group: the cluster takes
//! all of that group's files, and the exact group is not reported a second
//! time.

use vstd::prelude::*;

use crate::services::duplicate::{group_views, DuplicateGroup, DuplicateType, GroupView};
use crate::services::indices::{indices_where, indices_where_is_exact};
use crate::services::paths::{
    ascending, sort_unique, sorted_unique, sorted_unique_is_exact, texts,
};

verus! {

/// The position of the last group in `exact` that holds the path `p`, or -1
/// if none does.
pub open spec fn holder(exact: Seq<GroupView>, p: Seq<char>) -> int
    decreases exact.len(),
{
    if exact.len() == 0 {
        -1
    } else if exact.last().files.contains(p) {
        exact.len() - 1
    } else {
        holder(exact.drop_last(), p)
    }
}

/// A list of files being gathered, and which exact groups have gone into a
/// gathered list so far.
pub struct Gathering {
    pub files: Seq<Seq<char>>,
    pub consumed: Seq<bool>,
}

/// The files that the cluster members `members` stand for, when the exact
/// groups marked in `consumed` are used up already: a member that no exact
/// group holds stands for itself; a member of an exact group stands for all
/// files of that group, which is then used up; a member of a group that is
/// used up stands for nothing.
pub open spec fn gather(exact: Seq<GroupView>, members: Seq<Seq<char>>, consumed: Seq<bool>) -> Gathering
    decreases members.len(),
{
    if members.len() == 0 {
        Gathering { files: Seq::empty(), consumed }
    } else {
        let sofar = gather(exact, members.drop_last(), consumed);
        let g = holder(exact, members.last());
        if g < 0 {
            Gathering { files: sofar.files.push(members.last()), consumed: sofar.consumed }
        } else if sofar.consumed[g] {
            sofar
        } else {
            Gathering {
                files: sofar.files + exact[g].files,
                consumed: sofar.consumed.update(g, true),
            }
        }
    }
}

/// Groups that came out so far, and which exact groups have gone into them.
pub struct Merging {
    pub groups: Seq<GroupView>,
    pub consumed: Seq<bool>,
}

/// The perceptual groups that the clusters give, one cluster after the
/// other: the files gathered for the cluster, in ascending order and each
/// once, if they are two or more.
pub open spec fn merge_clusters(exact: Seq<GroupView>, clusters: Seq<GroupView>) -> Merging
    decreases clusters.len(),
{
    if clusters.len() == 0 {
        Merging { groups: Seq::empty(), consumed: Seq::new(exact.len(), |g: int| false) }
    } else {
        let sofar = merge_clusters(exact, clusters.drop_last());
        let gathered = gather(exact, clusters.last().files, sofar.consumed);
        let files = sorted_unique(gathered.files);
        Merging {
            groups: if files.len() >= 2 {
                sofar.groups.push(GroupView { files, duplicate_type: DuplicateType::Perceptual })
            } else {
                sofar.groups
            },
            consumed: gathered.consumed,
        }
    }
}

/// The first `n` exact groups that are not marked in `consumed`, as they are.
pub open spec fn left_over(exact: Seq<GroupView>, consumed: Seq<bool>, n: int) -> Seq<GroupView>
    decreases n,
{
    if n <= 0 {
        Seq::empty()
    } else if consumed[n - 1] {
        left_over(exact, consumed, n - 1)
    } else {
        left_over(exact, consumed, n - 1).push(exact[n - 1])
    }
}

/// The reconciled groups: first what the clusters give, each cluster
/// enlarged by the exact groups that its members belong to, then the exact
/// groups that went into no cluster.
pub open spec fn reconciled(exact: Seq<GroupView>, clusters: Seq<GroupView>) -> Seq<GroupView> {
    let merging = merge_clusters(exact, clusters);
    merging.groups + left_over(exact, merging.consumed, exact.len() as int)
}

/// `holder` finds the last group that holds the path.
pub proof fn holder_is_last(exact: Seq<GroupView>, p: Seq<char>)
    ensures
        -1 <= holder(exact, p) < exact.len(),
        holder(exact, p) >= 0 ==> exact[holder(exact, p)].files.contains(p),
        forall|g: int| holder(exact, p) < g < exact.len() ==> !(#[trigger] exact[g]).files.contains(p),
    decreases exact.len(),
{
    if exact.len() > 0 && !exact.last().files.contains(p) {
        holder_is_last(exact.drop_last(), p);
        assert forall|g: int| holder(exact, p) < g < exact.len() implies !(#[trigger] exact[g]).files.contains(
            p,
        ) by {
            if g < exact.len() - 1 {
                assert(exact.drop_last()[g] == exact[g]);
            }
        }
        if holder(exact, p) >= 0 {
            assert(exact.drop_last()[holder(exact, p)] == exact[holder(exact, p)]);
        }
    }
}

/// `merge_clusters` keeps one mark per exact group.
pub proof fn merge_keeps_length(exact: Seq<GroupView>, clusters: Seq<GroupView>)
    ensures
        merge_clusters(exact, clusters).consumed.len() == exact.len(),
    decreases clusters.len(),
{
    if clusters.len() > 0 {
        merge_keeps_length(exact, clusters.drop_last());
        gather_is_exact(
            exact,
            clusters.last().files,
            merge_clusters(exact, clusters.drop_last()).consumed,
        );
    }
}

/// Whether `files` holds the path `path`.
fn holds_path(files: &Vec<String>, path: &String) -> (found: bool)
    ensures
        found == texts(files@).contains(path@),
{
    let mut k: usize = 0;
    while k < files.len()
        invariant
            k <= files@.len(),
            forall|m: int| 0 <= m < k ==> texts(files@)[m] != path@,
        decreases files@.len() - k,
    {
        if files[k] == *path {
            assert(texts(files@)[k as int] == path@);
            return true;
        }
        k = k + 1;
    }
    false
}

/// The last group of `exact` that holds `path`.
fn find_holder(exact: &Vec<DuplicateGroup>, path: &String) -> (found: Option<usize>)
    ensures
        match found {
            Some(g) => g == holder(group_views(exact@), path@),
            None => holder(group_views(exact@), path@) == -1,
        },
{
    let ghost all = group_views(exact@);
    let mut g: usize = exact.len();
    assert(all.take(g as int) =~= all);
    while g > 0
        invariant
            g <= exact@.len(),
            all == group_views(exact@),
            holder(all, path@) == holder(all.take(g as int), path@),
        decreases g,
    {
        proof {
            assert(all.take(g as int).drop_last() =~= all.take(g - 1));
            assert(all.take(g as int).last() == exact@[g - 1]@);
        }
        if holds_path(&exact[g - 1].files, path) {
            return Some(g - 1);
        }
        g = g - 1;
    }
    None
}

/// A copy of a list of paths.
fn copy_paths(files: &Vec<String>) -> (copy: Vec<String>)
    ensures
        texts(copy@) == texts(files@),
{
    let mut copy: Vec<String> = Vec::new();
    let mut k: usize = 0;
    while k < files.len()
        invariant
            k <= files@.len(),
            texts(copy@) == texts(files@).take(k as int),
        decreases files@.len() - k,
    {
        let ghost sofar = texts(copy@);
        let path = files[k].clone();
        copy.push(path);
        assert(texts(copy@) =~= sofar.push(files@[k as int]@));
        assert(texts(files@).take(k + 1) =~= texts(files@).take(k as int).push(files@[k as int]@));
        k = k + 1;
    }
    assert(texts(files@).take(files@.len() as int) =~= texts(files@));
    copy
}

/// Adds copies of the paths in `more` to the end of `files`.
fn append_paths(files: &mut Vec<String>, more: &Vec<String>)
    ensures
        texts(final(files)@) == texts(old(files)@) + texts(more@),
{
    let mut k: usize = 0;
    assert(texts(files@) =~= texts(old(files)@) + texts(more@).take(0));
    while k < more.len()
        invariant
            k <= more@.len(),
            texts(files@) == texts(old(files)@) + texts(more@).take(k as int),
        decreases more@.len() - k,
    {
        let ghost sofar = texts(files@);
        let path = more[k].clone();
        files.push(path);
        assert(texts(files@) =~= sofar.push(more@[k as int]@));
        assert(texts(more@).take(k + 1) =~= texts(more@).take(k as int).push(more@[k as int]@));
        assert(texts(old(files)@) + texts(more@).take(k as int).push(more@[k as int]@) =~= (texts(
            old(files)@,
        ) + texts(more@).take(k as int)).push(more@[k as int]@));
        k = k + 1;
    }
    assert(texts(more@).take(more@.len() as int) =~= texts(more@));
}

/// Merges exact groups and perceptual clusters into groups that share no
/// file.
///
/// Each cluster becomes a group of type `Perceptual`: its members, with
/// every member that belongs to an exact group replaced by all files of
/// that group, in ascending order of their paths and each once. A cluster
/// that comes to fewer than two files gives no group. The exact groups that
/// no cluster took follow, unchanged.
pub fn merge_groups(exact_groups: Vec<DuplicateGroup>, perceptual_groups: Vec<DuplicateGroup>) -> (merged: Vec<
    DuplicateGroup,
>)
    ensures
        group_views(merged@) == reconciled(group_views(exact_groups@), group_views(perceptual_groups@)),
{
    let ghost exact = group_views(exact_groups@);
    let ghost clusters = group_views(perceptual_groups@);
    let mut merged: Vec<DuplicateGroup> = Vec::new();
    let mut consumed: Vec<bool> = Vec::new();
    let mut t: usize = 0;
    while t < exact_groups.len()
        invariant
            t <= exact_groups@.len(),
            consumed@.len() == t,
            forall|k: int| 0 <= k < t ==> !consumed@[k],
        decreases exact_groups@.len() - t,
    {
        consumed.push(false);
        t = t + 1;
    }
    let mut c: usize = 0;
    proof {
        assert(clusters.take(0) =~= Seq::<GroupView>::empty());
        assert(consumed@ =~= Seq::new(exact.len(), |g: int| false));
        assert(group_views(merged@) =~= Seq::<GroupView>::empty());
    }
    while c < perceptual_groups.len()
        invariant
            exact == group_views(exact_groups@),
            clusters == group_views(perceptual_groups@),
            c <= perceptual_groups@.len(),
            consumed@.len() == exact_groups@.len(),
            group_views(merged@) == merge_clusters(exact, clusters.take(c as int)).groups,
            consumed@ == merge_clusters(exact, clusters.take(c as int)).consumed,
        decreases perceptual_groups@.len() - c,
    {
        let cluster = &perceptual_groups[c];
        let ghost members = texts(cluster.files@);
        let ghost start = consumed@;
        let mut files: Vec<String> = Vec::new();
        let mut m: usize = 0;
        proof {
            assert(clusters.take(c + 1).drop_last() =~= clusters.take(c as int));
            assert(clusters.take(c + 1).last().files == members);
            assert(members.take(0) =~= Seq::<Seq<char>>::empty());
            assert(texts(files@) =~= Seq::<Seq<char>>::empty());
        }
        while m < cluster.files.len()
            invariant
                exact == group_views(exact_groups@),
                members == texts(cluster.files@),
                m <= cluster.files@.len(),
                start.len() == exact_groups@.len(),
                consumed@.len() == exact_groups@.len(),
                texts(files@) == gather(exact, members.take(m as int), start).files,
                consumed@ == gather(exact, members.take(m as int), start).consumed,
            decreases cluster.files@.len() - m,
        {
            proof {
                assert(members.take(m + 1).drop_last() =~= members.take(m as int));
                assert(members.take(m + 1).last() == cluster.files@[m as int]@);
                holder_is_last(exact, cluster.files@[m as int]@);
            }
            match find_holder(&exact_groups, &cluster.files[m]) {
                Some(g) => {
                    if !consumed[g] {
                        append_paths(&mut files, &exact_groups[g].files);
                        consumed.set(g, true);
                    }
                },
                None => {
                    files.push(cluster.files[m].clone());
                    assert(texts(files@) =~= gather(exact, members.take(m as int), start).files.push(
                        cluster.files@[m as int]@,
                    ));
                },
            }
            m = m + 1;
        }
        proof {
            assert(members.take(cluster.files@.len() as int) =~= members);
        }
        let sorted = sort_unique(files);
        if sorted.len() >= 2 {
            let group = DuplicateGroup { files: sorted, duplicate_type: DuplicateType::Perceptual };
            proof {
                assert(group_views(merged@.push(group)) =~= group_views(merged@).push(group@));
            }
            merged.push(group);
        }
        c = c + 1;
    }
    proof {
        assert(clusters.take(perceptual_groups@.len() as int) =~= clusters);
    }
    let ghost from_clusters = group_views(merged@);
    let mut g: usize = 0;
    proof {
        assert(group_views(merged@) =~= from_clusters + left_over(exact, consumed@, 0));
    }
    while g < exact_groups.len()
        invariant
            exact == group_views(exact_groups@),
            g <= exact_groups@.len(),
            consumed@.len() == exact_groups@.len(),
            group_views(merged@) == from_clusters + left_over(exact, consumed@, g as int),
        decreases exact_groups@.len() - g,
    {
        if !consumed[g] {
            let group = DuplicateGroup {
                files: copy_paths(&exact_groups[g].files),
                duplicate_type: exact_groups[g].duplicate_type,
            };
            proof {
                assert(group@ == exact[g as int]);
                assert(group_views(merged@.push(group)) =~= group_views(merged@).push(group@));
                assert(from_clusters + left_over(exact, consumed@, g as int).push(exact[g as int])
                    =~= (from_clusters + left_over(exact, consumed@, g as int)).push(
                    exact[g as int],
                ));
            }
            merged.push(group);
        }
        g = g + 1;
    }
    merged
}

/// The two lists of paths have no path in common.
pub open spec fn share_no_path(a: Seq<Seq<char>>, b: Seq<Seq<char>>) -> bool {
    forall|p: Seq<char>| #[trigger] a.contains(p) ==> !b.contains(p)
}

/// No path is in two of the groups.
pub open spec fn share_no_file(groups: Seq<GroupView>) -> bool {
    forall|i: int, j: int|
        0 <= i < j < groups.len() ==> share_no_path(
            (#[trigger] groups[i]).files,
            (#[trigger] groups[j]).files,
        )
}

/// Every path of `small` is in `big`.
pub open spec fn covers(big: Seq<Seq<char>>, small: Seq<Seq<char>>) -> bool {
    forall|p: Seq<char>| #[trigger] small.contains(p) ==> big.contains(p)
}

/// The path `p` is in one of the `clusters`.
pub open spec fn in_a_cluster(clusters: Seq<GroupView>, p: Seq<char>) -> bool {
    exists|c: int| 0 <= c < clusters.len() && (#[trigger] clusters[c]).files.contains(p)
}

/// The path `p` is in an exact group that is marked in `now` and not in
/// `start`.
pub open spec fn in_a_taken_group(
    exact: Seq<GroupView>,
    start: Seq<bool>,
    now: Seq<bool>,
    p: Seq<char>,
) -> bool {
    exists|g: int|
        0 <= g < exact.len() && !start[g] && now[g] && (#[trigger] exact[g]).files.contains(p)
}

/// No mark at all.
pub open spec fn unmarked(n: nat) -> Seq<bool> {
    Seq::new(n, |g: int| false)
}

/// What `gather` gathers: the members that no exact group holds and the
/// files of the exact groups that it marks, all of them and nothing else.
/// Marks are only added.
pub proof fn gather_is_exact(exact: Seq<GroupView>, members: Seq<Seq<char>>, start: Seq<bool>)
    requires
        start.len() == exact.len(),
    ensures
        gather(exact, members, start).consumed.len() == exact.len(),
        forall|g: int|
            0 <= g < exact.len() && start[g] ==> #[trigger] gather(exact, members, start).consumed[g],
        forall|p: Seq<char>| #[trigger]
            gather(exact, members, start).files.contains(p) ==> (holder(exact, p) < 0
                && members.contains(p)) || in_a_taken_group(
                exact,
                start,
                gather(exact, members, start).consumed,
                p,
            ),
        forall|g: int, p: Seq<char>|
            0 <= g < exact.len() && !start[g] && gather(exact, members, start).consumed[g]
                && #[trigger] exact[g].files.contains(p) ==> gather(
                exact,
                members,
                start,
            ).files.contains(p),
    decreases members.len(),
{
    let out = gather(exact, members, start);
    if members.len() > 0 {
        let head = members.drop_last();
        let last = members.last();
        let sofar = gather(exact, head, start);
        gather_is_exact(exact, head, start);
        holder_is_last(exact, last);
        let g = holder(exact, last);
        assert forall|p: Seq<char>| head.contains(p) implies members.contains(p) by {
            let k = choose|k: int| 0 <= k < head.len() && head[k] == p;
            assert(members[k] == p);
        }
        assert(members[members.len() - 1] == last);
        if g < 0 {
            assert forall|p: Seq<char>| #[trigger] out.files.contains(p) implies (holder(exact, p)
                < 0 && members.contains(p)) || in_a_taken_group(exact, start, out.consumed, p) by {
                let k = choose|k: int| 0 <= k < out.files.len() && out.files[k] == p;
                if k < sofar.files.len() {
                    assert(sofar.files[k] == p);
                    assert(sofar.files.contains(p));
                }
            }
            assert forall|q: int, p: Seq<char>|
                0 <= q < exact.len() && !start[q] && out.consumed[q]
                    && #[trigger] exact[q].files.contains(p) implies out.files.contains(p) by {
                assert(sofar.files.contains(p));
                let k = choose|k: int| 0 <= k < sofar.files.len() && sofar.files[k] == p;
                assert(out.files[k] == p);
            }
        } else if sofar.consumed[g] {
        } else {
            assert forall|p: Seq<char>| #[trigger] out.files.contains(p) implies (holder(exact, p)
                < 0 && members.contains(p)) || in_a_taken_group(exact, start, out.consumed, p) by {
                let k = choose|k: int| 0 <= k < out.files.len() && out.files[k] == p;
                if k < sofar.files.len() {
                    assert(sofar.files[k] == p);
                    assert(sofar.files.contains(p));
                    if in_a_taken_group(exact, start, sofar.consumed, p) {
                        let q = choose|q: int|
                            0 <= q < exact.len() && !start[q] && sofar.consumed[q] && (
                            #[trigger] exact[q]).files.contains(p);
                        assert(out.consumed[q] && exact[q].files.contains(p));
                    }
                } else {
                    assert(exact[g].files[k - sofar.files.len()] == p);
                    assert(out.consumed[g] && exact[g].files.contains(p));
                }
            }
            assert forall|q: int, p: Seq<char>|
                0 <= q < exact.len() && !start[q] && out.consumed[q]
                    && #[trigger] exact[q].files.contains(p) implies out.files.contains(p) by {
                if q == g {
                    let k = choose|k: int| 0 <= k < exact[g].files.len() && exact[g].files[k] == p;
                    assert(out.files[sofar.files.len() + k] == p);
                } else {
                    assert(sofar.files.contains(p));
                    let k = choose|k: int| 0 <= k < sofar.files.len() && sofar.files[k] == p;
                    assert(out.files[k] == p);
                }
            }
        }
    }
}

/// What the clusters give: every group is perceptual, and each of its
/// paths is a cluster member that no exact group holds or a file of an
/// exact group that is marked.
pub proof fn merged_paths_are_accounted(exact: Seq<GroupView>, clusters: Seq<GroupView>)
    ensures
        merge_clusters(exact, clusters).consumed.len() == exact.len(),
        forall|k: int|
            0 <= k < merge_clusters(exact, clusters).groups.len() ==> (#[trigger] merge_clusters(
                exact,
                clusters,
            ).groups[k]).duplicate_type == DuplicateType::Perceptual,
        forall|k: int, p: Seq<char>|
            0 <= k < merge_clusters(exact, clusters).groups.len() && #[trigger] merge_clusters(
                exact,
                clusters,
            ).groups[k].files.contains(p) ==> (holder(exact, p) < 0 && in_a_cluster(clusters, p))
                || in_a_taken_group(
                exact,
                unmarked(exact.len()),
                merge_clusters(exact, clusters).consumed,
                p,
            ),
    decreases clusters.len(),
{
    let out = merge_clusters(exact, clusters);
    if clusters.len() > 0 {
        let head = clusters.drop_last();
        let sofar = merge_clusters(exact, head);
        merged_paths_are_accounted(exact, head);
        let gathered = gather(exact, clusters.last().files, sofar.consumed);
        gather_is_exact(exact, clusters.last().files, sofar.consumed);
        sorted_unique_is_exact(gathered.files);
        assert forall|k: int, p: Seq<char>|
            0 <= k < out.groups.len() && #[trigger] out.groups[k].files.contains(p) implies (holder(
            exact,
            p,
        ) < 0 && in_a_cluster(clusters, p)) || in_a_taken_group(
            exact,
            unmarked(exact.len()),
            out.consumed,
            p,
        ) by {
            if k < sofar.groups.len() {
                assert(sofar.groups[k].files.contains(p));
                if holder(exact, p) < 0 && in_a_cluster(head, p) {
                    let c = choose|c: int| 0 <= c < head.len() && (#[trigger] head[c]).files.contains(p);
                    assert(clusters[c].files.contains(p));
                } else {
                    let g = choose|g: int|
                        0 <= g < exact.len() && !unmarked(exact.len())[g] && sofar.consumed[g] && (
                        #[trigger] exact[g]).files.contains(p);
                    assert(out.consumed[g] && exact[g].files.contains(p));
                }
            } else {
                assert(gathered.files.contains(p));
                if holder(exact, p) < 0 && clusters.last().files.contains(p) {
                    assert(clusters[clusters.len() - 1].files.contains(p));
                } else {
                    let g = choose|g: int|
                        0 <= g < exact.len() && !sofar.consumed[g] && gathered.consumed[g] && (
                        #[trigger] exact[g]).files.contains(p);
                    assert(out.consumed[g] && exact[g].files.contains(p));
                }
            }
        }
    }
}

/// A list that holds two different paths has at least two entries.
proof fn two_paths_take_two_places(s: Seq<Seq<char>>, p: Seq<char>, q: Seq<char>)
    requires
        s.contains(p),
        s.contains(q),
        p != q,
    ensures
        s.len() >= 2,
{
    let i = choose|i: int| 0 <= i < s.len() && s[i] == p;
    let j = choose|j: int| 0 <= j < s.len() && s[j] == q;
    assert(i != j);
}

/// Whether the list holds two different paths.
pub open spec fn holds_two(files: Seq<Seq<char>>) -> bool {
    exists|p: Seq<char>, q: Seq<char>| #[trigger] files.contains(p) && #[trigger] files.contains(q) && p != q
}

/// One of the `groups` holds every path of `small`.
pub open spec fn covered_by_one(groups: Seq<GroupView>, small: Seq<Seq<char>>) -> bool {
    exists|k: int| 0 <= k < groups.len() && covers((#[trigger] groups[k]).files, small)
}

/// An exact group of two or more different paths that is marked has gone
/// into one of the groups that the clusters give, with all its files.
pub proof fn taken_groups_are_kept_whole(exact: Seq<GroupView>, clusters: Seq<GroupView>)
    ensures
        forall|g: int|
            0 <= g < exact.len() && #[trigger] merge_clusters(exact, clusters).consumed[g] && holds_two(
                exact[g].files,
            ) ==> covered_by_one(merge_clusters(exact, clusters).groups, exact[g].files),
    decreases clusters.len(),
{
    let out = merge_clusters(exact, clusters);
    merge_keeps_length(exact, clusters);
    if clusters.len() > 0 {
        let head = clusters.drop_last();
        let sofar = merge_clusters(exact, head);
        taken_groups_are_kept_whole(exact, head);
        merge_keeps_length(exact, head);
        let gathered = gather(exact, clusters.last().files, sofar.consumed);
        gather_is_exact(exact, clusters.last().files, sofar.consumed);
        sorted_unique_is_exact(gathered.files);
        let files = sorted_unique(gathered.files);
        assert forall|g: int|
            0 <= g < exact.len() && #[trigger] out.consumed[g] && holds_two(
                exact[g].files,
            ) implies covered_by_one(out.groups, exact[g].files) by {
            if sofar.consumed[g] {
                let k = choose|k: int|
                    0 <= k < sofar.groups.len() && covers(
                        (#[trigger] sofar.groups[k]).files,
                        exact[g].files,
                    );
                assert(out.groups[k] == sofar.groups[k]);
                assert(covers(out.groups[k].files, exact[g].files));
            } else {
                let (p, q) = choose|p: Seq<char>, q: Seq<char>| #[trigger]
                    exact[g].files.contains(p) && #[trigger] exact[g].files.contains(q) && p != q;
                assert(gathered.files.contains(p));
                assert(gathered.files.contains(q));
                assert(files.contains(p));
                assert(files.contains(q));
                two_paths_take_two_places(files, p, q);
                let k = sofar.groups.len() as int;
                assert(out.groups[k].files == files);
                assert forall|x: Seq<char>| #[trigger] exact[g].files.contains(x) implies files.contains(
                    x,
                ) by {
                    assert(gathered.files.contains(x));
                }
                assert(covers(out.groups[k].files, exact[g].files));
            }
        }
    }
}

/// Whether the exact group at a position is not marked in `consumed`.
pub open spec fn is_left(consumed: Seq<bool>) -> spec_fn(int) -> bool {
    |g: int| !consumed[g]
}

/// The groups that `left_over` gives are the exact groups that are not
/// marked, in their order.
pub proof fn left_over_is_exact(exact: Seq<GroupView>, consumed: Seq<bool>, n: int)
    requires
        0 <= n <= exact.len(),
        n <= usize::MAX,
    ensures
        left_over(exact, consumed, n).len() == indices_where(n, is_left(consumed)).len(),
        forall|k: int|
            0 <= k < left_over(exact, consumed, n).len() ==> #[trigger] left_over(
                exact,
                consumed,
                n,
            )[k] == exact[indices_where(n, is_left(consumed))[k] as int],
    decreases n,
{
    if n > 0 {
        left_over_is_exact(exact, consumed, n - 1);
    }
}

/// Reconciling gives groups that share no file, provided that the exact
/// groups share no file among themselves and neither do the clusters.
pub proof fn reconciled_groups_share_no_file(exact: Seq<GroupView>, clusters: Seq<GroupView>)
    requires
        share_no_file(exact),
        share_no_file(clusters),
        exact.len() <= usize::MAX,
    ensures
        share_no_file(reconciled(exact, clusters)),
{
    let merging = merge_clusters(exact, clusters);
    let rest = left_over(exact, merging.consumed, exact.len() as int);
    let all = reconciled(exact, clusters);
    merged_groups_share_no_file(exact, clusters);
    merged_paths_are_accounted(exact, clusters);
    left_over_is_exact(exact, merging.consumed, exact.len() as int);
    let left = indices_where(exact.len() as int, is_left(merging.consumed));
    indices_where_is_exact(exact.len() as int, is_left(merging.consumed));
    assert forall|i: int, j: int| 0 <= i < j < all.len() implies share_no_path(
        (#[trigger] all[i]).files,
        (#[trigger] all[j]).files,
    ) by {
        if j < merging.groups.len() {
            assert(share_no_path(merging.groups[i].files, merging.groups[j].files));
        } else if i < merging.groups.len() {
            let g = left[j - merging.groups.len()] as int;
            assert(all[j] == exact[g]);
            assert(!merging.consumed[g]);
            assert forall|p: Seq<char>| #[trigger] all[i].files.contains(p) implies !all[j].files.contains(
                p,
            ) by {
                if all[j].files.contains(p) {
                    assert(merging.groups[i].files.contains(p));
                    holder_is_last(exact, p);
                    if holder(exact, p) < 0 {
                        assert(exact[g].files.contains(p));
                    } else {
                        let h = choose|h: int|
                            0 <= h < exact.len() && !unmarked(exact.len())[h] && merging.consumed[h]
                                && (#[trigger] exact[h]).files.contains(p);
                        assert(exact[h].files.contains(p));
                        if h < g {
                            assert(share_no_path(exact[h].files, exact[g].files));
                        } else {
                            assert(share_no_path(exact[g].files, exact[h].files));
                        }
                    }
                }
            }
        } else {
            let g = left[i - merging.groups.len()] as int;
            let h = left[j - merging.groups.len()] as int;
            assert(all[i] == exact[g]);
            assert(all[j] == exact[h]);
            assert(g < h);
            assert(share_no_path(exact[g].files, exact[h].files));
        }
    }
}

/// The groups that the clusters give share no file, provided that the exact
/// groups share no file among themselves and neither do the clusters.
pub proof fn merged_groups_share_no_file(exact: Seq<GroupView>, clusters: Seq<GroupView>)
    requires
        share_no_file(exact),
        share_no_file(clusters),
    ensures
        share_no_file(merge_clusters(exact, clusters).groups),
    decreases clusters.len(),
{
    let out = merge_clusters(exact, clusters);
    if clusters.len() > 0 {
        let head = clusters.drop_last();
        let last = clusters.last();
        let sofar = merge_clusters(exact, head);
        assert(share_no_file(head)) by {
            assert forall|i: int, j: int| 0 <= i < j < head.len() implies share_no_path(
                (#[trigger] head[i]).files,
                (#[trigger] head[j]).files,
            ) by {
                assert(share_no_path(clusters[i].files, clusters[j].files));
            }
        }
        merged_groups_share_no_file(exact, head);
        merged_paths_are_accounted(exact, head);
        let gathered = gather(exact, last.files, sofar.consumed);
        gather_is_exact(exact, last.files, sofar.consumed);
        sorted_unique_is_exact(gathered.files);
        let files = sorted_unique(gathered.files);
        if files.len() >= 2 {
            let n = sofar.groups.len() as int;
            assert forall|i: int, j: int| 0 <= i < j < out.groups.len() implies share_no_path(
                (#[trigger] out.groups[i]).files,
                (#[trigger] out.groups[j]).files,
            ) by {
                if j < n {
                    assert(share_no_path(sofar.groups[i].files, sofar.groups[j].files));
                } else {
                    assert forall|p: Seq<char>| #[trigger] out.groups[i].files.contains(
                        p,
                    ) implies !out.groups[j].files.contains(p) by {
                        if out.groups[j].files.contains(p) {
                            assert(sofar.groups[i].files.contains(p));
                            assert(gathered.files.contains(p));
                            holder_is_last(exact, p);
                            if holder(exact, p) < 0 {
                                if in_a_cluster(head, p) {
                                    let c = choose|c: int|
                                        0 <= c < head.len() && (#[trigger] head[c]).files.contains(p);
                                    assert(share_no_path(
                                        clusters[c].files,
                                        clusters[clusters.len() - 1].files,
                                    ));
                                    assert(clusters[c].files.contains(p));
                                } else {
                                    let g = choose|g: int|
                                        0 <= g < exact.len() && !unmarked(exact.len())[g]
                                            && sofar.consumed[g] && (#[trigger] exact[g]).files.contains(
                                            p,
                                        );
                                    assert(exact[g].files.contains(p));
                                }
                                if in_a_taken_group(exact, sofar.consumed, gathered.consumed, p) {
                                    let g = choose|g: int|
                                        0 <= g < exact.len() && !sofar.consumed[g] && gathered.consumed[g]
                                            && (#[trigger] exact[g]).files.contains(p);
                                    assert(exact[g].files.contains(p));
                                }
                            } else {
                                let g = choose|g: int|
                                    0 <= g < exact.len() && !unmarked(exact.len())[g] && sofar.consumed[g]
                                        && (#[trigger] exact[g]).files.contains(p);
                                let h = choose|h: int|
                                    0 <= h < exact.len() && !sofar.consumed[h] && gathered.consumed[h]
                                        && (#[trigger] exact[h]).files.contains(p);
                                assert(exact[g].files.contains(p));
                                assert(exact[h].files.contains(p));
                                if g < h {
                                    assert(share_no_path(exact[g].files, exact[h].files));
                                } else {
                                    assert(share_no_path(exact[h].files, exact[g].files));
                                }
                            }
                        }
                    }
                }
            }
        }
    }
}

/// Every group that the clusters give holds at least two paths.
pub proof fn merged_groups_hold_two(exact: Seq<GroupView>, clusters: Seq<GroupView>)
    ensures
        forall|k: int|
            0 <= k < merge_clusters(exact, clusters).groups.len() ==> (#[trigger] merge_clusters(
                exact,
                clusters,
            ).groups[k]).files.len() >= 2,
    decreases clusters.len(),
{
    if clusters.len() > 0 {
        merged_groups_hold_two(exact, clusters.drop_last());
    }
}

/// Reconciling gives groups of at least two paths each, provided that the
/// exact groups hold at least two paths each.
pub proof fn reconciled_groups_hold_two(exact: Seq<GroupView>, clusters: Seq<GroupView>)
    requires
        forall|g: int| 0 <= g < exact.len() ==> (#[trigger] exact[g]).files.len() >= 2,
        exact.len() <= usize::MAX,
    ensures
        forall|k: int|
            0 <= k < reconciled(exact, clusters).len() ==> (#[trigger] reconciled(
                exact,
                clusters,
            )[k]).files.len() >= 2,
{
    let merging = merge_clusters(exact, clusters);
    merged_groups_hold_two(exact, clusters);
    left_over_is_exact(exact, merging.consumed, exact.len() as int);
    indices_where_is_exact(exact.len() as int, is_left(merging.consumed));
    let all = reconciled(exact, clusters);
    assert forall|k: int| 0 <= k < all.len() implies (#[trigger] all[k]).files.len() >= 2 by {
        if k < merging.groups.len() {
            assert(all[k] == merging.groups[k]);
        } else {
            let g = indices_where(exact.len() as int, is_left(merging.consumed))[k
                - merging.groups.len()] as int;
            assert(all[k] == exact[g]);
        }
    }
}

/// Every group that the clusters give lists its paths in ascending order,
/// each once.
pub proof fn merged_groups_are_ascending(exact: Seq<GroupView>, clusters: Seq<GroupView>)
    ensures
        forall|k: int|
            0 <= k < merge_clusters(exact, clusters).groups.len() ==> ascending(
                (#[trigger] merge_clusters(exact, clusters).groups[k]).files,
            ),
    decreases clusters.len(),
{
    if clusters.len() > 0 {
        let sofar = merge_clusters(exact, clusters.drop_last());
        merged_groups_are_ascending(exact, clusters.drop_last());
        sorted_unique_is_exact(gather(exact, clusters.last().files, sofar.consumed).files);
    }
}

} // verus!
