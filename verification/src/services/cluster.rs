//! The perceptual comparison: greedy clustering around seeds.
//!
//! The files with a fingerprint are gone through in their order. A file that
//! is in no cluster yet opens one and becomes its seed; the cluster takes
//! every later file that is in no cluster yet and whose fingerprint is
//! within tolerance of the seed's. A file joins a cluster for being close to
//! the seed, not for being close to another member: the clustering is not
//! transitive, on purpose.

use vstd::prelude::*;

use crate::services::duplicate::{all_lower_plainly, fingerprint_bits, FileRecord, FingerprintProbe, MediaFilter};
use crate::services::hasher::{are_similar, similar};
use crate::services::indices::{
    classes_where, classes_where_is_exact, indices_where, indices_where_is_exact,
    indices_where_none, views,
};
use crate::services::partition::{eligible, files_to_fingerprint};

verus! {

/// File `i` was in need of a fingerprint and has one.
pub open spec fn sighted(rs: Seq<FileRecord>, filter: MediaFilter, i: int) -> bool {
    eligible(rs, filter, i) && rs[i].fingerprint is Found
}

/// Files `i` and `j` both have a fingerprint, and the two are within the
/// similarity tolerance.
pub open spec fn alike(rs: Seq<FileRecord>, filter: MediaFilter, i: int, j: int) -> bool {
    &&& sighted(rs, filter, i)
    &&& sighted(rs, filter, j)
    &&& similar(fingerprint_bits(rs[i]).unwrap(), fingerprint_bits(rs[j]).unwrap())
}

/// File `i` opens a cluster: it has a fingerprint that is not within
/// tolerance of any earlier file that opens one.
pub open spec fn seed(rs: Seq<FileRecord>, filter: MediaFilter, i: int) -> bool
    decreases i,
{
    sighted(rs, filter, i) && forall|k: int|
        0 <= k < i && seed(rs, filter, k) ==> !#[trigger] alike(rs, filter, k, i)
}

/// The first seed from `k` on that file `j` is within tolerance of; `j`
/// itself if there is none before `j`.
pub open spec fn seed_near(rs: Seq<FileRecord>, filter: MediaFilter, j: int, k: int) -> int
    decreases j - k,
{
    if k >= j {
        j
    } else if seed(rs, filter, k) && alike(rs, filter, k, j) {
        k
    } else {
        seed_near(rs, filter, j, k + 1)
    }
}

/// The seed whose cluster a file with a fingerprint joins: the first seed
/// that it is within tolerance of, which is the file itself if it is a seed.
/// Only the distance to the seed counts, not that to the other members.
pub open spec fn owner(rs: Seq<FileRecord>, filter: MediaFilter, j: int) -> int {
    seed_near(rs, filter, j, 0)
}

/// Whether a file joins the cluster of seed `s`.
pub open spec fn joins(rs: Seq<FileRecord>, filter: MediaFilter, s: int) -> spec_fn(int) -> bool {
    |j: int| sighted(rs, filter, j) && owner(rs, filter, j) == s
}

/// The cluster of seed `s`: the seed and the files that join it, in
/// ascending order.
pub open spec fn cluster_of(rs: Seq<FileRecord>, filter: MediaFilter, s: int) -> Seq<usize> {
    indices_where(rs.len() as int, joins(rs, filter, s))
}

/// Whether file `s` is a seed whose cluster has more than one file.
pub open spec fn leads_cluster(rs: Seq<FileRecord>, filter: MediaFilter) -> spec_fn(int) -> bool {
    |s: int| seed(rs, filter, s) && cluster_of(rs, filter, s).len() >= 2
}

/// `cluster_of` with all but the seed fixed.
pub open spec fn cluster_map(rs: Seq<FileRecord>, filter: MediaFilter) -> spec_fn(int) -> Seq<
    usize,
> {
    |s: int| cluster_of(rs, filter, s)
}

/// The perceptual clusters of a scan: the clusters of more than one file,
/// in the order of their seeds.
pub open spec fn clusters(rs: Seq<FileRecord>, filter: MediaFilter) -> Seq<Seq<usize>> {
    classes_where(rs.len() as int, leads_cluster(rs, filter), cluster_map(rs, filter))
}

/// What `seed_near` finds: nothing between `k` and its result is a seed
/// within tolerance of `j`, and its result is one unless it is `j`.
pub proof fn seed_near_is_first(rs: Seq<FileRecord>, filter: MediaFilter, j: int, k: int)
    requires
        0 <= k <= j,
    ensures
        k <= seed_near(rs, filter, j, k) <= j,
        forall|q: int|
            k <= q < seed_near(rs, filter, j, k) ==> !(seed(rs, filter, q) && #[trigger] alike(
                rs,
                filter,
                q,
                j,
            )),
        seed_near(rs, filter, j, k) < j ==> seed(rs, filter, seed_near(rs, filter, j, k)) && alike(
            rs,
            filter,
            seed_near(rs, filter, j, k),
            j,
        ),
    decreases j - k,
{
    if k < j && !(seed(rs, filter, k) && alike(rs, filter, k, j)) {
        seed_near_is_first(rs, filter, j, k + 1);
    }
}

/// A file with a fingerprint is a seed exactly if it is its own owner.
pub proof fn seed_owns_itself(rs: Seq<FileRecord>, filter: MediaFilter, j: int)
    requires
        sighted(rs, filter, j),
    ensures
        seed(rs, filter, j) <==> owner(rs, filter, j) == j,
{
    seed_near_is_first(rs, filter, j, 0);
    let o = owner(rs, filter, j);
    if o == j {
        assert forall|k: int| 0 <= k < j && seed(rs, filter, k) implies !#[trigger] alike(
            rs,
            filter,
            k,
            j,
        ) by {}
        assert(seed(rs, filter, j));
    } else {
        assert(seed(rs, filter, o) && alike(rs, filter, o, j));
        assert(!seed(rs, filter, j));
    }
}

/// Whether the fingerprints of two records are within tolerance.
fn fingerprints_alike(a: &FileRecord, b: &FileRecord) -> (close: bool)
    ensures
        close == (a.fingerprint is Found && b.fingerprint is Found && similar(
            fingerprint_bits(*a).unwrap(),
            fingerprint_bits(*b).unwrap(),
        )),
{
    match (&a.fingerprint, &b.fingerprint) {
        (FingerprintProbe::Found(x), FingerprintProbe::Found(y)) => are_similar(x, y),
        _ => false,
    }
}

/// The perceptual clusters: greedy grouping around seeds. The files with a
/// fingerprint are gone through in ascending order; each one that is in no
/// cluster yet opens one, which takes every later file that is in no cluster
/// yet and within tolerance of it. Clusters of one file are dropped.
pub fn find_perceptual_duplicates(records: &Vec<FileRecord>, filter: MediaFilter) -> (groups: Vec<
    Vec<usize>,
>)
    ensures
        views(groups@) == clusters(records@, filter),
        all_lower_plainly(records@),
{
    let wanted = files_to_fingerprint(records, filter);
    cluster_around_seeds(records, &wanted, Ghost(filter))
}

/// The perceptual clusters, given for each file whether it is in need of a
/// fingerprint.
pub(crate) fn cluster_around_seeds(
    records: &Vec<FileRecord>,
    wanted: &Vec<bool>,
    Ghost(filter): Ghost<MediaFilter>,
) -> (groups: Vec<Vec<usize>>)
    requires
        wanted@.len() == records@.len(),
        forall|k: int| 0 <= k < wanted@.len() ==> wanted@[k] == eligible(records@, filter, k),
    ensures
        views(groups@) == clusters(records@, filter),
{
    let n = records.len();
    let mut sight: Vec<bool> = Vec::new();
    let mut used: Vec<bool> = Vec::new();
    let mut t: usize = 0;
    while t < n
        invariant
            n == records@.len(),
            wanted@.len() == n,
            forall|k: int| 0 <= k < n ==> wanted@[k] == eligible(records@, filter, k),
            t <= n,
            sight@.len() == t,
            used@.len() == t,
            forall|k: int| 0 <= k < t ==> sight@[k] == sighted(records@, filter, k),
            forall|k: int| 0 <= k < t ==> !used@[k],
        decreases n - t,
    {
        let found = match &records[t].fingerprint {
            FingerprintProbe::Found(_) => true,
            _ => false,
        };
        sight.push(wanted[t] && found);
        used.push(false);
        t = t + 1;
    }
    let mut groups: Vec<Vec<usize>> = Vec::new();
    let mut i: usize = 0;
    proof {
        assert forall|j: int| 0 <= j < n implies used@[j] == (sighted(records@, filter, j) && owner(
            records@,
            filter,
            j,
        ) < 0) by {
            seed_near_is_first(records@, filter, j, 0);
        }
    }
    while i < n
        invariant
            n == records@.len(),
            sight@.len() == n,
            used@.len() == n,
            forall|k: int| 0 <= k < n ==> sight@[k] == sighted(records@, filter, k),
            i <= n,
            forall|j: int|
                0 <= j < n ==> #[trigger] used@[j] == (sighted(records@, filter, j) && owner(
                    records@,
                    filter,
                    j,
                ) < i),
            views(groups@) == classes_where(
                i as int,
                leads_cluster(records@, filter),
                cluster_map(records@, filter),
            ),
        decreases n - i,
    {
        let ghost before = used@;
        proof {
            seed_near_is_first(records@, filter, i as int, 0);
        }
        if sight[i] && !used[i] {
            proof {
                seed_owns_itself(records@, filter, i as int);
                assert forall|k: int| 0 <= k < i implies !#[trigger] joins(
                    records@,
                    filter,
                    i as int,
                )(k) by {
                    seed_near_is_first(records@, filter, k, 0);
                }
                indices_where_none(i as int, joins(records@, filter, i as int));
            }
            let mut cluster: Vec<usize> = Vec::new();
            let mut j: usize = i;
            while j < n
                invariant
                    n == records@.len(),
                    sight@.len() == n,
                    used@.len() == n,
                    before.len() == n,
                    forall|k: int| 0 <= k < n ==> sight@[k] == sighted(records@, filter, k),
                    i <= j <= n,
                    sighted(records@, filter, i as int),
                    seed(records@, filter, i as int),
                    owner(records@, filter, i as int) == i,
                    forall|k: int|
                        0 <= k < n ==> #[trigger] before[k] == (sighted(records@, filter, k)
                            && owner(records@, filter, k) < i),
                    cluster@ == indices_where(j as int, joins(records@, filter, i as int)),
                    forall|k: int|
                        0 <= k < n ==> #[trigger] used@[k] == (before[k] || (i <= k < j && joins(
                            records@,
                            filter,
                            i as int,
                        )(k))),
                decreases n - j,
            {
                let member = j == i || (sight[j] && !used[j] && fingerprints_alike(
                    &records[i],
                    &records[j],
                ));
                proof {
                    seed_near_is_first(records@, filter, j as int, 0);
                    assert(used@[j as int] == before[j as int]);
                    let o = owner(records@, filter, j as int);
                    if member && j != i {
                        assert(alike(records@, filter, i as int, j as int));
                        assert(!before[j as int]);
                        assert(o >= i);
                        if o > i {
                            assert(!(seed(records@, filter, i as int) && alike(
                                records@,
                                filter,
                                i as int,
                                j as int,
                            )));
                        }
                        assert(o == i);
                    }
                    if !member && sighted(records@, filter, j as int) && o == i {
                        assert(alike(records@, filter, i as int, j as int));
                        assert(false);
                    }
                    assert(member == joins(records@, filter, i as int)(j as int));
                }
                if member {
                    cluster.push(j);
                    used.set(j, true);
                }
                j = j + 1;
            }
            assert(cluster@ == cluster_of(records@, filter, i as int));
            if cluster.len() >= 2 {
                proof {
                    assert(views(groups@.push(cluster)) =~= views(groups@).push(cluster@));
                }
                groups.push(cluster);
            }
            proof {
                assert forall|k: int| 0 <= k < n implies #[trigger] used@[k] == (sighted(
                    records@,
                    filter,
                    k,
                ) && owner(records@, filter, k) < i + 1) by {
                    seed_near_is_first(records@, filter, k, 0);
                }
            }
        } else {
            proof {
                if sighted(records@, filter, i as int) {
                    seed_owns_itself(records@, filter, i as int);
                }
                assert(!seed(records@, filter, i as int));
                assert forall|k: int| 0 <= k < n implies #[trigger] used@[k] == (sighted(
                    records@,
                    filter,
                    k,
                ) && owner(records@, filter, k) < i + 1) by {
                    seed_near_is_first(records@, filter, k, 0);
                }
            }
        }
        i = i + 1;
    }
    groups
}

/// Every file of every cluster is a file of the scan.
pub proof fn clusters_are_within(rs: Seq<FileRecord>, filter: MediaFilter)
    requires
        rs.len() <= usize::MAX,
    ensures
        forall|k: int, m: int|
            0 <= k < clusters(rs, filter).len() && 0 <= m < clusters(rs, filter)[k].len() ==> (
            #[trigger] clusters(rs, filter)[k][m]) < rs.len(),
{
    let n = rs.len() as int;
    let all = clusters(rs, filter);
    classes_where_is_exact(n, leads_cluster(rs, filter), cluster_map(rs, filter));
    assert forall|k: int, m: int| 0 <= k < all.len() && 0 <= m < all[k].len() implies (
    #[trigger] all[k][m]) < rs.len() by {
        let s = indices_where(n, leads_cluster(rs, filter))[k] as int;
        indices_where_is_exact(n, joins(rs, filter, s));
    }
}

} // verus!
