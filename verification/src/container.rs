//! The container index: the mapping from an item's archive-local path
//! identifier to the name of the logical container that claims it, built from
//! the manifest's container claims and preload table.

use vstd::prelude::*;
use std::collections::HashMap;
use vstd::map::*;

verus! {

broadcast use vstd::std_specs::hash::group_hash_axioms;

/// One entry of a manifest's preload table: a reference to an item by its
/// archive-local path identifier and file identifier.
#[derive(Clone, Copy, Debug, PartialEq, Eq, Structural)]
pub struct PreloadRef {
    pub path_id: i64,
    pub file_id: i64,
}

/// One named container of a manifest: it claims the half-open range
/// `[preload_index, preload_index + preload_size)` of the preload table.
pub struct ContainerClaim {
    pub name: String,
    pub preload_index: u64,
    pub preload_size: u64,
}

/// A manifest decoded to plain values: the named container claims, in the
/// order they are applied, and the preload table they index into.
pub struct Manifest {
    pub containers: Vec<ContainerClaim>,
    pub preload_table: Vec<PreloadRef>,
}

/// Whether `claim` maps path identifier `pid`, looking only at preload-table
/// positions below `upto`. Positions outside the table are skipped, not an
/// error.
pub open spec fn spec_claim_covers_upto(
    claim: ContainerClaim,
    table: Seq<PreloadRef>,
    pid: i64,
    upto: int,
) -> bool {
    exists|i: int|
        claim.preload_index <= i < upto && i < claim.preload_index + claim.preload_size && i
            < table.len() && table[i].path_id == pid
}

/// The index that the claims before `claim` built, extended by what `claim`
/// maps among the preload-table positions below `upto`: where `claim` covers
/// a path identifier it wins over earlier claims.
pub open spec fn spec_apply_claim(
    prev: Map<i64, Seq<char>>,
    claim: ContainerClaim,
    table: Seq<PreloadRef>,
    upto: int,
) -> Map<i64, Seq<char>> {
    Map::new(
        |pid: i64| prev.dom().contains(pid) || spec_claim_covers_upto(claim, table, pid, upto),
        |pid: i64|
            if spec_claim_covers_upto(claim, table, pid, upto) {
                claim.name@
            } else {
                prev[pid]
            },
    )
}

/// An index extended by a sequence of claims over one preload table, applied
/// in order: a later claim wins where two claims cover the same path
/// identifier.
pub open spec fn spec_index_from(
    prev: Map<i64, Seq<char>>,
    claims: Seq<ContainerClaim>,
    table: Seq<PreloadRef>,
) -> Map<i64, Seq<char>>
    decreases claims.len(),
{
    if claims.len() == 0 {
        prev
    } else {
        let earlier = spec_index_from(prev, claims.drop_last(), table);
        let last = claims.last();
        spec_apply_claim(earlier, last, table, last.preload_index + last.preload_size)
    }
}

/// The container index that one manifest's claims build over its preload
/// table.
pub open spec fn spec_container_index(claims: Seq<ContainerClaim>, table: Seq<PreloadRef>) -> Map<
    i64,
    Seq<char>,
> {
    spec_index_from(Map::empty(), claims, table)
}

/// The one index accumulated over every manifest of an archive, each
/// manifest's claims ranging over its own preload table; a later manifest
/// wins where two map the same path identifier.
pub open spec fn spec_accumulated_index(manifests: Seq<Manifest>) -> Map<i64, Seq<char>>
    decreases manifests.len(),
{
    if manifests.len() == 0 {
        Map::empty()
    } else {
        spec_index_from(
            spec_accumulated_index(manifests.drop_last()),
            manifests.last().containers@,
            manifests.last().preload_table@,
        )
    }
}

/// What a lookup in the index yields: the mapped container name, or the empty
/// string for an item no container claims.
pub open spec fn spec_resolve(index: Map<i64, Seq<char>>, pid: i64) -> Seq<char> {
    if index.dom().contains(pid) {
        index[pid]
    } else {
        Seq::empty()
    }
}

/// Positions at or beyond the table's end contribute nothing, so every bound
/// past the table's length draws the same boundary.
proof fn lemma_covers_upto_saturates(
    claim: ContainerClaim,
    table: Seq<PreloadRef>,
    a: int,
    b: int,
)
    requires
        table.len() <= a,
        table.len() <= b,
    ensures
        forall|pid: i64|
            spec_claim_covers_upto(claim, table, pid, a) == spec_claim_covers_upto(
                claim,
                table,
                pid,
                b,
            ),
{
    assert forall|pid: i64|
        spec_claim_covers_upto(claim, table, pid, a) == spec_claim_covers_upto(
            claim,
            table,
            pid,
            b,
        ) by {
        if spec_claim_covers_upto(claim, table, pid, a) {
            let i = choose|i: int|
                claim.preload_index <= i < a && i < claim.preload_index + claim.preload_size && i
                    < table.len() && table[i].path_id == pid;
            assert(claim.preload_index <= i < b && i < claim.preload_index + claim.preload_size && i
                < table.len() && table[i].path_id == pid);
        }
        if spec_claim_covers_upto(claim, table, pid, b) {
            let i = choose|i: int|
                claim.preload_index <= i < b && i < claim.preload_index + claim.preload_size && i
                    < table.len() && table[i].path_id == pid;
            assert(claim.preload_index <= i < a && i < claim.preload_index + claim.preload_size && i
                < table.len() && table[i].path_id == pid);
        }
    }
}

/// The container index of one archive, from item path identifier to the name
/// of the container that claims it.
pub struct ContainerIndex {
    map: HashMap<i64, String>,
}

impl View for ContainerIndex {
    type V = Map<i64, Seq<char>>;

    closed spec fn view(&self) -> Map<i64, Seq<char>> {
        self.map@.map_values(|v: String| v@)
    }
}

impl ContainerIndex {
    /// An index that maps nothing.
    pub fn new() -> (r: Self)
        ensures
            r@ == Map::<i64, Seq<char>>::empty(),
    {
        let r = ContainerIndex { map: HashMap::new() };
        proof {
            assert(r@ =~= Map::<i64, Seq<char>>::empty());
        }
        r
    }

    /// Looks an item up: the name of the container that claims it, or the
    /// empty string if none does.
    pub fn resolve(&self, path_id: i64) -> (r: String)
        ensures
            r@ == spec_resolve(self@, path_id),
    {
        match self.map.get(&path_id) {
            Some(s) => s.clone(),
            None => String::new(),
        }
    }
}

/// Extends an index with one manifest: every container claim is applied in
/// order, mapping the path identifier of each preload-table entry in the
/// claim's range to the container's name. Range positions outside the table
/// are skipped.
pub fn apply_manifest(idx: &mut ContainerIndex, manifest: &Manifest)
    ensures
        final(idx)@ == spec_index_from(old(idx)@, manifest.containers@, manifest.preload_table@),
{
    let ghost base = idx@;
    let ghost table = manifest.preload_table@;
    let n = manifest.containers.len();
    let mut c: usize = 0;
    proof {
        assert(manifest.containers@.take(0) =~= Seq::<ContainerClaim>::empty());
    }
    while c < n
        invariant
            n == manifest.containers@.len(),
            0 <= c <= n,
            table == manifest.preload_table@,
            idx@ == spec_index_from(base, manifest.containers@.take(c as int), table),
        decreases n - c,
    {
        let ghost prev = spec_index_from(base, manifest.containers@.take(c as int), table);
        let ghost claim = manifest.containers@[c as int];
        let lo: u64 = manifest.containers[c].preload_index;
        let sz: u64 = manifest.containers[c].preload_size;
        let table_len: usize = manifest.preload_table.len();
        let mut k: u64 = 0;
        proof {
            assert forall|pid: i64| !spec_claim_covers_upto(claim, table, pid, lo as int) by {}
            assert(idx@ =~= spec_apply_claim(prev, claim, table, lo as int));
        }
        while k < sz
            invariant_except_break
                0 <= k <= sz,
                claim == manifest.containers@[c as int],
                claim.preload_index == lo,
                claim.preload_size == sz,
                table == manifest.preload_table@,
                table_len == table.len(),
                0 <= c < manifest.containers@.len(),
                idx@ == spec_apply_claim(prev, claim, table, lo as int + k as int),
            ensures
                claim == manifest.containers@[c as int],
                table == manifest.preload_table@,
                idx@ == spec_apply_claim(prev, claim, table, lo as int + sz as int),
            decreases sz - k,
        {
            let ghost upto = lo as int + k as int;
            if lo > u64::MAX - k {
                // every remaining range position exceeds any possible table
                // length, so the claim maps nothing more
                proof {
                    lemma_covers_upto_saturates(claim, table, upto, lo as int + sz as int);
                    assert(spec_apply_claim(prev, claim, table, upto) =~= spec_apply_claim(
                        prev,
                        claim,
                        table,
                        lo as int + sz as int,
                    ));
                }
                break;
            }
            let pos: u64 = lo + k;
            if pos < table_len as u64 {
                let ghost m0 = idx.map@;
                let pid: i64 = manifest.preload_table[pos as usize].path_id;
                let name: String = manifest.containers[c].name.clone();
                let ghost gname = name;
                idx.map.insert(pid, name);
                proof {
                    assert(idx.map@ == m0.insert(pid, gname));
                    assert(gname@ == claim.name@);
                    assert forall|q: i64|
                        spec_claim_covers_upto(claim, table, q, upto + 1) == (
                        spec_claim_covers_upto(claim, table, q, upto) || q == pid) by {
                        if spec_claim_covers_upto(claim, table, q, upto + 1) {
                            let i = choose|i: int|
                                claim.preload_index <= i < upto + 1 && i < claim.preload_index
                                    + claim.preload_size && i < table.len() && table[i].path_id
                                    == q;
                            if i == upto {
                                assert(q == pid);
                            } else {
                                assert(spec_claim_covers_upto(claim, table, q, upto));
                            }
                        }
                        if q == pid {
                            assert(claim.preload_index <= upto < upto + 1 && upto
                                < claim.preload_index + claim.preload_size && upto < table.len()
                                && table[upto].path_id == q);
                        }
                        if spec_claim_covers_upto(claim, table, q, upto) {
                            let i = choose|i: int|
                                claim.preload_index <= i < upto && i < claim.preload_index
                                    + claim.preload_size && i < table.len() && table[i].path_id
                                    == q;
                            assert(spec_claim_covers_upto(claim, table, q, upto + 1));
                        }
                    }
                    let x = idx.map@.map_values(|v: String| v@);
                    let y = spec_apply_claim(prev, claim, table, upto + 1);
                    let m_old = m0.map_values(|v: String| v@);
                    assert(m_old == spec_apply_claim(prev, claim, table, upto));
                    assert_maps_equal!(x, y, q: i64 => {
                        assert(x.dom().contains(q) == idx.map@.dom().contains(q));
                        assert(m_old.dom().contains(q) == m0.dom().contains(q));
                        if q == pid {
                            assert(idx.map@.dom().contains(q));
                            assert(idx.map@[q] == gname);
                            assert(x[q] == gname@);
                            assert(y.dom().contains(q));
                            assert(y[q] == claim.name@);
                        } else {
                            assert(idx.map@.dom().contains(q) == m0.dom().contains(q));
                            if m0.dom().contains(q) {
                                assert(idx.map@[q] == m0[q]);
                                assert(x[q] == m0[q]@);
                                assert(m_old[q] == m0[q]@);
                            }
                        }
                    });
                }
            } else {
                // a range position outside the preload table contributes
                // nothing, and every later position is outside it too
                proof {
                    lemma_covers_upto_saturates(claim, table, upto, lo as int + sz as int);
                    assert(spec_apply_claim(prev, claim, table, upto) =~= spec_apply_claim(
                        prev,
                        claim,
                        table,
                        lo as int + sz as int,
                    ));
                }
                break;
            }
            k = k + 1;
        }
        c = c + 1;
        proof {
            let taken = manifest.containers@.take(c as int);
            assert(taken.drop_last() =~= manifest.containers@.take(c as int - 1));
            assert(taken.last() == claim);
            assert(spec_index_from(base, taken, table) == spec_apply_claim(
                prev,
                claim,
                table,
                lo as int + sz as int,
            ));
        }
    }
    proof {
        assert(manifest.containers@.take(n as int) =~= manifest.containers@);
    }
}

/// Builds the container index of one archive from one decoded manifest.
pub fn build_container_index(manifest: &Manifest) -> (idx: ContainerIndex)
    ensures
        idx@ == spec_container_index(manifest.containers@, manifest.preload_table@),
{
    let mut idx = ContainerIndex::new();
    apply_manifest(&mut idx, manifest);
    idx
}

/// Builds the one container index of an archive that holds several manifest
/// entries, accumulating them in order; an archive usually has at most one,
/// but more are tolerated.
pub fn accumulate_container_index(manifests: &Vec<Manifest>) -> (idx: ContainerIndex)
    ensures
        idx@ == spec_accumulated_index(manifests@),
{
    let mut idx = ContainerIndex::new();
    let n = manifests.len();
    let mut c: usize = 0;
    proof {
        assert(manifests@.take(0) =~= Seq::<Manifest>::empty());
    }
    while c < n
        invariant
            n == manifests@.len(),
            0 <= c <= n,
            idx@ == spec_accumulated_index(manifests@.take(c as int)),
        decreases n - c,
    {
        apply_manifest(&mut idx, &manifests[c]);
        c = c + 1;
        proof {
            let taken = manifests@.take(c as int);
            assert(taken.drop_last() =~= manifests@.take(c as int - 1));
            assert(taken.last() == manifests@[c as int - 1]);
        }
    }
    proof {
        assert(manifests@.take(n as int) =~= manifests@);
    }
    idx
}

} // verus!
