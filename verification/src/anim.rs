//! Skeletal animation state: the bot animation states, the channel kinds a
//! clip animates, and the joint ordering every skeleton relies on (a
//! joint's parent always comes before the joint).
use vstd::prelude::*;

verus! {

/// The property an animation channel drives on its target joint.
#[derive(Clone, Copy, Debug, PartialEq, Eq, Structural)]
pub enum ChannelKind {
    /// Local translation (packed in the value's `.xyz`).
    Translation,
    /// Local rotation (packed as a quaternion `xyzw`).
    Rotation,
    /// Local scale (packed in the value's `.xyz`).
    Scale,
}

/// Bot animation states: idle, walk and death.
#[derive(Clone, Copy, Debug, PartialEq, Eq, Structural)]
pub enum AnimState {
    /// Standing still.
    Idle,
    /// Locomoting along a waypoint path.
    Walk,
    /// Dead — plays once and holds the final frame.
    Death,
}

impl AnimState {
    /// Whether this state's clip loops: locomotion loops, death holds its
    /// last frame.
    pub fn loops(self) -> (r: bool)
        ensures
            r == (self != AnimState::Death),
    {
        match self {
            AnimState::Death => false,
            _ => true,
        }
    }
}

// ---------------------------------------------------------------------------
// Joint ordering
// ---------------------------------------------------------------------------

/// Every parent index names a joint.
pub open spec fn parents_in_range(parents: Seq<Option<usize>>) -> bool {
    forall|i: int| 0 <= i < parents.len() ==> (#[trigger] parents[i] matches Some(p) ==> p < parents.len())
}

/// `rank` strictly increases from each parent to its child, so following
/// parents never loops.
pub open spec fn ranked(parents: Seq<Option<usize>>, rank: Seq<nat>) -> bool {
    &&& rank.len() == parents.len()
    &&& forall|i: int|
        0 <= i < parents.len() ==> (#[trigger] parents[i] matches Some(p) ==> rank[p as int] < rank[i])
}

/// The parent relation has no cycle.
pub open spec fn acyclic(parents: Seq<Option<usize>>) -> bool {
    exists|rank: Seq<nat>| ranked(parents, rank)
}

/// Whether joint `i` may be placed once the joints marked in `visited` are.
pub open spec fn is_ready(parents: Seq<Option<usize>>, visited: Seq<bool>, i: int) -> bool {
    match parents[i] {
        None => true,
        Some(p) => visited[p as int],
    }
}

/// The number of marked entries among the first `k`.
pub open spec fn count_true(s: Seq<bool>, k: int) -> nat
    decreases k,
{
    if k <= 0 {
        0
    } else {
        count_true(s, k - 1) + if s[k - 1] {
            1nat
        } else {
            0nat
        }
    }
}

proof fn lemma_count_update(s: Seq<bool>, k: int, i: int)
    requires
        0 <= i < s.len(),
        0 <= k <= s.len(),
        !s[i],
    ensures
        count_true(s.update(i, true), k) == count_true(s, k) + if i < k {
            1nat
        } else {
            0nat
        },
    decreases k,
{
    if k > 0 {
        lemma_count_update(s, k - 1, i);
    }
}

proof fn lemma_count_bound(s: Seq<bool>, k: int)
    requires
        0 <= k <= s.len(),
    ensures
        count_true(s, k) <= k,
        count_true(s, k) == k ==> forall|j: int| 0 <= j < k ==> s[j],
    decreases k,
{
    if k > 0 {
        lemma_count_bound(s, k - 1);
    }
}

/// Following unplaced parents from an unplaced joint reaches an unplaced
/// joint that is ready.
proof fn lemma_ready_exists(parents: Seq<Option<usize>>, visited: Seq<bool>, rank: Seq<nat>, i: int) -> (
    r: int)
    requires
        parents_in_range(parents),
        ranked(parents, rank),
        visited.len() == parents.len(),
        0 <= i < parents.len(),
        !visited[i],
    ensures
        0 <= r < parents.len(),
        !visited[r],
        is_ready(parents, visited, r),
    decreases rank[i],
{
    match parents[i] {
        None => i,
        Some(p) => {
            if visited[p as int] {
                i
            } else {
                lemma_ready_exists(parents, visited, rank, p as int)
            }
        },
    }
}


/// One pass over the joints from `i` on: each unplaced joint whose parent is
/// already placed is placed now, in index order.
pub open spec fn pass_from(
    parents: Seq<Option<usize>>,
    visited: Seq<bool>,
    order: Seq<usize>,
    i: int,
) -> (Seq<bool>, Seq<usize>)
    decreases parents.len() - i,
{
    if i < 0 || i >= parents.len() {
        (visited, order)
    } else if !visited[i] && is_ready(parents, visited, i) {
        pass_from(parents, visited.update(i, true), order.push(i as usize), i + 1)
    } else {
        pass_from(parents, visited, order, i + 1)
    }
}

/// The unplaced joints from `j` on appended in index order.
pub open spec fn rest_from(visited: Seq<bool>, order: Seq<usize>, j: int) -> Seq<usize>
    decreases visited.len() - j,
{
    if j < 0 || j >= visited.len() {
        order
    } else if !visited[j] {
        rest_from(visited.update(j, true), order.push(j as usize), j + 1)
    } else {
        rest_from(visited, order, j + 1)
    }
}

/// Repeated passes until every joint is placed or a pass places none, in
/// which case the rest follow in index order; at most `fuel` passes.
pub open spec fn passes(
    parents: Seq<Option<usize>>,
    visited: Seq<bool>,
    order: Seq<usize>,
    fuel: nat,
) -> Seq<usize>
    decreases fuel,
{
    if fuel == 0 {
        order
    } else {
        let (v2, o2) = pass_from(parents, visited, order, 0);
        if o2.len() == parents.len() {
            o2
        } else if o2.len() == order.len() {
            rest_from(v2, o2, 0)
        } else {
            passes(parents, v2, o2, (fuel - 1) as nat)
        }
    }
}

/// The joint order `topo_sort` produces: passes from nothing placed.
pub open spec fn topo_order(parents: Seq<Option<usize>>) -> Seq<usize> {
    passes(parents, Seq::new(parents.len(), |i: int| false), Seq::empty(), parents.len() + 1)
}


/// A pass over joints that are all placed changes nothing.
proof fn lemma_pass_all_placed(
    parents: Seq<Option<usize>>,
    visited: Seq<bool>,
    order: Seq<usize>,
    i: int,
)
    requires
        0 <= i,
        visited.len() == parents.len(),
        forall|j: int| 0 <= j < visited.len() ==> visited[j],
    ensures
        pass_from(parents, visited, order, i) == (visited, order),
    decreases parents.len() - i,
{
    if i < parents.len() {
        lemma_pass_all_placed(parents, visited, order, i + 1);
    }
}

/// Kahn-style topological sort of joints so each parent precedes its
/// children. Returns `(order, remap)`: `order[k]` is the given joint at
/// new index `k`, and `remap[g]` is the new index of given joint `g`.
/// Joints are placed in repeated passes in index order, each
/// taking every joint whose parent is already placed; if a pass places
/// nothing (a cycle), the rest follow in index order.
#[verifier::rlimit(40)]
pub fn topo_sort(parent_joint: &[Option<usize>]) -> (r: (Vec<usize>, Vec<usize>))
    requires
        parents_in_range(parent_joint@),
    ensures
        r.0@ == topo_order(parent_joint@),
        r.0@.len() == parent_joint@.len(),
        r.1@.len() == parent_joint@.len(),
        forall|k: int|
            0 <= k < parent_joint@.len() ==> (#[trigger] r.0@[k]) < parent_joint@.len() && r.1@[r.0@[k] as int]
                == k,
        forall|g: int|
            0 <= g < parent_joint@.len() ==> (#[trigger] r.1@[g]) < parent_joint@.len() && r.0@[r.1@[g] as int]
                == g,
        acyclic(parent_joint@) ==> forall|g: int|
            0 <= g < parent_joint@.len() ==> (#[trigger] parent_joint@[g] matches Some(p) ==> r.1@[p as int]
                < r.1@[g]),
{
    let n = parent_joint.len();
    let ghost parents = parent_joint@;
    let mut visited: Vec<bool> = vec![false; n];
    let mut order: Vec<usize> = Vec::new();
    let mut remap: Vec<usize> = vec![usize::MAX; n];
    proof {
        lemma_count_zero(visited@, n as int);
    }
    assert(visited@ =~= Seq::new(n as nat, |i: int| false));
    let ghost mut fuel: nat = (n + 1) as nat;
    proof {
        if n == 0 {
            assert(pass_from(parents, visited@, order@, 0) == (visited@, order@));
            assert(topo_order(parents) == order@);
        }
    }
    let mut stuck = false;
    while order.len() < n
        invariant_except_break
            !stuck,
        invariant
            n == parents.len(),
            parents == parent_joint@,
            parents_in_range(parents),
            visited@.len() == n,
            remap@.len() == n,
            order@.len() <= n,
            order@.len() == count_true(visited@, n as int),
            forall|k: int|
                0 <= k < order@.len() ==> (#[trigger] order@[k]) < n && visited@[order@[k] as int]
                    && remap@[order@[k] as int] == k,
            forall|g: int|
                0 <= g < n && #[trigger] visited@[g] ==> remap@[g] < order@.len() && order@[remap@[g] as int]
                    == g,
            !stuck ==> forall|g: int|
                0 <= g < n && #[trigger] visited@[g] ==> (parents[g] matches Some(p) ==> visited@[p as int]
                    && remap@[p as int] < remap@[g]),
            stuck ==> !acyclic(parents),
            order@.len() == n ==> order@ == topo_order(parents),
            !stuck ==> fuel >= 1 + n - order@.len(),
            !stuck ==> passes(parents, visited@, order@, fuel) == topo_order(parents),
            stuck ==> order@ == topo_order(parents),
        ensures
            order@ == topo_order(parents),
            visited@.len() == n,
            remap@.len() == n,
            order@.len() == n,
            order@.len() == count_true(visited@, n as int),
            forall|k: int|
                0 <= k < order@.len() ==> (#[trigger] order@[k]) < n && visited@[order@[k] as int]
                    && remap@[order@[k] as int] == k,
            forall|g: int|
                0 <= g < n && #[trigger] visited@[g] ==> remap@[g] < order@.len() && order@[remap@[g] as int]
                    == g,
            !stuck ==> forall|g: int|
                0 <= g < n && #[trigger] visited@[g] ==> (parents[g] matches Some(p) ==> visited@[p as int]
                    && remap@[p as int] < remap@[g]),
            stuck ==> !acyclic(parents),
        decreases n - order@.len(),
    {
        let start_len = order.len();
        let ghost start_visited = visited@;
        let ghost start_order = order@;
        assert(start_order =~= order@.take(start_len as int));
        let mut i: usize = 0;
        while i < n
            invariant
                n == parents.len(),
                parents == parent_joint@,
                parents_in_range(parents),
                visited@.len() == n,
                remap@.len() == n,
                start_len <= order@.len() <= n,
                order@.len() == count_true(visited@, n as int),
                forall|k: int|
                    0 <= k < order@.len() ==> (#[trigger] order@[k]) < n && visited@[order@[k] as int]
                        && remap@[order@[k] as int] == k,
                forall|g: int|
                    0 <= g < n && #[trigger] visited@[g] ==> remap@[g] < order@.len()
                        && order@[remap@[g] as int] == g,
                !stuck ==> forall|g: int|
                    0 <= g < n && #[trigger] visited@[g] ==> (parents[g] matches Some(p)
                        ==> visited@[p as int] && remap@[p as int] < remap@[g]),
                stuck ==> !acyclic(parents),
                i <= n,
                order@.len() == start_len ==> visited@ == start_visited,
                order@.len() == start_len ==> forall|j: int|
                    0 <= j < i && !visited@[j] ==> !is_ready(parents, visited@, j),
                !stuck,
                start_order == order@.take(start_len as int),
                start_len == start_order.len(),
                pass_from(parents, start_visited, start_order, 0) == pass_from(
                    parents,
                    visited@,
                    order@,
                    i as int,
                ),
            decreases n - i,
        {
            if !visited[i] {
                let ready = match parent_joint[i] {
                    None => true,
                    Some(p) => visited[p],
                };
                if ready {
                    proof {
                        lemma_count_update(visited@, n as int, i as int);
                        lemma_count_bound(visited@, n as int);
                    }
                    let k = order.len();
                    let ghost before_order = order@;
                    visited.set(i, true);
                    remap.set(i, k);
                    order.push(i);
                    assert(order@.take(start_len as int) =~= before_order.take(start_len as int));
                }
            }
            i = i + 1;
        }
        assert(pass_from(parents, visited@, order@, n as int) == (visited@, order@));
        if order.len() == n {
            proof {
                lemma_count_bound(visited@, n as int);
                lemma_pass_all_placed(parents, visited@, order@, 0);
            }
            break;
        }
        if order.len() == start_len {
            assert(order@ =~= start_order);
            proof {
                lemma_count_bound(visited@, n as int);
                if forall|u: int| 0 <= u < n ==> visited@[u] {
                    lemma_count_all(visited@, n as int);
                }
                assert(exists|u: int| 0 <= u < n && !visited@[u]);
                let u = choose|u: int| 0 <= u < n && !visited@[u];
                if acyclic(parents) {
                    let rank = choose|rank: Seq<nat>| ranked(parents, rank);
                    let r = lemma_ready_exists(parents, visited@, rank, u);
                }
            }
            stuck = true;
            let mut j: usize = 0;
            while j < n
                invariant
                    n == parents.len(),
                    visited@.len() == n,
                    remap@.len() == n,
                    order@.len() <= n,
                    order@.len() == count_true(visited@, n as int),
                    forall|k: int|
                        0 <= k < order@.len() ==> (#[trigger] order@[k]) < n && visited@[order@[k] as int]
                            && remap@[order@[k] as int] == k,
                    forall|g: int|
                        0 <= g < n && #[trigger] visited@[g] ==> remap@[g] < order@.len()
                            && order@[remap@[g] as int] == g,
                    j <= n,
                    forall|g: int| 0 <= g < j ==> #[trigger] visited@[g],
                    rest_from(visited@, order@, j as int) == topo_order(parents),
                decreases n - j,
            {
                if !visited[j] {
                    proof {
                        lemma_count_update(visited@, n as int, j as int);
                        lemma_count_bound(visited@, n as int);
                    }
                    let k = order.len();
                    visited.set(j, true);
                    remap.set(j, k);
                    order.push(j);
                }
                j = j + 1;
            }
            proof {
                lemma_count_all(visited@, n as int);
            }
            break;
        }
        proof {
            fuel = (fuel - 1) as nat;
        }
    }
    proof {
        lemma_count_bound(visited@, n as int);
        assert(forall|g: int| 0 <= g < n ==> visited@[g]);
        lemma_pass_all_placed(parents, visited@, order@, 0);
        assert forall|g: int| 0 <= g < n implies (#[trigger] remap@[g]) < n && order@[remap@[g] as int]
            == g by {
            assert(visited@[g]);
        }
        if acyclic(parents) {
            assert forall|g: int| 0 <= g < n implies (#[trigger] parents[g] matches Some(p)
                ==> remap@[p as int] < remap@[g]) by {
                assert(visited@[g]);
            }
        }
    }
    (order, remap)
}

proof fn lemma_count_zero(s: Seq<bool>, k: int)
    requires
        0 <= k <= s.len(),
        forall|j: int| 0 <= j < s.len() ==> !s[j],
    ensures
        count_true(s, k) == 0,
    decreases k,
{
    if k > 0 {
        lemma_count_zero(s, k - 1);
    }
}

proof fn lemma_count_all(s: Seq<bool>, k: int)
    requires
        0 <= k <= s.len(),
        forall|j: int| 0 <= j < s.len() ==> s[j],
    ensures
        count_true(s, k) == k,
    decreases k,
{
    if k > 0 {
        lemma_count_all(s, k - 1);
    }
}


/// The parent of new joint `k` after relabelling by `order` / `remap`.
pub open spec fn remapped_parent(
    parents: Seq<Option<usize>>,
    order: Seq<usize>,
    remap: Seq<usize>,
    k: int,
) -> Option<usize> {
    match parents[order[k] as int] {
        Some(p) => Some(remap[p as int]),
        None => None,
    }
}

/// Relabelling an acyclic skeleton by what `topo_sort` returns stores it
/// topologically sorted: every joint's new parent index is below its own.
pub proof fn lemma_remapped_parents_precede(
    parents: Seq<Option<usize>>,
    order: Seq<usize>,
    remap: Seq<usize>,
)
    requires
        parents_in_range(parents),
        acyclic(parents),
        order.len() == parents.len(),
        remap.len() == parents.len(),
        forall|k: int|
            0 <= k < parents.len() ==> (#[trigger] order[k]) < parents.len() && remap[order[k] as int]
                == k,
        forall|g: int|
            0 <= g < parents.len() ==> (#[trigger] parents[g] matches Some(p) ==> remap[p as int]
                < remap[g]),
    ensures
        forall|k: int|
            0 <= k < parents.len() ==> (#[trigger] remapped_parent(parents, order, remap, k) matches Some(
                q,
            ) ==> q < k),
{
    assert forall|k: int| 0 <= k < parents.len() implies (#[trigger] remapped_parent(
        parents,
        order,
        remap,
        k,
    ) matches Some(q) ==> q < k) by {
        let g = order[k] as int;
        assert(remap[g] == k);
        if parents[g] is Some {
            assert(parents[g] matches Some(p) ==> remap[p as int] < remap[g]);
        }
    }
}

} // verus!
