use vstd::prelude::*;

verus! {

/// Candidate `i` is a hit, no other hit is nearer, and every hit before it is
/// strictly farther: the hit that a scan keeping the first strictly nearer
/// candidate ends on.
///
/// A candidate is `None` where the ray misses the object, and otherwise holds
/// a key that orders hits by distance along the ray.
pub open spec fn is_nearest(hits: Seq<Option<u64>>, i: int) -> bool {
    &&& 0 <= i < hits.len()
    &&& hits[i] is Some
    &&& forall|j: int| 0 <= j < hits.len() && #[trigger] hits[j] is Some ==> hits[i]->0 <= hits[j]->0
    &&& forall|j: int| 0 <= j < i && #[trigger] hits[j] is Some ==> hits[i]->0 < hits[j]->0
}

/// No candidate is a hit.
pub open spec fn all_miss(hits: Seq<Option<u64>>) -> bool {
    forall|j: int| 0 <= j < hits.len() ==> #[trigger] hits[j] is None
}

/// Index of the nearest hit among the candidates, the earliest one among
/// equally near hits, or `None` when the ray hits nothing.
pub fn nearest_hit(hits: &Vec<Option<u64>>) -> (nearest: Option<usize>)
    ensures
        nearest is None <==> all_miss(hits@),
        nearest matches Some(i) ==> is_nearest(hits@, i as int),
{
    let mut best: Option<usize> = None;
    let mut i: usize = 0;
    while i < hits.len()
        invariant
            i <= hits.len(),
            best is None <==> all_miss(hits@.take(i as int)),
            best matches Some(b) ==> is_nearest(hits@.take(i as int), b as int),
        decreases hits.len() - i,
    {
        let ghost prefix = hits@.take(i as int);
        let ghost next = hits@.take(i + 1);
        assert(next =~= prefix.push(hits@[i as int]));
        if let Some(d) = hits[i] {
            let closer = match best {
                None => true,
                Some(b) => {
                    let cur = hits[b].unwrap();
                    d < cur
                },
            };
            if closer {
                best = Some(i);
                proof {
                    assert(is_nearest(next, i as int)) by {
                        assert forall|j: int| 0 <= j < next.len() && #[trigger] next[j] is Some implies next[i as int]->0 <= next[j]->0 by {
                            if j < i {
                                assert(prefix[j] is Some);
                            }
                        }
                        assert forall|j: int| 0 <= j < i && #[trigger] next[j] is Some implies next[i as int]->0 < next[j]->0 by {
                            assert(prefix[j] is Some);
                        }
                    }
                }
            } else {
                proof {
                    let b = best->0 as int;
                    assert(is_nearest(next, b)) by {
                        assert forall|j: int| 0 <= j < next.len() && #[trigger] next[j] is Some implies next[b]->0 <= next[j]->0 by {
                            if j < i {
                                assert(prefix[j] is Some);
                            }
                        }
                        assert forall|j: int| 0 <= j < b && #[trigger] next[j] is Some implies next[b]->0 < next[j]->0 by {
                            assert(prefix[j] is Some);
                        }
                    }
                    assert(!all_miss(next)) by {
                        assert(next[b] is Some);
                    }
                }
            }
        } else {
            proof {
                if best is Some {
                    let b = best->0 as int;
                    assert(is_nearest(next, b)) by {
                        assert forall|j: int| 0 <= j < next.len() && #[trigger] next[j] is Some implies next[b]->0 <= next[j]->0 by {
                            if j < i {
                                assert(prefix[j] is Some);
                            }
                        }
                        assert forall|j: int| 0 <= j < b && #[trigger] next[j] is Some implies next[b]->0 < next[j]->0 by {
                            assert(prefix[j] is Some);
                        }
                    }
                    assert(next[b] is Some);
                } else {
                    assert forall|j: int| 0 <= j < next.len() implies #[trigger] next[j] is None by {
                        if j < i {
                            assert(prefix[j] is None);
                        }
                    }
                }
            }
        }
        i = i + 1;
    }
    assert(hits@.take(hits.len() as int) =~= hits@);
    best
}

/// The hit that `nearest_hit` picks is the only one meeting `is_nearest`:
/// the nearest hit of a ray is unambiguous.
pub proof fn lemma_nearest_unique(hits: Seq<Option<u64>>, i: int, j: int)
    requires
        is_nearest(hits, i),
        is_nearest(hits, j),
    ensures
        i == j,
{
    if i < j {
        assert(hits[i] is Some);
    } else if j < i {
        assert(hits[j] is Some);
    }
}

/// An object added to the scene after the others, hit no nearer than the
/// current nearest hit, leaves that hit the nearest.
pub proof fn lemma_farther_hit_keeps_nearest(hits: Seq<Option<u64>>, i: int, key: u64)
    requires
        is_nearest(hits, i),
        hits[i]->0 <= key,
    ensures
        is_nearest(hits.push(Some(key)), i),
{
    let next = hits.push(Some(key));
    assert forall|j: int| 0 <= j < next.len() && #[trigger] next[j] is Some implies next[i]->0 <= next[j]->0 by {
        if j < hits.len() {
            assert(hits[j] is Some);
        }
    }
    assert forall|j: int| 0 <= j < i && #[trigger] next[j] is Some implies next[i]->0 < next[j]->0 by {
        assert(hits[j] is Some);
    }
}

/// An object added to the scene after the others and hit strictly nearer than
/// every other hit becomes the nearest hit: near objects hide far ones.
pub proof fn lemma_nearer_hit_occludes(hits: Seq<Option<u64>>, key: u64)
    requires
        forall|j: int| 0 <= j < hits.len() && #[trigger] hits[j] is Some ==> key < hits[j]->0,
    ensures
        is_nearest(hits.push(Some(key)), hits.len() as int),
{
    let next = hits.push(Some(key));
    assert forall|j: int| 0 <= j < next.len() && #[trigger] next[j] is Some implies key <= next[j]->0 by {
        if j < hits.len() {
            assert(hits[j] is Some);
        }
    }
    assert forall|j: int| 0 <= j < hits.len() && #[trigger] next[j] is Some implies key < next[j]->0 by {
        assert(hits[j] is Some);
    }
}

/// An object that the ray misses changes nothing about the nearest hit.
pub proof fn lemma_miss_keeps_nearest(hits: Seq<Option<u64>>, i: int)
    requires
        is_nearest(hits, i),
    ensures
        is_nearest(hits.push(None), i),
{
    let next = hits.push(None);
    assert forall|j: int| 0 <= j < next.len() && #[trigger] next[j] is Some implies next[i]->0 <= next[j]->0 by {
        assert(hits[j] is Some);
    }
    assert forall|j: int| 0 <= j < i && #[trigger] next[j] is Some implies next[i]->0 < next[j]->0 by {
        assert(hits[j] is Some);
    }
}

/// Whether a ray with `depth` bounces left is traced at all: once the bounces
/// are used up the ray contributes black, and the scene is not intersected.
pub fn has_bounces_left(depth: i32) -> (traced: bool)
    ensures
        traced == (depth > 0),
{
    depth > 0
}

/// What a traced ray becomes.
#[derive(Debug, Clone, Copy, PartialEq, Eq, Structural)]
pub enum TraceStep {
    /// The ray hits nothing: it takes the sky's color.
    Background,
    /// The ray is shaded at its nearest hit, on object `object`; where that
    /// object reflects, a reflected ray is traced with `bounce_depth` bounces.
    Surface { object: usize, bounce_depth: Option<i32> },
}

/// The bounces left to the ray reflected off a surface that a ray with
/// `depth` bounces left hit: one fewer where the surface reflects, and no
/// reflected ray where it does not.
pub open spec fn reflected_depth(depth: int, reflects: bool) -> Option<i32> {
    if reflects {
        Some((depth - 1) as i32)
    } else {
        None
    }
}

/// A surface reflects a ray exactly when it is reflective, whatever the
/// ray's bounces: off a reflective surface the reflected ray always goes on
/// with one bounce fewer, and off a matte one no ray is reflected.
pub proof fn lemma_reflection_follows_material(depth: i32)
    requires
        depth > 0,
    ensures
        reflected_depth(depth as int, true) == Some((depth - 1) as i32),
        0 <= depth - 1 < depth,
        reflected_depth(depth as int, false) is None,
{
}

/// Decides what a ray with `depth` bounces left (at least one) becomes: the
/// background when it hits nothing, and otherwise the nearest hit, followed
/// by a reflected ray with one bounce fewer when that object reflects.
pub fn trace_step(depth: i32, hits: &Vec<Option<u64>>, reflective: &Vec<bool>) -> (step: TraceStep)
    requires
        depth > 0,
        hits.len() == reflective.len(),
    ensures
        all_miss(hits@) ==> step == TraceStep::Background,
        !all_miss(hits@) ==> step is Surface,
        step matches TraceStep::Surface { object, bounce_depth } ==> {
            &&& is_nearest(hits@, object as int)
            &&& bounce_depth == reflected_depth(depth as int, reflective@[object as int])
            &&& reflective@[object as int] ==> bounce_depth == Some((depth - 1) as i32)
            &&& !reflective@[object as int] ==> bounce_depth is None
        },
        step matches TraceStep::Surface { bounce_depth: Some(d), .. } ==> 0 <= d < depth,
{
    match nearest_hit(hits) {
        None => TraceStep::Background,
        Some(i) => {
            let bounce_depth = if reflective[i] { Some(depth - 1) } else { None };
            TraceStep::Surface { object: i, bounce_depth }
        },
    }
}

/// `chain` lists the bounces left to a ray traced with `depth` bounces and to
/// each of its successive reflections that intersects the scene: a ray
/// intersects the scene only with bounces left (`has_bounces_left`), and each
/// next ray is the reflection of the previous one (`reflected_depth`).
pub open spec fn is_bounce_chain(depth: i32, chain: Seq<i32>) -> bool {
    &&& chain.len() > 0 ==> chain[0] == depth
    &&& forall|k: int| 0 <= k < chain.len() ==> #[trigger] chain[k] > 0
    &&& forall|k: int|
        0 < k < chain.len() ==> Some(#[trigger] chain[k]) == reflected_depth(chain[k - 1] as int, true)
}

/// The bounces a ray traced with `depth` may use: `depth`, or none when it
/// is not positive.
pub open spec fn bounce_budget(depth: int) -> nat {
    if depth > 0 {
        depth as nat
    } else {
        0
    }
}

proof fn lemma_chain_depths(depth: i32, chain: Seq<i32>, k: int)
    requires
        is_bounce_chain(depth, chain),
        0 <= k < chain.len(),
    ensures
        chain[k] == depth - k,
    decreases k,
{
    if k > 0 {
        lemma_chain_depths(depth, chain, k - 1);
        assert(Some(chain[k]) == reflected_depth(chain[k - 1] as int, true));
        assert(chain[k - 1] > 0);
    }
}

/// Tracing terminates within the ray's bounces: a ray traced with `depth`
/// bounces intersects the scene at most `max(depth, 0)` times
/// along its chain of reflections, so a scene of `objects` objects receives
/// at most `max(depth, 0) * objects` hit tests, and none when `depth <= 0`.
pub proof fn lemma_tracing_bounded(depth: i32, chain: Seq<i32>, objects: nat)
    requires
        is_bounce_chain(depth, chain),
    ensures
        chain.len() <= bounce_budget(depth as int),
        chain.len() * objects <= bounce_budget(depth as int) * objects,
{
    if chain.len() > 0 {
        lemma_chain_depths(depth, chain, chain.len() - 1);
        assert(chain[chain.len() - 1] > 0);
    }
    let n = chain.len();
    let b = bounce_budget(depth as int);
    assert(n * objects <= b * objects) by (nonlinear_arith)
        requires
            n <= b,
    ;
}

/// Whether the floor square whose cell coordinates sum to `cell_sum` is a
/// light square of the checkerboard.
pub open spec fn is_light_square(cell_sum: int) -> bool {
    cell_sum % 2 == 0
}

/// The checkerboard rule of the floor: the square with cell coordinates
/// `(x, z)` (the floors of the hit point's coordinates) is light where
/// `x + z` is even and dark where it is odd.
pub fn light_square(cell_sum: i32) -> (light: bool)
    ensures
        light == is_light_square(cell_sum as int),
{
    cell_sum % 2 == 0
}

/// Neighbouring squares of the floor, one step apart along either axis,
/// always have opposite colors.
pub proof fn lemma_checkerboard_alternates(cell_sum: int)
    ensures
        is_light_square(cell_sum) != is_light_square(cell_sum + 1),
{
}

} // verus!
