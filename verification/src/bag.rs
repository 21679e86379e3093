//! Shuffled draw pools: every id of a domain is handed out once before any
//! id comes again.

use crate::chance::random_below;
use rand::rngs::ThreadRng;
use vstd::prelude::*;

verus! {

/// Largest number of cards a domain can hold: ids are 16 bits wide.
pub const MAX_DOMAIN: usize = 65536;

/// `s` holds every id of `0..n` exactly once, in some order.
pub open spec fn is_permutation(s: Seq<u16>, n: nat) -> bool {
    &&& s.len() == n
    &&& s.no_duplicates()
    &&& forall|i: int| 0 <= i < s.len() ==> (#[trigger] s[i] as nat) < n
    &&& forall|id: u16| (id as nat) < n ==> s.contains(id)
}

/// The ids `0..n` in rising order.
pub open spec fn rising(n: nat) -> Seq<u16> {
    Seq::new(n, |i: int| i as u16)
}

/// Builds the ids `0..count` in rising order.
fn rising_ids(count: usize) -> (ids: Vec<u16>)
    requires
        count <= MAX_DOMAIN,
    ensures
        ids@ == rising(count as nat),
{
    let mut ids: Vec<u16> = Vec::new();
    let mut next: usize = 0;
    while next < count
        invariant
            next <= count <= MAX_DOMAIN,
            ids@ == rising(next as nat),
        decreases count - next,
    {
        ids.push(next as u16);
        next = next + 1;
        assert(ids@ =~= rising(next as nat));
    }
    ids
}

/// One step of a shuffle: the card at `pick` leaves `pool` and goes to the
/// end of `out`.
pub fn move_pick(pool: &mut Vec<u16>, out: &mut Vec<u16>, pick: usize)
    requires
        pick < old(pool)@.len(),
    ensures
        final(pool)@ == old(pool)@.remove(pick as int),
        final(out)@ == old(out)@.push(old(pool)@[pick as int]),
{
    let card = pool.remove(pick);
    out.push(card);
}

/// What a shuffle keeps true while cards move from `pool` to `out`: together
/// the two hold every id of `0..n` exactly once.
pub open spec fn split_of_domain(pool: Seq<u16>, out: Seq<u16>, n: nat) -> bool {
    &&& pool.len() + out.len() == n
    &&& pool.no_duplicates()
    &&& out.no_duplicates()
    &&& forall|i: int, j: int| 0 <= i < pool.len() && 0 <= j < out.len() ==> pool[i] != out[j]
    &&& forall|i: int| 0 <= i < pool.len() ==> (#[trigger] pool[i] as nat) < n
    &&& forall|i: int| 0 <= i < out.len() ==> (#[trigger] out[i] as nat) < n
    &&& forall|id: u16| (id as nat) < n ==> pool.contains(id) || out.contains(id)
}

/// Moving any card of the pool to the end of `out` keeps the split.
pub proof fn lemma_move_keeps_split(pool: Seq<u16>, out: Seq<u16>, n: nat, pick: int)
    requires
        split_of_domain(pool, out, n),
        0 <= pick < pool.len(),
    ensures
        split_of_domain(pool.remove(pick), out.push(pool[pick]), n),
{
    let pool2 = pool.remove(pick);
    let out2 = out.push(pool[pick]);
    assert forall|i: int, j: int| 0 <= i < j < pool2.len() implies pool2[i] != pool2[j] by {
        let a = if i < pick { i } else { i + 1 };
        let b = if j < pick { j } else { j + 1 };
        assert(pool2[i] == pool[a] && pool2[j] == pool[b]);
    }
    assert(pool2.no_duplicates());
    assert forall|i: int, j: int| 0 <= i < j < out2.len() implies out2[i] != out2[j] by {
        if j == out.len() {
            assert(out2[i] == out[i]);
        }
    }
    assert(out2.no_duplicates());
    assert forall|i: int, j: int| 0 <= i < pool2.len() && 0 <= j < out2.len() implies pool2[i]
        != out2[j] by {
        let a = if i < pick { i } else { i + 1 };
        assert(pool2[i] == pool[a]);
    }
    assert forall|i: int| 0 <= i < pool2.len() implies (#[trigger] pool2[i] as nat) < n by {
        let a = if i < pick { i } else { i + 1 };
        assert(pool2[i] == pool[a]);
    }
    assert forall|id: u16| (id as nat) < n implies pool2.contains(id) || out2.contains(id) by {
        if pool.contains(id) {
            let k = choose|k: int| 0 <= k < pool.len() && pool[k] == id;
            if k == pick {
                assert(out2[out.len() as int] == id);
            } else {
                let k2 = if k < pick { k } else { k - 1 };
                assert(pool2[k2] == id);
            }
        } else {
            let k = choose|k: int| 0 <= k < out.len() && out[k] == id;
            assert(out2[k] == id);
        }
    }
}

/// A fresh shuffle of the ids `0..count`: cards leave the rising pool one
/// by one, each time from a position that the random source picks.
pub fn shuffled(count: usize, rng: &mut ThreadRng) -> (cards: Vec<u16>)
    requires
        count <= MAX_DOMAIN,
    ensures
        is_permutation(cards@, count as nat),
{
    let mut pool = rising_ids(count);
    let mut out: Vec<u16> = Vec::new();
    proof {
        let p = pool@;
        assert forall|id: u16| (id as nat) < count implies p.contains(id) by {
            assert(p[id as int] == id);
        }
    }
    while pool.len() > 0
        invariant
            split_of_domain(pool@, out@, count as nat),
        decreases pool@.len(),
    {
        let pick = random_below(rng, pool.len());
        proof {
            lemma_move_keeps_split(pool@, out@, count as nat, pick as int);
        }
        move_pick(&mut pool, &mut out, pick);
    }
    proof {
        let o = out@;
        assert forall|id: u16| (id as nat) < count implies o.contains(id) by {
            assert(pool@.contains(id) || o.contains(id));
        }
    }
    out
}

/// A draw pool over the ids `0..domain`. Drawing takes the last card of the
/// pool; an empty pool is first replaced by a fresh shuffle of the whole
/// domain. The refill does not look at cards that players still hold.
pub struct CardBag {
    domain: usize,
    available: Vec<u16>,
}

/// How one draw of `id` changes a pool over `0..n`: the pool before it, or
/// the fresh shuffle that replaces it when it is empty, is the pool after it
/// followed by `id`.
pub open spec fn draw_step(pre: Seq<u16>, post: Seq<u16>, id: u16, n: nat) -> bool {
    if pre.len() > 0 {
        pre == post.push(id)
    } else {
        is_permutation(post.push(id), n)
    }
}

/// `trace` lists the pool before, between and after the draws of `ids`.
pub open spec fn is_draw_trace(
    trace: Seq<Seq<u16>>,
    pre: Seq<u16>,
    post: Seq<u16>,
    ids: Seq<u16>,
    n: nat,
) -> bool {
    &&& trace.len() == ids.len() + 1
    &&& trace[0] == pre
    &&& trace[ids.len() as int] == post
    &&& forall|k: int|
        0 <= k < ids.len() ==> draw_step(trace[k], trace[k + 1], #[trigger] ids[k], n)
}

/// The pool goes from `pre` to `post` by drawing `ids` in that order.
pub open spec fn draws(pre: Seq<u16>, post: Seq<u16>, ids: Seq<u16>, n: nat) -> bool {
    exists|trace: Seq<Seq<u16>>| is_draw_trace(trace, pre, post, ids, n)
}

/// Within one cycle the draws walk the shuffle from its end: after `k`
/// draws from an empty pool, the pool is the shuffle without its last `k`
/// cards and the `k`-th id drawn is the card at position `n - k`.
proof fn lemma_cycle_prefix(
    trace: Seq<Seq<u16>>,
    pre: Seq<u16>,
    post: Seq<u16>,
    ids: Seq<u16>,
    n: nat,
    k: int,
)
    requires
        n > 0,
        pre.len() == 0,
        ids.len() == n,
        is_draw_trace(trace, pre, post, ids, n),
        1 <= k <= n,
    ensures
        is_permutation(trace[1].push(ids[0]), n),
        trace[k] == trace[1].push(ids[0]).take(n - k),
        ids[k - 1] == trace[1].push(ids[0])[n - k],
    decreases k,
{
    let full = trace[1].push(ids[0]);
    assert(draw_step(trace[0], trace[1], ids[0], n));
    if k == 1 {
        assert(trace[1] =~= full.take(n - 1));
    } else {
        lemma_cycle_prefix(trace, pre, post, ids, n, k - 1);
        assert(draw_step(trace[k - 1], trace[k], ids[k - 1], n));
        assert(trace[k - 1].len() == n - k + 1);
        assert(trace[k - 1] == trace[k].push(ids[k - 1]));
        assert(trace[k] =~= full.take(n - k));
        assert(trace[k - 1][n - k] == ids[k - 1]);
    }
}

/// A bag over `n` ids that is drawn `n` times from an empty pool hands out
/// every id of `0..n` exactly once, and is empty again afterwards, so that
/// the draw after those starts a fresh shuffle.
pub proof fn law_cycle_yields_each_id_once(pre: Seq<u16>, post: Seq<u16>, ids: Seq<u16>, n: nat)
    requires
        n > 0,
        pre.len() == 0,
        ids.len() == n,
        draws(pre, post, ids, n),
    ensures
        is_permutation(ids, n),
        post.len() == 0,
        forall|next: Seq<u16>, id: u16| #[trigger]
            draw_step(post, next, id, n) ==> is_permutation(next.push(id), n),
{
    let trace = choose|trace: Seq<Seq<u16>>| is_draw_trace(trace, pre, post, ids, n);
    let full = trace[1].push(ids[0]);
    lemma_cycle_prefix(trace, pre, post, ids, n, n as int);
    assert(post.len() == 0);
    assert forall|k: int| 0 <= k < n implies #[trigger] ids[k] == full[n - 1 - k] by {
        lemma_cycle_prefix(trace, pre, post, ids, n, k + 1);
    }
    assert forall|i: int, j: int| 0 <= i < j < ids.len() implies ids[i] != ids[j] by {
        assert(ids[i] == full[n - 1 - i] && ids[j] == full[n - 1 - j]);
    }
    assert forall|i: int| 0 <= i < ids.len() implies (#[trigger] ids[i] as nat) < n by {
        assert(ids[i] == full[n - 1 - i]);
    }
    assert forall|id: u16| (id as nat) < n implies ids.contains(id) by {
        assert(full.contains(id));
        let p = choose|p: int| 0 <= p < full.len() && full[p] == id;
        assert(ids[n - 1 - p] == full[p]);
    }
}

/// A collection goes from `before` to `after`, and the pool from `pool` to
/// `left`, by drawing until the collection holds `target` cards: what was
/// held stays in front, and the cards behind it are the ids drawn, in the
/// order of the draws. A collection that already holds `target` cards or
/// more sees no draw.
pub open spec fn filled(
    before: Seq<u16>,
    after: Seq<u16>,
    pool: Seq<u16>,
    left: Seq<u16>,
    target: nat,
    n: nat,
) -> bool {
    &&& after.len() == if before.len() < target {
        target
    } else {
        before.len()
    }
    &&& after.subrange(0, before.len() as int) == before
    &&& draws(pool, left, after.subrange(before.len() as int, after.len() as int), n)
    &&& forall|i: int| before.len() <= i < after.len() ==> (#[trigger] after[i] as nat) < n
}

/// A pool that holds part of a shuffle: ids of the domain, none twice.
pub open spec fn is_pool(s: Seq<u16>, n: nat) -> bool {
    &&& s.no_duplicates()
    &&& forall|i: int| 0 <= i < s.len() ==> (#[trigger] s[i] as nat) < n
}

impl CardBag {
    /// The cards not yet drawn in this cycle; the last one is drawn next.
    pub closed spec fn view(&self) -> Seq<u16> {
        self.available@
    }

    /// The number of ids in the domain.
    pub closed spec fn domain(&self) -> nat {
        self.domain as nat
    }

    /// The pool holds ids of the domain, none twice, and the domain fits
    /// the id width.
    pub closed spec fn wf(&self) -> bool {
        &&& self.domain <= MAX_DOMAIN
        &&& is_pool(self.available@, self.domain as nat)
    }

    /// A sound bag holds a pool of its domain, and the domain fits the id
    /// width.
    pub proof fn lemma_wf(&self)
        requires
            self.wf(),
        ensures
            self.domain() <= MAX_DOMAIN,
            is_pool(self@, self.domain()),
    {
    }

    /// An empty bag over `0..domain`; its first draw shuffles.
    pub fn new(domain: usize) -> (bag: CardBag)
        requires
            domain <= MAX_DOMAIN,
        ensures
            bag.wf(),
            bag@.len() == 0,
            bag.domain() == domain,
    {
        CardBag { domain, available: Vec::new() }
    }

    /// The number of ids in the domain.
    pub fn domain_size(&self) -> (n: usize)
        ensures
            n == self.domain(),
    {
        self.domain
    }

    /// The number of cards left before the next shuffle.
    pub fn remaining(&self) -> (n: usize)
        ensures
            n == self@.len(),
    {
        self.available.len()
    }

    /// Draws one id. An empty pool is refilled with a fresh shuffle first.
    pub fn draw(&mut self, rng: &mut ThreadRng) -> (id: u16)
        requires
            old(self).wf(),
            old(self).domain() > 0,
        ensures
            final(self).wf(),
            final(self).domain() == old(self).domain(),
            (id as nat) < old(self).domain(),
            draw_step(old(self)@, final(self)@, id, old(self).domain()),
    {
        if self.available.len() == 0 {
            self.available = shuffled(self.domain, rng);
        }
        let ghost full = self.available@;
        let id = self.available.pop().unwrap();
        proof {
            assert(full == self.available@.push(id));
            assert(full[full.len() - 1] == id);
            assert forall|i: int, j: int|
                0 <= i < j < self.available@.len() implies self.available@[i]
                != self.available@[j] by {
                assert(self.available@[i] == full[i] && self.available@[j] == full[j]);
            }
            assert forall|i: int| 0 <= i < self.available@.len() implies (
            #[trigger] self.available@[i] as nat) < self.domain by {
                assert(self.available@[i] == full[i]);
            }
        }
        id
    }

    /// Draws into `collection` until it holds `target` cards; one that
    /// already holds as many is left alone.
    pub fn ensure_filled(&mut self, collection: &mut Vec<u16>, target: usize, rng: &mut ThreadRng)
        requires
            old(self).wf(),
            old(self).domain() > 0,
        ensures
            final(self).wf(),
            final(self).domain() == old(self).domain(),
            filled(
                old(collection)@,
                final(collection)@,
                old(self)@,
                final(self)@,
                target as nat,
                old(self).domain(),
            ),
    {
        let ghost start = collection@;
        let ghost first = self@;
        let ghost n = self.domain();
        let ghost mut trace: Seq<Seq<u16>> = seq![first];
        assert(collection@.subrange(0, start.len() as int) =~= start);
        while collection.len() < target
            invariant
                self.wf(),
                self.domain() == n,
                n > 0,
                start.len() <= collection@.len(),
                collection@.len() <= target || collection@.len() == start.len(),
                collection@.subrange(0, start.len() as int) == start,
                is_draw_trace(
                    trace,
                    first,
                    self@,
                    collection@.subrange(start.len() as int, collection@.len() as int),
                    n,
                ),
                forall|i: int|
                    start.len() <= i < collection@.len() ==> (#[trigger] collection@[i] as nat)
                        < n,
            decreases target - collection@.len(),
        {
            let ghost before = collection@;
            let ghost older = trace;
            let id = self.draw(rng);
            collection.push(id);
            proof {
                trace = trace.push(self@);
                let drawn = before.subrange(start.len() as int, before.len() as int);
                let added = collection@.subrange(start.len() as int, collection@.len() as int);
                assert(added =~= drawn.push(id));
                assert forall|k: int| 0 <= k < added.len() implies draw_step(
                    trace[k],
                    trace[k + 1],
                    #[trigger] added[k],
                    n,
                ) by {
                    if k < drawn.len() {
                        assert(draw_step(older[k], older[k + 1], drawn[k], n));
                    }
                }
                assert(collection@.subrange(0, start.len() as int) =~= before.subrange(
                    0,
                    start.len() as int,
                ));
            }
        }
    }
}

} // verus!
