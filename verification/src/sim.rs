//! The tick-based entity simulation: aging explosions, advancing
//! entities, pairwise collision detection, off-grid removal, and timed
//! spawning of hostile entities.

use vstd::prelude::*;

use crate::color::{blue, Rgb};
use crate::entity::{cell_of, updated_coord, Entity, CELL_LIMIT, DT_LIMIT, POS_SCALE};
use crate::explosion::{Explosion, EXPLOSION_LIFETIME};

verus! {

/// A new entity is spawned whenever this many milli-units (two time
/// units) have passed since the last spawn.
pub const SPAWN_INTERVAL: i64 = 2000;

/// Leftward speed of spawned hostile entities: two cells per time unit.
pub const SPAWN_SPEED: i64 = 2000;

/// Rightward speed of fired projectiles: eight cells per time unit.
pub const FIRE_SPEED: i64 = 8000;

/// Relies on `rand::random`: draws a value of the asked-for type from
/// the thread-local generator. Nothing is promised of the result.
pub assume_specification<T>[ rand::random::<T> ]() -> (r: T)
    where
        rand::distributions::Standard: rand::distributions::Distribution<T>,
;

/// Two entities occupy the same pixel cell.
pub open spec fn pix_eq(a: Entity, b: Entity) -> bool {
    cell_of(a.x as int) == cell_of(b.x as int) && cell_of(a.y as int) == cell_of(b.y as int)
}

/// Entity `k` shares its pixel cell with some other entity.
pub open spec fn collides(s: Seq<Entity>, k: int) -> bool {
    exists|l: int| 0 <= l < s.len() && l != k && #[trigger] pix_eq(s[k], s[l])
}

/// The explosions after aging every one by `dt` and dropping those
/// whose age has reached the lifetime.
pub open spec fn aged_explosions(s: Seq<Explosion>, dt: int) -> Seq<Explosion>
    decreases s.len(),
{
    if s.len() == 0 {
        Seq::empty()
    } else {
        let rest = aged_explosions(s.drop_last(), dt);
        let e = s.last();
        if e.age + dt < EXPLOSION_LIFETIME {
            rest.push(Explosion { age: (e.age + dt) as i64, ..e })
        } else {
            rest
        }
    }
}

/// One entity after a position update of `dt`.
pub open spec fn advanced(e: Entity, dt: int) -> Entity {
    Entity {
        x: updated_coord(e.x as int, e.dx as int, dt) as i64,
        y: updated_coord(e.y as int, e.dy as int, dt) as i64,
        ..e
    }
}

/// Every entity after a position update of `dt`.
pub open spec fn advanced_entities(s: Seq<Entity>, dt: int) -> Seq<Entity> {
    Seq::new(s.len(), |k: int| advanced(s[k], dt))
}

/// The colliding pairs `(i, b)` with `b >= j`, in increasing order of `b`.
pub open spec fn row_pairs(s: Seq<Entity>, i: int, j: int) -> Seq<(int, int)>
    decreases s.len() - j,
{
    if j < 0 || j >= s.len() {
        Seq::empty()
    } else {
        let rest = row_pairs(s, i, j + 1);
        if pix_eq(s[i], s[j]) {
            seq![(i, j)] + rest
        } else {
            rest
        }
    }
}

/// The colliding pairs `(a, b)` with `i <= a < b`, in lexicographic order.
pub open spec fn collision_pairs_from(s: Seq<Entity>, i: int) -> Seq<(int, int)>
    decreases s.len() - i,
{
    if i < 0 || i >= s.len() {
        Seq::empty()
    } else {
        row_pairs(s, i, i + 1) + collision_pairs_from(s, i + 1)
    }
}

/// All colliding pairs `(a, b)` with `a < b`, in lexicographic order.
pub open spec fn collision_pairs(s: Seq<Entity>) -> Seq<(int, int)> {
    collision_pairs_from(s, 0)
}

/// The explosion spawned for one colliding pair: age zero, centered on
/// the shared pixel cell.
pub open spec fn explosion_for(s: Seq<Entity>, p: (int, int)) -> Explosion {
    Explosion {
        x: cell_of(s[p.0].x as int) as i64,
        y: cell_of(s[p.0].y as int) as i64,
        age: 0,
    }
}

/// One explosion per colliding pair, in the pairs' order.
pub open spec fn collision_explosions(s: Seq<Entity>) -> Seq<Explosion> {
    collision_pairs(s).map_values(|p: (int, int)| explosion_for(s, p))
}

/// Entity `k` stays after a tick: its pixel column is on the grid and
/// it collided with no other entity.
pub open spec fn keep_entity(s: Seq<Entity>, max_col: int, k: int) -> bool {
    0 <= cell_of(s[k].x as int) < max_col && !collides(s, k)
}

/// The entities with index at least `k` that stay, in order.
pub open spec fn survivors_from(s: Seq<Entity>, max_col: int, k: int) -> Seq<Entity>
    decreases s.len() - k,
{
    if k < 0 || k >= s.len() {
        Seq::empty()
    } else {
        let rest = survivors_from(s, max_col, k + 1);
        if keep_entity(s, max_col, k) {
            seq![s[k]] + rest
        } else {
            rest
        }
    }
}

/// The entities that stay after collision and off-grid removal.
pub open spec fn survivors(s: Seq<Entity>, max_col: int) -> Seq<Entity> {
    survivors_from(s, max_col, 0)
}

/// A hostile entity entering at the rightmost column of row `row`,
/// moving leftward.
pub open spec fn spawned_entity(max_col: int, row: int) -> Entity {
    Entity {
        x: ((max_col - 1) * POS_SCALE) as i64,
        y: (row * POS_SCALE) as i64,
        dx: (-SPAWN_SPEED) as i64,
        dy: 0,
        color: blue(),
    }
}

/// Age every explosion by `dt` and drop the expired ones.
#[verifier::loop_isolation(false)]
pub fn age_explosions(explosions: &Vec<Explosion>, dt: i64) -> (r: Vec<Explosion>)
    requires
        0 <= dt <= DT_LIMIT,
        forall|k: int|
            0 <= k < explosions@.len() ==> 0 <= (#[trigger] explosions@[k]).age <= i64::MAX
                - DT_LIMIT,
    ensures
        r@ == aged_explosions(explosions@, dt as int),
        (forall|k: int| 0 <= k < explosions@.len() ==> (#[trigger] explosions@[k]).wf()) ==> (
        forall|k: int| 0 <= k < r@.len() ==> (#[trigger] r@[k]).wf()),
{
    let mut out: Vec<Explosion> = Vec::new();
    let mut k: usize = 0;
    while k < explosions.len()
        invariant
            k <= explosions@.len(),
            out@ == aged_explosions(explosions@.take(k as int), dt as int),
            (forall|m: int| 0 <= m < explosions@.len() ==> (#[trigger] explosions@[m]).wf()) ==> (
            forall|m: int| 0 <= m < out@.len() ==> (#[trigger] out@[m]).wf()),
        decreases explosions@.len() - k,
    {
        let e = explosions[k];
        proof {
            assert(explosions@.take(k + 1).drop_last() =~= explosions@.take(k as int));
            assert(explosions@.take(k + 1).last() == e);
        }
        let new_age = e.age + dt;
        if new_age < EXPLOSION_LIFETIME {
            out.push(Explosion { x: e.x, y: e.y, age: new_age });
        }
        k = k + 1;
    }
    proof {
        assert(explosions@.take(explosions@.len() as int) =~= explosions@);
    }
    out
}

/// Advance every entity's position by `dt`.
#[verifier::loop_isolation(false)]
pub fn advance_entities(entities: &mut Vec<Entity>, dt: i64)
    requires
        0 <= dt <= DT_LIMIT,
        forall|k: int| 0 <= k < old(entities)@.len() ==> (#[trigger] old(entities)@[k]).wf(),
    ensures
        final(entities)@ == advanced_entities(old(entities)@, dt as int),
        forall|k: int| 0 <= k < final(entities)@.len() ==> (#[trigger] final(entities)@[k]).wf(),
{
    let n = entities.len();
    let mut k: usize = 0;
    while k < n
        invariant
            k <= n,
            entities@.len() == n,
            forall|m: int| 0 <= m < n ==> (#[trigger] entities@[m]).wf(),
            forall|m: int| k <= m < n ==> entities@[m] == old(entities)@[m],
            forall|m: int| 0 <= m < k ==> entities@[m] == advanced(old(entities)@[m], dt as int),
        decreases n - k,
    {
        let e = &mut entities[k];
        e.update(dt);
        k = k + 1;
    }
    proof {
        assert(entities@ =~= advanced_entities(old(entities)@, dt as int));
    }
}

/// Compare all pairs of entities by pixel cell; for each colliding pair
/// push one explosion at the shared cell, and mark every entity that
/// collided with any other.
#[verifier::loop_isolation(false)]
pub fn detect_collisions(entities: &Vec<Entity>, explosions: &mut Vec<Explosion>) -> (marked: Vec<
    bool,
>)
    requires
        forall|k: int| 0 <= k < entities@.len() ==> (#[trigger] entities@[k]).wf(),
        forall|k: int| 0 <= k < old(explosions)@.len() ==> (#[trigger] old(explosions)@[k]).wf(),
    ensures
        marked@.len() == entities@.len(),
        forall|k: int| 0 <= k < entities@.len() ==> (marked@[k] <==> collides(entities@, k)),
        final(explosions)@ == old(explosions)@ + collision_explosions(entities@),
        forall|k: int|
            0 <= k < final(explosions)@.len() ==> (#[trigger] final(explosions)@[k]).wf(),
{
    let ghost s = entities@;
    let n = entities.len();
    let mut marked: Vec<bool> = Vec::new();
    let mut k: usize = 0;
    while k < n
        invariant
            marked@.len() == k,
            k <= n,
            forall|m: int| 0 <= m < k ==> !marked@[m],
        decreases n - k,
    {
        marked.push(false);
        k = k + 1;
    }
    let ghost mut done: Seq<(int, int)> = Seq::empty();
    let ghost f = |p: (int, int)| explosion_for(s, p);
    proof {
        assert(explosions@ =~= old(explosions)@ + done.map_values(f));
    }
    let mut i: usize = 0;
    while i < n
        invariant
            i <= n,
            marked@.len() == n,
            explosions@ == old(explosions)@ + done.map_values(f),
            forall|m: int| 0 <= m < explosions@.len() ==> (#[trigger] explosions@[m]).wf(),
            done + collision_pairs_from(s, i as int) == collision_pairs(s),
            forall|m: int| 0 <= m < n ==> (marked@[m] <==> marked_upto(s, m, i as int, i + 1)),
        decreases n - i,
    {
        let a = entities[i].pixel_position();
        let mut j: usize = i + 1;
        while j < n
            invariant
                i < j <= n,
                marked@.len() == n,
                a.0 == cell_of(s[i as int].x as int),
                a.1 == cell_of(s[i as int].y as int),
                -CELL_LIMIT <= a.0 <= CELL_LIMIT,
                -CELL_LIMIT <= a.1 <= CELL_LIMIT,
                explosions@ == old(explosions)@ + done.map_values(f),
                forall|m: int| 0 <= m < explosions@.len() ==> (#[trigger] explosions@[m]).wf(),
                done + row_pairs(s, i as int, j as int) + collision_pairs_from(s, i + 1)
                    == collision_pairs(s),
                forall|m: int| 0 <= m < n ==> (marked@[m] <==> marked_upto(s, m, i as int, j as int)),
            decreases n - j,
        {
            let b = entities[j].pixel_position();
            if a.0 == b.0 && a.1 == b.1 {
                assert(pix_eq(s[i as int], s[j as int]));
                marked.set(i, true);
                marked.set(j, true);
                explosions.push(Explosion { x: a.0, y: a.1, age: 0 });
                proof {
                    let p = (i as int, j as int);
                    assert(done.push(p).map_values(f) =~= done.map_values(f).push(
                        explosion_for(s, p),
                    ));
                    assert(explosions@ =~= old(explosions)@ + done.push(p).map_values(f));
                    assert(row_pairs(s, i as int, j as int) == seq![p] + row_pairs(
                        s,
                        i as int,
                        j + 1,
                    ));
                    assert(done.push(p) =~= done + seq![p]);
                    assert(done.push(p) + row_pairs(s, i as int, j + 1) + collision_pairs_from(
                        s,
                        i + 1,
                    ) =~= done + row_pairs(s, i as int, j as int) + collision_pairs_from(
                        s,
                        i + 1,
                    ));
                    done = done.push(p);
                    assert forall|m: int| 0 <= m < n implies (marked@[m] <==> marked_upto(
                        s,
                        m,
                        i as int,
                        j + 1,
                    )) by {
                        lemma_marked_upto_step(s, m, i as int, j as int, true);
                    }
                }
            } else {
                proof {
                    assert(!pix_eq(s[i as int], s[j as int]));
                    assert(row_pairs(s, i as int, j as int) == row_pairs(s, i as int, j + 1));
                    assert forall|m: int| 0 <= m < n implies (marked@[m] <==> marked_upto(
                        s,
                        m,
                        i as int,
                        j + 1,
                    )) by {
                        lemma_marked_upto_step(s, m, i as int, j as int, false);
                    }
                }
            }
            j = j + 1;
        }
        proof {
            assert(row_pairs(s, i as int, n as int) == Seq::<(int, int)>::empty());
            assert(done + Seq::<(int, int)>::empty() =~= done);
            assert(collision_pairs_from(s, i as int) == row_pairs(s, i as int, i + 1)
                + collision_pairs_from(s, i + 1));
            assert forall|m: int| 0 <= m < n implies (marked_upto(s, m, i as int, n as int)
                <==> marked_upto(s, m, i + 1, i + 2)) by {
                lemma_marked_upto_row_end(s, m, i as int);
            }
        }
        i = i + 1;
    }
    proof {
        assert(collision_pairs_from(s, n as int) == Seq::<(int, int)>::empty());
        assert(done + Seq::<(int, int)>::empty() =~= done);
        assert(done == collision_pairs(s));
        assert(done.map_values(f) == collision_explosions(s));
        assert forall|m: int| 0 <= m < n implies (marked@[m] <==> collides(s, m)) by {
            lemma_marked_upto_complete(s, m, n as int);
        }
    }
    marked
}

/// Entity `m` was marked by the scan after all pairs lexicographically
/// before `(i, j)` were compared.
pub open spec fn marked_upto(s: Seq<Entity>, m: int, i: int, j: int) -> bool {
    exists|a: int, b: int|
        0 <= a < b < s.len() && (a < i || (a == i && b < j)) && (m == a || m == b)
            && #[trigger] pix_eq(s[a], s[b])
}

proof fn lemma_marked_upto_step(s: Seq<Entity>, m: int, i: int, j: int, hit: bool)
    requires
        0 <= i < j < s.len(),
        hit <==> pix_eq(s[i], s[j]),
    ensures
        hit && (m == i || m == j) ==> marked_upto(s, m, i, j + 1),
        !(hit && (m == i || m == j)) ==> (marked_upto(s, m, i, j + 1) <==> marked_upto(
            s,
            m,
            i,
            j,
        )),
{
    if hit && (m == i || m == j) {
        assert(0 <= i < j < s.len() && (i < i || (i == i && j < j + 1)) && (m == i || m == j)
            && pix_eq(s[i], s[j]));
    } else {
        if marked_upto(s, m, i, j + 1) {
            let (a, b) = choose|a: int, b: int|
                0 <= a < b < s.len() && (a < i || (a == i && b < j + 1)) && (m == a || m == b)
                    && #[trigger] pix_eq(s[a], s[b]);
            if a == i && b == j {
                assert(hit && (m == i || m == j));
            } else {
                assert(a < i || (a == i && b < j));
                assert(marked_upto(s, m, i, j));
            }
        }
        if marked_upto(s, m, i, j) {
            let (a, b) = choose|a: int, b: int|
                0 <= a < b < s.len() && (a < i || (a == i && b < j)) && (m == a || m == b)
                    && #[trigger] pix_eq(s[a], s[b]);
            assert(marked_upto(s, m, i, j + 1));
        }
    }
}

proof fn lemma_marked_upto_row_end(s: Seq<Entity>, m: int, i: int)
    ensures
        marked_upto(s, m, i, s.len() as int) <==> marked_upto(s, m, i + 1, i + 2),
{
    if marked_upto(s, m, i, s.len() as int) {
        let (a, b) = choose|a: int, b: int|
            0 <= a < b < s.len() && (a < i || (a == i && b < s.len())) && (m == a || m == b)
                && #[trigger] pix_eq(s[a], s[b]);
        assert(a < i + 1);
        assert(marked_upto(s, m, i + 1, i + 2));
    }
    if marked_upto(s, m, i + 1, i + 2) {
        let (a, b) = choose|a: int, b: int|
            0 <= a < b < s.len() && (a < i + 1 || (a == i + 1 && b < i + 2)) && (m == a || m == b)
                && #[trigger] pix_eq(s[a], s[b]);
        assert(a < i + 1);
        assert(marked_upto(s, m, i, s.len() as int));
    }
}

proof fn lemma_marked_upto_complete(s: Seq<Entity>, m: int, n: int)
    requires
        n == s.len(),
        0 <= m < n,
    ensures
        marked_upto(s, m, n, n + 1) <==> collides(s, m),
{
    if marked_upto(s, m, n, n + 1) {
        let (a, b) = choose|a: int, b: int|
            0 <= a < b < s.len() && (a < n || (a == n && b < n + 1)) && (m == a || m == b)
                && #[trigger] pix_eq(s[a], s[b]);
        if m == a {
            assert(pix_eq(s[m], s[b]));
            assert(collides(s, m));
        } else {
            assert(pix_eq(s[m], s[a]));
            assert(collides(s, m));
        }
    }
    if collides(s, m) {
        let l = choose|l: int| 0 <= l < s.len() && l != m && #[trigger] pix_eq(s[m], s[l]);
        if l < m {
            assert(pix_eq(s[l], s[m]));
            assert(0 <= l < m < s.len() && (l < n) && (m == l || m == m) && pix_eq(s[l], s[m]));
            assert(marked_upto(s, m, n, n + 1));
        } else {
            assert(0 <= m < l < s.len() && (m < n) && (m == m || m == l) && pix_eq(s[m], s[l]));
            assert(marked_upto(s, m, n, n + 1));
        }
    }
}

/// Keep the entities that are on the grid and did not collide.
#[verifier::loop_isolation(false)]
pub fn remove_finished(entities: &Vec<Entity>, marked: &Vec<bool>, max_col: i64) -> (r: Vec<Entity>)
    requires
        marked@.len() == entities@.len(),
        forall|k: int| 0 <= k < entities@.len() ==> (#[trigger] entities@[k]).wf(),
        forall|k: int| 0 <= k < entities@.len() ==> (marked@[k] <==> collides(entities@, k)),
    ensures
        r@ == survivors(entities@, max_col as int),
        forall|k: int| 0 <= k < r@.len() ==> (#[trigger] r@[k]).wf(),
{
    let ghost s = entities@;
    let n = entities.len();
    let mut out: Vec<Entity> = Vec::new();
    let mut k: usize = 0;
    while k < n
        invariant
            k <= n,
            out@ + survivors_from(s, max_col as int, k as int) == survivors(s, max_col as int),
            forall|m: int| 0 <= m < out@.len() ==> (#[trigger] out@[m]).wf(),
        decreases n - k,
    {
        let e = entities[k];
        let p = e.pixel_position();
        let keep = p.0 >= 0 && p.0 < max_col && !marked[k];
        proof {
            assert(keep <==> keep_entity(s, max_col as int, k as int));
            if keep {
                assert(survivors_from(s, max_col as int, k as int) == seq![s[k as int]]
                    + survivors_from(s, max_col as int, k + 1));
                assert(out@.push(e) + survivors_from(s, max_col as int, k + 1) =~= out@
                    + survivors_from(s, max_col as int, k as int));
            } else {
                assert(survivors_from(s, max_col as int, k as int) == survivors_from(
                    s,
                    max_col as int,
                    k + 1,
                ));
            }
        }
        if keep {
            out.push(e);
        }
        k = k + 1;
    }
    proof {
        assert(survivors_from(s, max_col as int, n as int) == Seq::<Entity>::empty());
        assert(out@ + Seq::<Entity>::empty() =~= out@);
    }
    out
}

proof fn lemma_row_pairs_mem(s: Seq<Entity>, i: int, j: int, a: int, b: int)
    ensures
        row_pairs(s, i, j).contains((a, b)) <==> (a == i && 0 <= j <= b < s.len() && pix_eq(
            s[i],
            s[b],
        )),
    decreases s.len() - j,
{
    if j < 0 || j >= s.len() {
    } else {
        lemma_row_pairs_mem(s, i, j + 1, a, b);
        let rest = row_pairs(s, i, j + 1);
        if pix_eq(s[i], s[j]) {
            let cat = seq![(i, j)] + rest;
            assert(cat[0] == (i, j));
            if cat.contains((a, b)) {
                let k = choose|k: int| 0 <= k < cat.len() && cat[k] == (a, b);
                if k == 0 {
                } else {
                    assert(rest[k - 1] == (a, b));
                    assert(rest.contains((a, b)));
                }
            }
            if a == i && 0 <= j <= b < s.len() && pix_eq(s[i], s[b]) {
                if b == j {
                    assert(cat.contains((a, b)));
                } else {
                    assert(rest.contains((a, b)));
                    let k = choose|k: int| 0 <= k < rest.len() && rest[k] == (a, b);
                    assert(cat[k + 1] == (a, b));
                    assert(cat.contains((a, b)));
                }
            }
        } else {
            if a == i && 0 <= j <= b < s.len() && pix_eq(s[i], s[b]) && b == j {
                assert(false);
            }
        }
    }
}

proof fn lemma_row_pairs_nodup(s: Seq<Entity>, i: int, j: int)
    ensures
        row_pairs(s, i, j).no_duplicates(),
    decreases s.len() - j,
{
    if j < 0 || j >= s.len() {
    } else {
        lemma_row_pairs_nodup(s, i, j + 1);
        let rest = row_pairs(s, i, j + 1);
        if pix_eq(s[i], s[j]) {
            let head = seq![(i, j)];
            assert forall|p: int, q: int|
                0 <= p < head.len() && 0 <= q < rest.len() implies head[p] != rest[q] by {
                assert(rest.contains(rest[q]));
                lemma_row_pairs_mem(s, i, j + 1, rest[q].0, rest[q].1);
            }
            vstd::seq_lib::lemma_no_dup_in_concat(head, rest);
        }
    }
}

proof fn lemma_pairs_from_mem(s: Seq<Entity>, i: int, a: int, b: int)
    ensures
        collision_pairs_from(s, i).contains((a, b)) <==> (0 <= i <= a < b < s.len() && pix_eq(
            s[a],
            s[b],
        )),
    decreases s.len() - i,
{
    if i < 0 || i >= s.len() {
    } else {
        lemma_pairs_from_mem(s, i + 1, a, b);
        lemma_row_pairs_mem(s, i, i + 1, a, b);
        let row = row_pairs(s, i, i + 1);
        let rest = collision_pairs_from(s, i + 1);
        let cat = row + rest;
        if cat.contains((a, b)) {
            let k = choose|k: int| 0 <= k < cat.len() && cat[k] == (a, b);
            if k < row.len() {
                assert(row.contains((a, b)));
            } else {
                assert(rest[k - row.len()] == (a, b));
                assert(rest.contains((a, b)));
            }
        }
        if 0 <= i <= a < b < s.len() && pix_eq(s[a], s[b]) {
            if a == i {
                assert(row.contains((a, b)));
                let k = choose|k: int| 0 <= k < row.len() && row[k] == (a, b);
                assert(cat[k] == (a, b));
                assert(cat.contains((a, b)));
            } else {
                assert(rest.contains((a, b)));
                let k = choose|k: int| 0 <= k < rest.len() && rest[k] == (a, b);
                assert(cat[row.len() + k] == (a, b));
                assert(cat.contains((a, b)));
            }
        }
    }
}

proof fn lemma_pairs_from_nodup(s: Seq<Entity>, i: int)
    ensures
        collision_pairs_from(s, i).no_duplicates(),
    decreases s.len() - i,
{
    if i < 0 || i >= s.len() {
    } else {
        lemma_pairs_from_nodup(s, i + 1);
        lemma_row_pairs_nodup(s, i, i + 1);
        let row = row_pairs(s, i, i + 1);
        let rest = collision_pairs_from(s, i + 1);
        assert forall|p: int, q: int|
            0 <= p < row.len() && 0 <= q < rest.len() implies row[p] != rest[q] by {
            assert(row.contains(row[p]));
            assert(rest.contains(rest[q]));
            lemma_row_pairs_mem(s, i, i + 1, row[p].0, row[p].1);
            lemma_pairs_from_mem(s, i + 1, rest[q].0, rest[q].1);
        }
        vstd::seq_lib::lemma_no_dup_in_concat(row, rest);
    }
}

/// Each colliding pair is detected exactly once: the pair stands
/// exactly once in the collision pairs, one explosion is spawned per
/// pair, and both entities of the pair are marked as colliding.
pub proof fn lemma_one_explosion_per_colliding_pair(s: Seq<Entity>, i: int, j: int)
    requires
        0 <= i < j < s.len(),
        pix_eq(s[i], s[j]),
    ensures
        collision_pairs(s).no_duplicates(),
        collision_pairs(s).to_multiset().count((i, j)) == 1,
        collision_explosions(s).len() == collision_pairs(s).len(),
        collides(s, i),
        collides(s, j),
{
    lemma_pairs_from_mem(s, 0, i, j);
    lemma_pairs_from_nodup(s, 0);
    collision_pairs(s).lemma_multiset_has_no_duplicates();
    collision_pairs(s).to_multiset_ensures();
    assert(collision_pairs(s).contains((i, j)));
    assert(pix_eq(s[j], s[i]));
}

proof fn lemma_survivors_from_mem(s: Seq<Entity>, max_col: int, k: int, e: Entity)
    ensures
        survivors_from(s, max_col, k).contains(e) <==> exists|m: int|
            0 <= k <= m < s.len() && #[trigger] keep_entity(s, max_col, m) && s[m] == e,
    decreases s.len() - k,
{
    if k < 0 || k >= s.len() {
    } else {
        lemma_survivors_from_mem(s, max_col, k + 1, e);
        let rest = survivors_from(s, max_col, k + 1);
        if keep_entity(s, max_col, k) {
            let cat = seq![s[k]] + rest;
            assert(cat[0] == s[k]);
            if cat.contains(e) {
                let x = choose|x: int| 0 <= x < cat.len() && cat[x] == e;
                if x == 0 {
                    assert(keep_entity(s, max_col, k) && s[k] == e);
                } else {
                    assert(rest[x - 1] == e);
                    assert(rest.contains(e));
                }
            }
            if exists|m: int|
                0 <= k <= m < s.len() && #[trigger] keep_entity(s, max_col, m) && s[m] == e {
                let m = choose|m: int|
                    0 <= k <= m < s.len() && #[trigger] keep_entity(s, max_col, m) && s[m] == e;
                if m == k {
                    assert(cat.contains(e));
                } else {
                    assert(rest.contains(e));
                    let x = choose|x: int| 0 <= x < rest.len() && rest[x] == e;
                    assert(cat[x + 1] == e);
                    assert(cat.contains(e));
                }
            }
        }
    }
}

/// What survives a tick's removal step: exactly the values of entities
/// that sit on a grid column and collided with nothing.
pub proof fn lemma_survivors_mem(s: Seq<Entity>, max_col: int, e: Entity)
    ensures
        survivors(s, max_col).contains(e) <==> exists|m: int|
            0 <= m < s.len() && #[trigger] keep_entity(s, max_col, m) && s[m] == e,
{
    lemma_survivors_from_mem(s, max_col, 0, e);
}

/// Both entities of a colliding pair leave the active set: no entity
/// that collided survives the removal step.
pub proof fn lemma_collided_entity_removed(s: Seq<Entity>, max_col: int, k: int)
    requires
        0 <= k < s.len(),
        collides(s, k),
    ensures
        !survivors(s, max_col).contains(s[k]),
{
    lemma_survivors_mem(s, max_col, s[k]);
    if survivors(s, max_col).contains(s[k]) {
        let m = choose|m: int|
            0 <= m < s.len() && #[trigger] keep_entity(s, max_col, m) && s[m] == s[k];
        let l = choose|l: int| 0 <= l < s.len() && l != k && #[trigger] pix_eq(s[k], s[l]);
        if l == m {
            assert(pix_eq(s[m], s[k]));
            assert(collides(s, m));
        } else {
            assert(pix_eq(s[m], s[l]));
            assert(collides(s, m));
        }
    }
}

/// An entity whose pixel column lies outside the grid does not survive
/// the removal step.
pub proof fn lemma_offgrid_entity_removed(s: Seq<Entity>, max_col: int, k: int)
    requires
        0 <= k < s.len(),
        !(0 <= cell_of(s[k].x as int) < max_col),
    ensures
        !survivors(s, max_col).contains(s[k]),
{
    lemma_survivors_mem(s, max_col, s[k]);
}

/// An entity on a grid column that collided with nothing survives the
/// removal step.
pub proof fn lemma_ongrid_uncollided_retained(s: Seq<Entity>, max_col: int, k: int)
    requires
        0 <= k < s.len(),
        keep_entity(s, max_col, k),
    ensures
        survivors(s, max_col).contains(s[k]),
{
    lemma_survivors_mem(s, max_col, s[k]);
}

/// Pick a uniformly random interior row: neither the topmost nor the
/// bottommost of `row_count` rows.
pub fn spawn_row(row_count: usize) -> (row: usize)
    requires
        row_count >= 3,
    ensures
        1 <= row <= row_count - 2,
{
    let r = rand::random::<usize>();
    1 + (r % (row_count - 2))
}

/// The simulation context: the live entities, the live explosions, and
/// the time since an entity was last spawned.
pub struct SimState {
    pub entities: Vec<Entity>,
    pub explosions: Vec<Explosion>,
    pub spawn_elapsed: i64,
}

impl SimState {
    /// Every entity and explosion within range, and the spawn timer
    /// within its interval.
    pub open spec fn wf(&self) -> bool {
        &&& forall|k: int| 0 <= k < self.entities@.len() ==> (#[trigger] self.entities@[k]).wf()
        &&& forall|k: int|
            0 <= k < self.explosions@.len() ==> (#[trigger] self.explosions@[k]).wf()
        &&& 0 <= self.spawn_elapsed <= SPAWN_INTERVAL
    }

    /// An empty simulation with the spawn timer just reset.
    pub fn new() -> (s: SimState)
        ensures
            s.entities@ == Seq::<Entity>::empty(),
            s.explosions@ == Seq::<Explosion>::empty(),
            s.spawn_elapsed == 0,
            s.wf(),
    {
        SimState { entities: Vec::new(), explosions: Vec::new(), spawn_elapsed: 0 }
    }

    /// One simulation tick of `dt` milli-units over a grid `max_col`
    /// columns wide and `row_count` rows tall: age and prune explosions,
    /// advance entities, turn collisions into explosions, remove
    /// collided and off-grid entities, and spawn a hostile entity when
    /// the spawn interval has elapsed.
    pub fn step(&mut self, dt: i64, max_col: i64, row_count: usize)
        requires
            old(self).wf(),
            0 <= dt <= DT_LIMIT,
            1 <= max_col <= CELL_LIMIT,
            3 <= row_count <= CELL_LIMIT,
        ensures
            final(self).wf(),
            final(self).explosions@ == aged_explosions(old(self).explosions@, dt as int)
                + collision_explosions(advanced_entities(old(self).entities@, dt as int)),
            ({
                let kept = survivors(advanced_entities(old(self).entities@, dt as int),
                    max_col as int);
                if old(self).spawn_elapsed + dt > SPAWN_INTERVAL {
                    final(self).spawn_elapsed == 0 && exists|row: int|
                        1 <= row <= row_count - 2 && final(self).entities@ == kept.push(
                            spawned_entity(max_col as int, row),
                        )
                } else {
                    final(self).entities@ == kept && final(self).spawn_elapsed == old(
                        self,
                    ).spawn_elapsed + dt
                }
            }),
    {
        self.explosions = age_explosions(&self.explosions, dt);
        advance_entities(&mut self.entities, dt);
        let marked = detect_collisions(&self.entities, &mut self.explosions);
        self.entities = remove_finished(&self.entities, &marked, max_col);
        if self.spawn_elapsed > SPAWN_INTERVAL - dt {
            let row = spawn_row(row_count);
            let e = Entity {
                x: (max_col - 1) * POS_SCALE,
                y: (row as i64) * POS_SCALE,
                dx: -SPAWN_SPEED,
                dy: 0,
                color: Rgb { r: 0x00, g: 0x00, b: 0xFF },
            };
            assert(e == spawned_entity(max_col as int, row as int));
            assert(e.wf());
            self.entities.push(e);
            self.spawn_elapsed = 0;
        } else {
            self.spawn_elapsed = self.spawn_elapsed + dt;
        }
    }
}

} // verus!
