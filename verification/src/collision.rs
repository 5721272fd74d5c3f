//! The collision pass of one frame: which bullets strike which asteroids,
//! what the strikes leave behind, and who is left on the field after.
//!
//! The pass first reads, then changes: `detect` pairs asteroids with
//! bullets on the field as it stands, `resolve` marks the pairs as struck
//! and stages their children, `merge_and_cull` adds the children and
//! removes what is no longer alive.

use vstd::prelude::*;
use crate::asteroid::{split_velocity, Asteroid, AsteroidState};
use crate::bullet::{Bullet, BulletState};
use crate::kinematic::KinematicGetters;
use crate::random::{between, random_in_range};
use crate::vector::Vec2;

verus! {

/// The values of a sequence of asteroids.
pub open spec fn asteroid_states(asteroids: Seq<Asteroid>) -> Seq<AsteroidState> {
    asteroids.map_values(|a: Asteroid| a@)
}

/// The values of a sequence of bullets.
pub open spec fn bullet_states(bullets: Seq<Bullet>) -> Seq<BulletState> {
    bullets.map_values(|b: Bullet| b@)
}

/// The values of a sequence of index pairs.
pub open spec fn indices(pairs: Seq<(usize, usize)>) -> Seq<(int, int)> {
    pairs.map_values(|p: (usize, usize)| (p.0 as int, p.1 as int))
}

/// The values of a sequence of speeds.
pub open spec fn speed_values(speeds: Seq<i64>) -> Seq<int> {
    speeds.map_values(|s: i64| s as int)
}

/// Whether `bullet` strikes `asteroid`: both are alive and the bullet
/// lies inside the asteroid.
pub open spec fn hit(asteroid: AsteroidState, bullet: BulletState) -> bool {
    asteroid.is_alive() && bullet.is_alive() && asteroid.contains(bullet.motion.position)
}

/// Whether one of `pairs` holds the bullet of index `bullet`.
pub open spec fn is_taken(pairs: Seq<(int, int)>, bullet: int) -> bool {
    exists|k: int| 0 <= k < pairs.len() && (#[trigger] pairs[k]).1 == bullet
}

/// The first bullet, from index `from` on, that strikes `asteroid` and
/// is in none of `pairs`; the number of bullets if there is none.
pub open spec fn first_hit(
    asteroid: AsteroidState,
    bullets: Seq<BulletState>,
    pairs: Seq<(int, int)>,
    from: int,
) -> int
    decreases bullets.len() - from,
{
    if from < 0 || from >= bullets.len() {
        bullets.len() as int
    } else if hit(asteroid, bullets[from]) && !is_taken(pairs, from) {
        from
    } else {
        first_hit(asteroid, bullets, pairs, from + 1)
    }
}

/// The strikes among the first `n` asteroids, as pairs of the index of an
/// asteroid and the index of a bullet, in the order of the asteroids.
/// Each asteroid is paired with the first bullet that strikes it and that
/// no earlier asteroid was paired with, so no asteroid and no bullet is
/// in two pairs.
pub open spec fn matches(asteroids: Seq<AsteroidState>, bullets: Seq<BulletState>, n: nat) -> Seq<
    (int, int),
>
    decreases n,
{
    if n == 0 {
        Seq::empty()
    } else {
        let earlier = matches(asteroids, bullets, (n - 1) as nat);
        let bullet = first_hit(asteroids[n - 1], bullets, earlier, 0);
        if bullet < bullets.len() {
            earlier.push((n - 1, bullet))
        } else {
            earlier
        }
    }
}

/// The speed at which the children of the pair of index `k` leave:
/// `speeds[k]`, or the least speed of an asteroid where `speeds` is too
/// short.
pub open spec fn speed_at(speeds: Seq<int>, k: int) -> int {
    if 0 <= k < speeds.len() {
        speeds[k]
    } else {
        Asteroid::MIN_SPEED as int
    }
}

/// The asteroids and bullets of a frame, and the children staged for it.
pub struct Field {
    pub asteroids: Seq<AsteroidState>,
    pub bullets: Seq<BulletState>,
    pub children: Seq<AsteroidState>,
}

impl Field {
    /// Whether `pair` names an asteroid and a bullet of the field that
    /// are both still alive.
    pub open spec fn can_resolve(self, pair: (int, int)) -> bool {
        &&& 0 <= pair.0 < self.asteroids.len()
        &&& 0 <= pair.1 < self.bullets.len()
        &&& self.asteroids[pair.0].is_alive()
        &&& self.bullets[pair.1].is_alive()
    }

    /// The field after one strike: asteroid and bullet marked as struck,
    /// and the asteroid's two children staged if they are large enough to
    /// live. A pair that cannot be resolved changes nothing, so nothing is
    /// struck twice.
    pub open spec fn resolved_pair(self, pair: (int, int), speed: int) -> Field {
        if self.can_resolve(pair) {
            let parent = self.asteroids[pair.0];
            let bullet = self.bullets[pair.1];
            let velocity = split_velocity(bullet.motion.velocity, speed);
            Field {
                asteroids: self.asteroids.update(pair.0, parent.struck()),
                bullets: self.bullets.update(pair.1, bullet.struck()),
                children: if parent.can_split() {
                    self.children.push(parent.child(velocity)).push(
                        parent.child(velocity.negated()),
                    )
                } else {
                    self.children
                },
            }
        } else {
            self
        }
    }

    /// The field after the first `n` of `pairs` are resolved in order.
    pub open spec fn resolved(self, pairs: Seq<(int, int)>, speeds: Seq<int>, n: nat) -> Field
        decreases n,
    {
        if n == 0 {
            self
        } else {
            self.resolved(pairs, speeds, (n - 1) as nat).resolved_pair(
                pairs[n - 1],
                speed_at(speeds, n - 1),
            )
        }
    }

    /// The field with the staged children added and everything removed
    /// that is not alive.
    pub open spec fn culled(self) -> Field {
        Field {
            asteroids: (self.asteroids + self.children).filter(|a: AsteroidState| a.is_alive()),
            bullets: self.bullets.filter(|b: BulletState| b.is_alive()),
            children: Seq::empty(),
        }
    }

    /// The strikes on the field as it stands.
    pub open spec fn strikes(self) -> Seq<(int, int)> {
        matches(self.asteroids, self.bullets, self.asteroids.len())
    }

    /// The field after one collision pass in which the children of the
    /// strike of index `k` leave at `speed_at(speeds, k)`.
    pub open spec fn after_pass(self, speeds: Seq<int>) -> Field {
        self.resolved(self.strikes(), speeds, self.strikes().len()).culled()
    }
}

/// What `first_hit` finds is the first bullet from `from` on that strikes
/// the asteroid and is in none of the pairs.
pub proof fn lemma_first_hit(
    asteroid: AsteroidState,
    bullets: Seq<BulletState>,
    pairs: Seq<(int, int)>,
    from: int,
)
    requires
        0 <= from <= bullets.len(),
    ensures
        from <= first_hit(asteroid, bullets, pairs, from) <= bullets.len(),
        first_hit(asteroid, bullets, pairs, from) < bullets.len() ==> hit(
            asteroid,
            bullets[first_hit(asteroid, bullets, pairs, from)],
        ) && !is_taken(pairs, first_hit(asteroid, bullets, pairs, from)),
        forall|j: int|
            from <= j < first_hit(asteroid, bullets, pairs, from) ==> !(hit(
                asteroid,
                #[trigger] bullets[j],
            ) && !is_taken(pairs, j)),
    decreases bullets.len() - from,
{
    if from < bullets.len() && !(hit(asteroid, bullets[from]) && !is_taken(pairs, from)) {
        lemma_first_hit(asteroid, bullets, pairs, from + 1);
    }
}

/// Every pair of the strikes is a strike, and no body is in two pairs.
///
/// Each pair names an asteroid among the first `n` and a bullet that
/// strikes it; the pairs are in the order of their asteroids, each
/// asteroid at most once, and no two pairs name the same bullet.
pub proof fn lemma_strikes_are_distinct(
    asteroids: Seq<AsteroidState>,
    bullets: Seq<BulletState>,
    n: nat,
)
    requires
        n <= asteroids.len(),
    ensures
        matches(asteroids, bullets, n).len() <= n,
        forall|k: int|
            0 <= k < matches(asteroids, bullets, n).len() ==> {
                let pair = #[trigger] matches(asteroids, bullets, n)[k];
                &&& 0 <= pair.0 < n
                &&& 0 <= pair.1 < bullets.len()
                &&& hit(asteroids[pair.0], bullets[pair.1])
            },
        forall|k: int, l: int|
            0 <= k < l < matches(asteroids, bullets, n).len() ==> {
                let first = #[trigger] matches(asteroids, bullets, n)[k];
                let second = #[trigger] matches(asteroids, bullets, n)[l];
                first.0 < second.0 && first.1 != second.1
            },
    decreases n,
{
    if n > 0 {
        let earlier = matches(asteroids, bullets, (n - 1) as nat);
        lemma_strikes_are_distinct(asteroids, bullets, (n - 1) as nat);
        lemma_first_hit(asteroids[n - 1], bullets, earlier, 0);
        let bullet = first_hit(asteroids[n - 1], bullets, earlier, 0);
        let pairs = matches(asteroids, bullets, n);
        if bullet < bullets.len() {
            assert forall|k: int, l: int| 0 <= k < l < pairs.len() implies {
                let first = #[trigger] pairs[k];
                let second = #[trigger] pairs[l];
                first.0 < second.0 && first.1 != second.1
            } by {
                if l == earlier.len() {
                    assert(earlier[k] == pairs[k]);
                    if pairs[k].1 == bullet {
                        assert(is_taken(earlier, bullet));
                    }
                } else {
                    assert(earlier[k] == pairs[k]);
                    assert(earlier[l] == pairs[l]);
                }
            }
        }
    }
}

/// Whether one of `pairs` holds the asteroid of index `asteroid`.
pub open spec fn is_paired(pairs: Seq<(int, int)>, asteroid: int) -> bool {
    exists|k: int| 0 <= k < pairs.len() && (#[trigger] pairs[k]).0 == asteroid
}

/// Resolving the strikes of a field marks exactly the bodies they name.
///
/// After the first `k` strikes of a field are resolved, every asteroid
/// and every bullet that one of them names is marked as struck and is
/// otherwise as before, and every other body is unchanged: none of the
/// strikes is passed over.
pub proof fn lemma_resolved_strikes(field: Field, speeds: Seq<int>, k: nat)
    requires
        k <= field.strikes().len(),
    ensures
        ({
            let after = field.resolved(field.strikes(), speeds, k);
            let pairs = field.strikes().take(k as int);
            &&& after.asteroids.len() == field.asteroids.len()
            &&& after.bullets.len() == field.bullets.len()
            &&& forall|i: int|
                0 <= i < field.asteroids.len() ==> #[trigger] after.asteroids[i] == if is_paired(
                    pairs,
                    i,
                ) {
                    field.asteroids[i].struck()
                } else {
                    field.asteroids[i]
                }
            &&& forall|j: int|
                0 <= j < field.bullets.len() ==> #[trigger] after.bullets[j] == if is_taken(
                    pairs,
                    j,
                ) {
                    field.bullets[j].struck()
                } else {
                    field.bullets[j]
                }
        }),
    decreases k,
{
    let strikes = field.strikes();
    let pairs = strikes.take(k as int);
    if k == 0 {
        assert(pairs.len() == 0);
    } else {
        let before = field.resolved(strikes, speeds, (k - 1) as nat);
        let earlier = strikes.take(k - 1);
        let pair = strikes[k - 1];
        lemma_resolved_strikes(field, speeds, (k - 1) as nat);
        lemma_strikes_are_distinct(field.asteroids, field.bullets, field.asteroids.len());
        assert(!is_paired(earlier, pair.0)) by {
            if is_paired(earlier, pair.0) {
                let m = choose|m: int| 0 <= m < earlier.len() && (#[trigger] earlier[m]).0 == pair.0;
                assert(strikes[m] == earlier[m]);
            }
        }
        assert(!is_taken(earlier, pair.1)) by {
            if is_taken(earlier, pair.1) {
                let m = choose|m: int| 0 <= m < earlier.len() && (#[trigger] earlier[m]).1 == pair.1;
                assert(strikes[m] == earlier[m]);
            }
        }
        assert(before.can_resolve(pair));
        let after = before.resolved_pair(pair, speed_at(speeds, k - 1));
        assert(pairs[k - 1] == pair);
        assert forall|i: int| 0 <= i < field.asteroids.len() implies #[trigger] after.asteroids[i]
            == if is_paired(pairs, i) {
            field.asteroids[i].struck()
        } else {
            field.asteroids[i]
        } by {
            if is_paired(earlier, i) {
                let m = choose|m: int| 0 <= m < earlier.len() && (#[trigger] earlier[m]).0 == i;
                assert(pairs[m] == earlier[m]);
            }
            if is_paired(pairs, i) && i != pair.0 {
                let m = choose|m: int| 0 <= m < pairs.len() && (#[trigger] pairs[m]).0 == i;
                assert(earlier[m] == pairs[m]);
            }
        }
        assert forall|j: int| 0 <= j < field.bullets.len() implies #[trigger] after.bullets[j]
            == if is_taken(pairs, j) {
            field.bullets[j].struck()
        } else {
            field.bullets[j]
        } by {
            if is_taken(earlier, j) {
                let m = choose|m: int| 0 <= m < earlier.len() && (#[trigger] earlier[m]).1 == j;
                assert(pairs[m] == earlier[m]);
            }
            if is_taken(pairs, j) && j != pair.1 {
                let m = choose|m: int| 0 <= m < pairs.len() && (#[trigger] pairs[m]).1 == j;
                assert(earlier[m] == pairs[m]);
            }
        }
    }
}

/// A body that nothing strikes stays on the field.
///
/// After a collision pass the field still holds, unchanged, every live
/// asteroid that is in none of the strikes and every live bullet that is
/// in none of them; and it holds nothing that is not alive.
pub proof fn lemma_pass_keeps_the_unstruck(field: Field, speeds: Seq<int>)
    ensures
        forall|i: int|
            0 <= i < field.asteroids.len() && field.asteroids[i].is_alive() && !is_paired(
                field.strikes(),
                i,
            ) ==> field.after_pass(speeds).asteroids.contains(#[trigger] field.asteroids[i]),
        forall|j: int|
            0 <= j < field.bullets.len() && field.bullets[j].is_alive() && !is_taken(
                field.strikes(),
                j,
            ) ==> field.after_pass(speeds).bullets.contains(#[trigger] field.bullets[j]),
        forall|i: int|
            0 <= i < field.after_pass(speeds).asteroids.len() ==> (
            #[trigger] field.after_pass(speeds).asteroids[i]).is_alive(),
        forall|j: int|
            0 <= j < field.after_pass(speeds).bullets.len() ==> (#[trigger] field.after_pass(
                speeds,
            ).bullets[j]).is_alive(),
{
    let strikes = field.strikes();
    let resolved = field.resolved(strikes, speeds, strikes.len());
    let after = field.after_pass(speeds);
    lemma_resolved_strikes(field, speeds, strikes.len());
    assert(strikes.take(strikes.len() as int) =~= strikes);
    let alive = |a: AsteroidState| a.is_alive();
    let flying = |b: BulletState| b.is_alive();
    let all = resolved.asteroids + resolved.children;
    assert forall|i: int|
        0 <= i < field.asteroids.len() && field.asteroids[i].is_alive() && !is_paired(
            strikes,
            i,
        ) implies after.asteroids.contains(#[trigger] field.asteroids[i]) by {
        assert(all[i] == field.asteroids[i]);
        all.lemma_filter_contains(alive, i);
    }
    assert forall|j: int|
        0 <= j < field.bullets.len() && field.bullets[j].is_alive() && !is_taken(
            strikes,
            j,
        ) implies after.bullets.contains(#[trigger] field.bullets[j]) by {
        resolved.bullets.lemma_filter_contains(flying, j);
    }
    assert forall|i: int| 0 <= i < after.asteroids.len() implies (
    #[trigger] after.asteroids[i]).is_alive() by {
        all.lemma_filter_pred(alive, i);
    }
    assert forall|j: int| 0 <= j < after.bullets.len() implies (
    #[trigger] after.bullets[j]).is_alive() by {
        resolved.bullets.lemma_filter_pred(flying, j);
    }
}

/// Finds the strikes of the frame without changing anything.
pub fn detect(asteroids: &Vec<Asteroid>, bullets: &Vec<Bullet>) -> (pairs: Vec<(usize, usize)>)
    ensures
        indices(pairs@) == matches(
            asteroid_states(asteroids@),
            bullet_states(bullets@),
            asteroids@.len(),
        ),
{
    let ghost field_asteroids = asteroid_states(asteroids@);
    let ghost field_bullets = bullet_states(bullets@);
    let mut pairs: Vec<(usize, usize)> = Vec::new();
    let mut taken: Vec<bool> = Vec::new();
    let mut filled: usize = 0;
    while filled < bullets.len()
        invariant
            filled <= bullets@.len(),
            taken@.len() == filled,
            forall|j: int| 0 <= j < filled ==> !(#[trigger] taken@[j]),
        decreases bullets@.len() - filled,
    {
        taken.push(false);
        filled += 1;
    }
    assert(indices(pairs@) =~= matches(field_asteroids, field_bullets, 0));
    let mut asteroid_index: usize = 0;
    while asteroid_index < asteroids.len()
        invariant
            asteroid_index <= asteroids@.len(),
            field_asteroids == asteroid_states(asteroids@),
            field_bullets == bullet_states(bullets@),
            taken@.len() == bullets@.len(),
            indices(pairs@) == matches(field_asteroids, field_bullets, asteroid_index as nat),
            forall|j: int|
                0 <= j < bullets@.len() ==> (#[trigger] taken@[j]) == is_taken(
                    indices(pairs@),
                    j,
                ),
        decreases asteroids@.len() - asteroid_index,
    {
        let asteroid: Asteroid = asteroids[asteroid_index];
        let ghost earlier = indices(pairs@);
        let mut bullet_index: usize = 0;
        let mut found: bool = false;
        if asteroid.is_alive() {
            while bullet_index < bullets.len() && !found
                invariant
                    bullet_index <= bullets@.len(),
                    asteroid_index < asteroids@.len(),
                    asteroid == asteroids@[asteroid_index as int],
                    asteroid@.is_alive(),
                    field_asteroids == asteroid_states(asteroids@),
                    field_bullets == bullet_states(bullets@),
                    taken@.len() == bullets@.len(),
                    earlier == indices(pairs@),
                    forall|j: int|
                        0 <= j < bullets@.len() ==> (#[trigger] taken@[j]) == is_taken(earlier, j),
                    !found ==> first_hit(asteroid@, field_bullets, earlier, 0) == first_hit(
                        asteroid@,
                        field_bullets,
                        earlier,
                        bullet_index as int,
                    ),
                    found ==> bullet_index < bullets@.len() && first_hit(
                        asteroid@,
                        field_bullets,
                        earlier,
                        0,
                    ) == bullet_index,
                decreases bullets@.len() - bullet_index + (if found {
                        0int
                    } else {
                        1int
                    }),
            {
                let bullet: Bullet = bullets[bullet_index];
                assert(field_bullets[bullet_index as int] == bullet@);
                if !taken[bullet_index] && bullet.is_alive() && asteroid.is_point_inside(
                    bullet.position(),
                ) {
                    found = true;
                } else {
                    bullet_index += 1;
                }
            }
        } else {
            proof {
                lemma_no_hit(asteroid@, field_bullets, earlier, 0);
            }
        }
        assert(field_asteroids[asteroid_index as int] == asteroid@);
        if found {
            pairs.push((asteroid_index, bullet_index));
            taken.set(bullet_index, true);
            proof {
                let now = indices(pairs@);
                assert(now =~= earlier.push((asteroid_index as int, bullet_index as int)));
                assert forall|j: int| 0 <= j < bullets@.len() implies (#[trigger] taken@[j])
                    == is_taken(now, j) by {
                    if is_taken(earlier, j) {
                        let k = choose|k: int| 0 <= k < earlier.len() && (#[trigger] earlier[k]).1 == j;
                        assert(now[k].1 == j);
                    }
                    if j == bullet_index {
                        assert(now[earlier.len() as int].1 == j);
                    }
                    if is_taken(now, j) && j != bullet_index {
                        let k = choose|k: int| 0 <= k < now.len() && (#[trigger] now[k]).1 == j;
                        assert(earlier[k].1 == j);
                    }
                }
            }
        }
        asteroid_index += 1;
    }
    pairs
}

/// An asteroid that is not alive is struck by nothing.
proof fn lemma_no_hit(
    asteroid: AsteroidState,
    bullets: Seq<BulletState>,
    pairs: Seq<(int, int)>,
    from: int,
)
    requires
        !asteroid.is_alive(),
        0 <= from,
    ensures
        first_hit(asteroid, bullets, pairs, from) == bullets.len(),
    decreases bullets.len() - from,
{
    if from < bullets.len() {
        lemma_no_hit(asteroid, bullets, pairs, from + 1);
    }
}

/// Resolves `pairs` in order: marks the asteroid and the bullet of each
/// pair as struck and returns the children that the asteroids leave. The
/// children of the pair of index `k` leave at `speeds[k]`. A pair whose
/// asteroid or bullet is missing or no longer alive is passed over.
pub fn resolve(
    asteroids: &mut Vec<Asteroid>,
    bullets: &mut Vec<Bullet>,
    pairs: &Vec<(usize, usize)>,
    speeds: &Vec<i64>,
) -> (children: Vec<Asteroid>)
    ensures
        (Field {
            asteroids: asteroid_states(final(asteroids)@),
            bullets: bullet_states(final(bullets)@),
            children: asteroid_states(children@),
        }) == (Field {
            asteroids: asteroid_states(old(asteroids)@),
            bullets: bullet_states(old(bullets)@),
            children: Seq::empty(),
        }).resolved(indices(pairs@), speed_values(speeds@), pairs@.len()),
{
    let ghost start = Field {
        asteroids: asteroid_states(asteroids@),
        bullets: bullet_states(bullets@),
        children: Seq::empty(),
    };
    let mut children: Vec<Asteroid> = Vec::new();
    let mut k: usize = 0;
    assert(asteroid_states(children@) =~= Seq::empty());
    while k < pairs.len()
        invariant
            k <= pairs@.len(),
            (Field {
                asteroids: asteroid_states(asteroids@),
                bullets: bullet_states(bullets@),
                children: asteroid_states(children@),
            }) == start.resolved(indices(pairs@), speed_values(speeds@), k as nat),
        decreases pairs@.len() - k,
    {
        let ghost before = Field {
            asteroids: asteroid_states(asteroids@),
            bullets: bullet_states(bullets@),
            children: asteroid_states(children@),
        };
        let (asteroid_index, bullet_index): (usize, usize) = pairs[k];
        let speed: i64 = if k < speeds.len() {
            speeds[k]
        } else {
            Asteroid::MIN_SPEED
        };
        assert(indices(pairs@)[k as int] == (asteroid_index as int, bullet_index as int));
        assert(speed == speed_at(speed_values(speeds@), k as int));
        if asteroid_index < asteroids.len() && bullet_index < bullets.len() {
            let mut asteroid: Asteroid = asteroids[asteroid_index];
            let mut bullet: Bullet = bullets[bullet_index];
            assert(before.asteroids[asteroid_index as int] == asteroid@);
            assert(before.bullets[bullet_index as int] == bullet@);
            if asteroid.is_alive() && bullet.is_alive() {
                if asteroid.can_split() {
                    let new_children: [Asteroid; 2] = asteroid.split_at_speed(
                        bullet.velocity(),
                        speed,
                    );
                    children.push(new_children[0]);
                    children.push(new_children[1]);
                }
                asteroid.set_collided();
                bullet.set_collided();
                asteroids.set(asteroid_index, asteroid);
                bullets.set(bullet_index, bullet);
                proof {
                    let after = before.resolved_pair(
                        (asteroid_index as int, bullet_index as int),
                        speed as int,
                    );
                    assert(asteroid_states(asteroids@) =~= after.asteroids);
                    assert(bullet_states(bullets@) =~= after.bullets);
                    assert(asteroid_states(children@) =~= after.children);
                }
            }
        }
        k += 1;
    }
    children
}

/// Adds `children` to the asteroids, then removes every asteroid and
/// every bullet that is not alive. Those that stay keep their order.
pub fn merge_and_cull(
    asteroids: &mut Vec<Asteroid>,
    bullets: &mut Vec<Bullet>,
    children: Vec<Asteroid>,
)
    ensures
        (Field {
            asteroids: asteroid_states(final(asteroids)@),
            bullets: bullet_states(final(bullets)@),
            children: Seq::empty(),
        }) == (Field {
            asteroids: asteroid_states(old(asteroids)@),
            bullets: bullet_states(old(bullets)@),
            children: asteroid_states(children@),
        }).culled(),
        forall|i: int| 0 <= i < final(asteroids)@.len() ==> (#[trigger] final(asteroids)@[i])@.is_alive(),
        forall|i: int| 0 <= i < final(bullets)@.len() ==> (#[trigger] final(bullets)@[i])@.is_alive(),
{
    let ghost all = asteroid_states(asteroids@) + asteroid_states(children@);
    let ghost alive = |a: AsteroidState| a.is_alive();
    let mut kept: Vec<Asteroid> = Vec::new();
    let mut i: usize = 0;
    proof {
        reveal(Seq::filter);
        assert(all.take(0).filter(alive) =~= asteroid_states(kept@));
    }
    while i < asteroids.len()
        invariant
            i <= asteroids@.len(),
            all == asteroid_states(asteroids@) + asteroid_states(children@),
            alive == |a: AsteroidState| a.is_alive(),
            asteroid_states(kept@) == all.take(i as int).filter(alive),
            forall|n: int| 0 <= n < kept@.len() ==> (#[trigger] kept@[n])@.is_alive(),
        decreases asteroids@.len() - i,
    {
        let asteroid: Asteroid = asteroids[i];
        proof {
            reveal(Seq::filter);
            assert(all.take(i + 1).drop_last() =~= all.take(i as int));
            assert(all.take(i + 1).last() == asteroid@);
        }
        if asteroid.is_alive() {
            kept.push(asteroid);
            assert(asteroid_states(kept@) =~= all.take(i as int).filter(alive).push(asteroid@));
        }
        i += 1;
    }
    let mut c: usize = 0;
    while c < children.len()
        invariant
            c <= children@.len(),
            i == asteroids@.len(),
            all == asteroid_states(asteroids@) + asteroid_states(children@),
            alive == |a: AsteroidState| a.is_alive(),
            asteroid_states(kept@) == all.take(i + c).filter(alive),
            forall|n: int| 0 <= n < kept@.len() ==> (#[trigger] kept@[n])@.is_alive(),
        decreases children@.len() - c,
    {
        let asteroid: Asteroid = children[c];
        proof {
            reveal(Seq::filter);
            assert(all.take(i + c + 1).drop_last() =~= all.take(i + c));
            assert(all.take(i + c + 1).last() == asteroid@);
        }
        if asteroid.is_alive() {
            kept.push(asteroid);
            assert(asteroid_states(kept@) =~= all.take(i + c).filter(alive).push(asteroid@));
        }
        c += 1;
    }
    assert(all.take(i + c) =~= all);
    let ghost shots = bullet_states(bullets@);
    let ghost flying = |b: BulletState| b.is_alive();
    let mut kept_bullets: Vec<Bullet> = Vec::new();
    let mut b: usize = 0;
    proof {
        reveal(Seq::filter);
        assert(shots.take(0).filter(flying) =~= bullet_states(kept_bullets@));
    }
    while b < bullets.len()
        invariant
            b <= bullets@.len(),
            shots == bullet_states(bullets@),
            flying == |b: BulletState| b.is_alive(),
            bullet_states(kept_bullets@) == shots.take(b as int).filter(flying),
            forall|n: int| 0 <= n < kept_bullets@.len() ==> (#[trigger] kept_bullets@[n])@.is_alive(),
        decreases bullets@.len() - b,
    {
        let bullet: Bullet = bullets[b];
        proof {
            reveal(Seq::filter);
            assert(shots.take(b + 1).drop_last() =~= shots.take(b as int));
            assert(shots.take(b + 1).last() == bullet@);
        }
        if bullet.is_alive() {
            kept_bullets.push(bullet);
            assert(bullet_states(kept_bullets@) =~= shots.take(b as int).filter(flying).push(
                bullet@,
            ));
        }
        b += 1;
    }
    assert(shots.take(b as int) =~= shots);
    *asteroids = kept;
    *bullets = kept_bullets;
}

/// One collision pass at given speeds: finds the strikes, resolves them,
/// adds the children and removes what is not alive. Returns the strikes.
/// The children of the strike of index `k` leave at `speeds[k]`.
pub fn collision_pass_at_speeds(
    asteroids: &mut Vec<Asteroid>,
    bullets: &mut Vec<Bullet>,
    speeds: &Vec<i64>,
) -> (pairs: Vec<(usize, usize)>)
    ensures
        indices(pairs@) == (Field {
            asteroids: asteroid_states(old(asteroids)@),
            bullets: bullet_states(old(bullets)@),
            children: Seq::empty(),
        }).strikes(),
        (Field {
            asteroids: asteroid_states(final(asteroids)@),
            bullets: bullet_states(final(bullets)@),
            children: Seq::empty(),
        }) == (Field {
            asteroids: asteroid_states(old(asteroids)@),
            bullets: bullet_states(old(bullets)@),
            children: Seq::empty(),
        }).after_pass(speed_values(speeds@)),
{
    let pairs: Vec<(usize, usize)> = detect(asteroids, bullets);
    let children: Vec<Asteroid> = resolve(asteroids, bullets, &pairs, speeds);
    merge_and_cull(asteroids, bullets, children);
    pairs
}

/// One collision pass: finds the strikes, resolves them with a random
/// speed for the children of each, adds the children and removes what is
/// not alive. Returns the strikes.
pub fn collision_pass(asteroids: &mut Vec<Asteroid>, bullets: &mut Vec<Bullet>) -> (pairs: Vec<
    (usize, usize),
>)
    ensures
        indices(pairs@) == (Field {
            asteroids: asteroid_states(old(asteroids)@),
            bullets: bullet_states(old(bullets)@),
            children: Seq::empty(),
        }).strikes(),
        exists|speeds: Seq<int>|
            {
                &&& speeds.len() == pairs@.len()
                &&& forall|k: int|
                    0 <= k < speeds.len() ==> between(
                        #[trigger] speeds[k],
                        Asteroid::MIN_SPEED as int,
                        Asteroid::MAX_SPEED as int,
                    )
                &&& (Field {
                    asteroids: asteroid_states(final(asteroids)@),
                    bullets: bullet_states(final(bullets)@),
                    children: Seq::empty(),
                }) == #[trigger] (Field {
                    asteroids: asteroid_states(old(asteroids)@),
                    bullets: bullet_states(old(bullets)@),
                    children: Seq::empty(),
                }).after_pass(speeds)
            },
{
    let ghost start = Field {
        asteroids: asteroid_states(asteroids@),
        bullets: bullet_states(bullets@),
        children: Seq::empty(),
    };
    let pairs: Vec<(usize, usize)> = detect(asteroids, bullets);
    let mut speeds: Vec<i64> = Vec::new();
    let mut drawn: usize = 0;
    while drawn < pairs.len()
        invariant
            drawn <= pairs@.len(),
            speeds@.len() == drawn,
            forall|k: int|
                0 <= k < drawn ==> between(
                    (#[trigger] speeds@[k]) as int,
                    Asteroid::MIN_SPEED as int,
                    Asteroid::MAX_SPEED as int,
                ),
        decreases pairs@.len() - drawn,
    {
        speeds.push(random_in_range(Asteroid::MIN_SPEED, Asteroid::MAX_SPEED));
        drawn += 1;
    }
    let children: Vec<Asteroid> = resolve(asteroids, bullets, &pairs, &speeds);
    merge_and_cull(asteroids, bullets, children);
    proof {
        let chosen = speed_values(speeds@);
        assert(chosen.len() == pairs@.len());
        assert forall|k: int| 0 <= k < chosen.len() implies between(
            #[trigger] chosen[k],
            Asteroid::MIN_SPEED as int,
            Asteroid::MAX_SPEED as int,
        ) by {
            assert(chosen[k] == speeds@[k] as int);
        }
        assert((Field {
            asteroids: asteroid_states(asteroids@),
            bullets: bullet_states(bullets@),
            children: Seq::empty(),
        }) == start.after_pass(chosen));
    }
    pairs
}

/// Moves every asteroid and every bullet one frame on, on a screen of the
/// size `screen`.
pub fn step_all(asteroids: &mut Vec<Asteroid>, bullets: &mut Vec<Bullet>, screen: Vec2)
    ensures
        final(asteroids)@.len() == old(asteroids)@.len(),
        final(bullets)@.len() == old(bullets)@.len(),
        forall|i: int|
            0 <= i < old(asteroids)@.len() ==> (#[trigger] final(asteroids)@[i])@ == old(
                asteroids,
            )@[i]@.stepped(screen@),
        forall|i: int|
            0 <= i < old(bullets)@.len() ==> (#[trigger] final(bullets)@[i])@ == old(
                bullets,
            )@[i]@.stepped(screen@),
{
    let mut i: usize = 0;
    while i < asteroids.len()
        invariant
            i <= asteroids@.len(),
            asteroids@.len() == old(asteroids)@.len(),
            forall|n: int|
                0 <= n < i ==> (#[trigger] asteroids@[n])@ == old(asteroids)@[n]@.stepped(screen@),
            forall|n: int| i <= n < asteroids@.len() ==> #[trigger] asteroids@[n] == old(asteroids)@[n],
        decreases asteroids@.len() - i,
    {
        let mut asteroid: Asteroid = asteroids[i];
        asteroid.step(screen);
        asteroids.set(i, asteroid);
        i += 1;
    }
    let mut j: usize = 0;
    while j < bullets.len()
        invariant
            j <= bullets@.len(),
            bullets@.len() == old(bullets)@.len(),
            forall|n: int|
                0 <= n < j ==> (#[trigger] bullets@[n])@ == old(bullets)@[n]@.stepped(screen@),
            forall|n: int| j <= n < bullets@.len() ==> #[trigger] bullets@[n] == old(bullets)@[n],
        decreases bullets@.len() - j,
    {
        let mut bullet: Bullet = bullets[j];
        bullet.step(screen);
        bullets.set(j, bullet);
        j += 1;
    }
}

} // verus!
