//! The population of balls and the per-tick pipeline: sort, integrate,
//! detect, resolve, clamp.
use vstd::prelude::*;
use crate::ball::Ball;
use crate::collision::{collide_balls, collided};
use crate::config::{Config, Gravity};

verus! {

/// Number of leading elements of `t` whose `y` is at least `y`.
pub open spec fn insert_pos(t: Seq<Ball>, y: int) -> nat
    decreases t.len(),
{
    if t.len() == 0 {
        0
    } else if t[0].y >= y {
        1 + insert_pos(t.drop_first(), y)
    } else {
        0
    }
}

/// `b` inserted into `t` after the leading run of balls at least as low as it.
pub open spec fn insert_desc(t: Seq<Ball>, b: Ball) -> Seq<Ball> {
    t.insert(insert_pos(t, b.y as int) as int, b)
}

/// `s` stably sorted by descending `y`: each ball in turn goes after every
/// earlier ball whose `y` is at least its own.
pub open spec fn sorted_by_y(s: Seq<Ball>) -> Seq<Ball>
    decreases s.len(),
{
    if s.len() == 0 {
        s
    } else {
        insert_desc(sorted_by_y(s.drop_last()), s.last())
    }
}

/// The balls of `s` after one step of motion.
pub open spec fn integrated_all(s: Seq<Ball>, cfg: Config) -> Seq<Ball> {
    s.map_values(|b: Ball| b.integrated(cfg))
}

/// `s` after resolving the contacts of `pairs` one after another.
pub open spec fn resolved(s: Seq<Ball>, pairs: Seq<(int, int)>, cfg: Config) -> Seq<Ball>
    decreases pairs.len(),
{
    if pairs.len() == 0 {
        s
    } else {
        let t = resolved(s, pairs.drop_last(), cfg);
        let p = pairs.last();
        let out = collided(cfg, t[p.0], t[p.1]);
        t.update(p.0, out.0).update(p.1, out.1)
    }
}

/// The balls of `s` after the wall response.
pub open spec fn bounded_all(s: Seq<Ball>, cfg: Config, g: Gravity) -> Seq<Ball> {
    s.map_values(|b: Ball| b.bounded(cfg, g))
}

/// The population after one tick: sort by descending `y`, integrate, detect
/// the touching pairs, resolve them in order, apply the wall response.
pub open spec fn ticked(s: Seq<Ball>, cfg: Config, g: Gravity) -> Seq<Ball> {
    let moved = integrated_all(sorted_by_y(s), cfg);
    bounded_all(resolved(moved, colliding_pairs(moved, cfg.collision_tolerance as int), cfg), cfg, g)
}

/// No ball is higher than a ball after it.
pub open spec fn descending_y(s: Seq<Ball>) -> bool {
    forall|i: int, j: int| 0 <= i < j < s.len() ==> s[i].y >= s[j].y
}

/// The balls before `insert_pos(t, y)` are at least as low as `y`, and the
/// ball there, if any, is higher.
proof fn lemma_insert_pos(t: Seq<Ball>, y: int)
    ensures
        insert_pos(t, y) <= t.len(),
        forall|i: int| 0 <= i < insert_pos(t, y) ==> t[i].y >= y,
        insert_pos(t, y) < t.len() ==> t[insert_pos(t, y) as int].y < y,
    decreases t.len(),
{
    if t.len() > 0 && t[0].y >= y {
        let rest = t.drop_first();
        lemma_insert_pos(rest, y);
        assert forall|i: int| 0 <= i < insert_pos(t, y) implies t[i].y >= y by {
            if i > 0 {
                assert(t[i] == rest[i - 1]);
            }
        }
        let k = insert_pos(t, y) as int;
        if k < t.len() {
            assert(t[k] == rest[k - 1]);
        }
    }
}

/// Sorting by height keeps every ball, and leaves no ball higher than a
/// ball after it.
pub proof fn lemma_sorted_by_y(s: Seq<Ball>)
    ensures
        sorted_by_y(s).len() == s.len(),
        sorted_by_y(s).to_multiset() == s.to_multiset(),
        descending_y(sorted_by_y(s)),
    decreases s.len(),
{
    if s.len() > 0 {
        let front = s.drop_last();
        let t = sorted_by_y(front);
        let b = s.last();
        lemma_sorted_by_y(front);
        lemma_insert_pos(t, b.y as int);
        let k = insert_pos(t, b.y as int) as int;
        let u = t.insert(k, b);
        assert forall|i: int, j: int| 0 <= i < j < u.len() implies u[i].y >= u[j].y by {
            if j < k {
                assert(u[i] == t[i] && u[j] == t[j]);
            } else if j == k {
                assert(u[i] == t[i]);
            } else if i < k {
                assert(u[i] == t[i] && u[j] == t[j - 1]);
            } else if i == k {
                assert(u[j] == t[j - 1]);
                assert(t[k].y >= t[j - 1].y);
            } else {
                assert(u[i] == t[i - 1] && u[j] == t[j - 1]);
            }
        }
        vstd::seq_lib::to_multiset_insert(t, k, b);
        assert(s =~= front.push(b));
        vstd::seq_lib::to_multiset_build(front, b);
    }
}

/// Indices `j` in `(i, end)`, ascending, whose ball touches ball `i`.
pub open spec fn partners(s: Seq<Ball>, i: int, end: int, tolerance: int) -> Seq<int>
    decreases end - i,
{
    if end <= i + 1 {
        seq![]
    } else if s[i].touches(s[end - 1], tolerance) {
        partners(s, i, end - 1, tolerance).push(end - 1)
    } else {
        partners(s, i, end - 1, tolerance)
    }
}

/// Indices `j` in `[0, end)` other than `i`, ascending, whose ball touches ball `i`.
pub open spec fn touching(s: Seq<Ball>, i: int, end: int, tolerance: int) -> Seq<int>
    decreases end,
{
    if end <= 0 {
        seq![]
    } else if end - 1 != i && s[i].touches(s[end - 1], tolerance) {
        touching(s, i, end - 1, tolerance).push(end - 1)
    } else {
        touching(s, i, end - 1, tolerance)
    }
}

/// Contact is symmetric.
pub proof fn lemma_touches_symmetric(a: Ball, b: Ball, tolerance: int)
    ensures
        a.touches(b, tolerance) == b.touches(a, tolerance),
{
    let dx = a.x - b.x;
    let dy = a.y - b.y;
    assert((-dx) * (-dx) + (-dy) * (-dy) == dx * dx + dy * dy) by (nonlinear_arith);
    assert(a.radius + b.radius == b.radius + a.radius);
}

proof fn lemma_touching_has(s: Seq<Ball>, i: int, end: int, tolerance: int, j: int)
    requires
        0 <= j,
    ensures
        touching(s, i, end, tolerance).contains(j) <==> (j < end && j != i && s[i].touches(
            s[j],
            tolerance,
        )),
    decreases end,
{
    if end > 0 {
        lemma_touching_has(s, i, end - 1, tolerance, j);
        let prev = touching(s, i, end - 1, tolerance);
        if end - 1 != i && s[i].touches(s[end - 1], tolerance) {
            assert(prev.push(end - 1).contains(j) <==> (prev.contains(j) || j == end - 1)) by {
                if prev.push(end - 1).contains(j) {
                    let k = choose|k: int| 0 <= k < prev.len() + 1 && #[trigger] prev.push(end - 1)[k] == j;
                    if k < prev.len() {
                        assert(prev[k] == j);
                    }
                }
                if prev.contains(j) {
                    let k = choose|k: int| 0 <= k < prev.len() && prev[k] == j;
                    assert(prev.push(end - 1)[k] == j);
                }
                if j == end - 1 {
                    assert(prev.push(end - 1)[prev.len() as int] == j);
                }
            }
        }
    }
}

proof fn lemma_partners_has(s: Seq<Ball>, i: int, end: int, tolerance: int, j: int)
    ensures
        partners(s, i, end, tolerance).contains(j) <==> (i < j < end && s[i].touches(s[j], tolerance)),
    decreases end - i,
{
    if end > i + 1 {
        lemma_partners_has(s, i, end - 1, tolerance, j);
        let prev = partners(s, i, end - 1, tolerance);
        if s[i].touches(s[end - 1], tolerance) {
            assert(prev.push(end - 1).contains(j) <==> (prev.contains(j) || j == end - 1)) by {
                if prev.push(end - 1).contains(j) {
                    let k = choose|k: int| 0 <= k < prev.len() + 1 && #[trigger] prev.push(end - 1)[k] == j;
                    if k < prev.len() {
                        assert(prev[k] == j);
                    }
                }
                if prev.contains(j) {
                    let k = choose|k: int| 0 <= k < prev.len() && prev[k] == j;
                    assert(prev.push(end - 1)[k] == j);
                }
                if j == end - 1 {
                    assert(prev.push(end - 1)[prev.len() as int] == j);
                }
            }
        }
    }
}

proof fn lemma_pairs_has(s: Seq<Ball>, rows: int, tolerance: int, i: int, j: int)
    ensures
        pairs_upto(s, rows, tolerance).contains((i, j)) <==> (0 <= i < rows && partners(
            s,
            i,
            s.len() as int,
            tolerance,
        ).contains(j)),
    decreases rows,
{
    if rows > 0 {
        lemma_pairs_has(s, rows - 1, tolerance, i, j);
        let prev = pairs_upto(s, rows - 1, tolerance);
        let row = partners(s, rows - 1, s.len() as int, tolerance);
        let tail = row.map_values(|q: int| (rows - 1, q));
        let all = prev + tail;
        assert(all =~= pairs_upto(s, rows, tolerance));
        if all.contains((i, j)) {
            let k = choose|k: int| 0 <= k < all.len() && all[k] == (i, j);
            if k < prev.len() {
                assert(prev[k] == (i, j));
            } else {
                assert(tail[k - prev.len()] == (i, j));
                assert(row[k - prev.len()] == j);
            }
        }
        if prev.contains((i, j)) {
            let k = choose|k: int| 0 <= k < prev.len() && prev[k] == (i, j);
            assert(all[k] == (i, j));
        }
        if i == rows - 1 && row.contains(j) {
            let k = choose|k: int| 0 <= k < row.len() && row[k] == j;
            assert(all[prev.len() + k] == (i, j));
        }
    }
}

/// The two diagnostic queries agree: for distinct indices `i` and `j` in
/// range, `j` is among the balls touching ball `i` exactly when the ordered
/// pair of the two is among the colliding pairs.
pub proof fn lemma_queries_agree(s: Seq<Ball>, tolerance: int, i: int, j: int)
    requires
        0 <= i < s.len(),
        0 <= j < s.len(),
        i != j,
    ensures
        touching(s, i, s.len() as int, tolerance).contains(j) <==> colliding_pairs(s, tolerance).contains(
            if i < j {
                (i, j)
            } else {
                (j, i)
            },
        ),
{
    lemma_touching_has(s, i, s.len() as int, tolerance, j);
    lemma_touches_symmetric(s[i], s[j], tolerance);
    if i < j {
        lemma_pairs_has(s, s.len() as int, tolerance, i, j);
        lemma_partners_has(s, i, s.len() as int, tolerance, j);
    } else {
        lemma_pairs_has(s, s.len() as int, tolerance, j, i);
        lemma_partners_has(s, j, s.len() as int, tolerance, i);
    }
}

/// The touching pairs `(i, j)`, `i < j`, with `i` below `rows`, in row order.
pub open spec fn pairs_upto(s: Seq<Ball>, rows: int, tolerance: int) -> Seq<(int, int)>
    decreases rows,
{
    if rows <= 0 {
        seq![]
    } else {
        pairs_upto(s, rows - 1, tolerance) + partners(s, rows - 1, s.len() as int, tolerance).map_values(
            |j: int| (rows - 1, j),
        )
    }
}

/// Every touching pair of `s`, in the order of the scan.
pub open spec fn colliding_pairs(s: Seq<Ball>, tolerance: int) -> Seq<(int, int)> {
    pairs_upto(s, s.len() as int, tolerance)
}

pub open spec fn as_ints(v: Seq<usize>) -> Seq<int> {
    v.map_values(|j: usize| j as int)
}

pub open spec fn pairs_as_ints(v: Seq<(usize, usize)>) -> Seq<(int, int)> {
    v.map_values(|p: (usize, usize)| (p.0 as int, p.1 as int))
}

/// The owned population of balls.
pub struct BallSet {
    pub balls: Vec<Ball>,
}

impl BallSet {
    /// Every ball is in its between-ticks limits.
    pub open spec fn is_valid(&self) -> bool {
        forall|k: int| 0 <= k < self.balls@.len() ==> (#[trigger] self.balls@[k]).in_limits()
    }

    /// Every ball is in its limits for the middle of a tick.
    pub open spec fn is_wide_valid(&self) -> bool {
        forall|k: int| 0 <= k < self.balls@.len() ==> (#[trigger] self.balls@[k]).in_wide_limits()
    }

    /// Population size used when none is given.
    pub open spec fn count_or_default(ball_count: Option<usize>) -> nat {
        match ball_count {
            Some(c) => c as nat,
            None => 5,
        }
    }

    /// `ball_count` balls (five when none is given), each drawn by `Ball::random`.
    pub fn new(cfg: &Config, ball_count: Option<usize>, rng: &mut rand::rngs::StdRng) -> (r: BallSet)
        requires
            cfg.can_spawn(),
        ensures
            r.balls@.len() == Self::count_or_default(ball_count),
            r.is_valid(),
            forall|k: int|
                0 <= k < r.balls@.len() ==> {
                    let b = #[trigger] r.balls@[k];
                    &&& b.inside(*cfg)
                    &&& 5 <= b.radius < cfg.max_radius
                    &&& -cfg.max_velocity < b.vx < cfg.max_velocity
                    &&& -cfg.max_velocity < b.vy < cfg.max_velocity
                },
    {
        let count: usize = match ball_count {
            Some(c) => c,
            None => 5,
        };
        let mut balls: Vec<Ball> = Vec::new();
        let mut i: usize = 0;
        while i < count
            invariant
                i <= count,
                balls@.len() == i,
                cfg.can_spawn(),
                forall|k: int|
                    0 <= k < i ==> {
                        let b = #[trigger] balls@[k];
                        &&& b.in_limits()
                        &&& b.inside(*cfg)
                        &&& 5 <= b.radius < cfg.max_radius
                        &&& -cfg.max_velocity < b.vx < cfg.max_velocity
                        &&& -cfg.max_velocity < b.vy < cfg.max_velocity
                    },
            decreases count - i,
        {
            balls.push(Ball::random(cfg, rng));
            i += 1;
        }
        BallSet { balls }
    }

    pub fn from_balls(balls: Vec<Ball>) -> (r: BallSet)
        ensures
            r.balls@ == balls@,
    {
        BallSet { balls }
    }

    pub fn balls(&self) -> (r: &[Ball])
        ensures
            r@ == self.balls@,
    {
        self.balls.as_slice()
    }

    /// Stably sorts the balls by descending `y`.
    pub fn sort_by_height(&mut self)
        requires
            old(self).is_valid(),
        ensures
            final(self).balls@ == sorted_by_y(old(self).balls@),
            final(self).balls@.len() == old(self).balls@.len(),
            final(self).balls@.to_multiset() == old(self).balls@.to_multiset(),
            descending_y(final(self).balls@),
            final(self).is_valid(),
    {
        let n = self.balls.len();
        let mut out: Vec<Ball> = Vec::new();
        let mut i: usize = 0;
        assert(self.balls@.take(0) =~= Seq::<Ball>::empty());
        while i < n
            invariant
                n == self.balls@.len(),
                i <= n,
                self.is_valid(),
                out@ == sorted_by_y(self.balls@.take(i as int)),
                forall|k: int| 0 <= k < out@.len() ==> (#[trigger] out@[k]).in_limits(),
            decreases n - i,
        {
            let b = self.balls[i];
            let mut k: usize = 0;
            assert(out@.skip(0) =~= out@);
            while k < out.len() && out[k].y >= b.y
                invariant
                    k <= out@.len(),
                    insert_pos(out@, b.y as int) == k + insert_pos(out@.skip(k as int), b.y as int),
                decreases out@.len() - k,
            {
                assert(out@.skip(k as int).drop_first() =~= out@.skip(k + 1));
                k += 1;
            }
            assert(insert_pos(out@.skip(k as int), b.y as int) == 0);
            assert(self.balls@.take(i + 1).drop_last() =~= self.balls@.take(i as int));
            out.insert(k, b);
            i += 1;
        }
        assert(self.balls@.take(n as int) =~= self.balls@);
        proof {
            lemma_sorted_by_y(self.balls@);
        }
        self.balls = out;
    }

    /// One tick of the simulation; see `ticked`. Every ball that fits the
    /// arena ends inside it.
    pub fn update_loop(&mut self, cfg: &Config, g: &Gravity)
        requires
            old(self).is_valid(),
            cfg.is_valid(),
            g.is_valid(),
        ensures
            final(self).balls@ == ticked(old(self).balls@, *cfg, *g),
            final(self).balls@.len() == old(self).balls@.len(),
            final(self).is_valid(),
            forall|k: int|
                0 <= k < final(self).balls@.len() ==> {
                    let b = #[trigger] final(self).balls@[k];
                    &&& 2 * b.radius <= cfg.width ==> b.radius <= b.x <= cfg.width - b.radius
                    &&& 2 * b.radius <= cfg.height ==> b.radius <= b.y <= cfg.height - b.radius
                },
    {
        self.sort_by_height();
        let ghost sorted = self.balls@;
        let n = self.balls.len();
        let mut i: usize = 0;
        while i < n
            invariant
                n == self.balls@.len(),
                n == sorted.len(),
                i <= n,
                cfg.is_valid(),
                forall|k: int| 0 <= k < n ==> (#[trigger] sorted[k]).in_limits(),
                forall|k: int|
                    0 <= k < i ==> #[trigger] self.balls@[k] == sorted[k].integrated(*cfg)
                        && self.balls@[k].within(2),
                forall|k: int| i <= k < n ==> #[trigger] self.balls@[k] == sorted[k],
            decreases n - i,
        {
            let mut b = self.balls[i];
            b.update(cfg);
            self.balls.set(i, b);
            i += 1;
        }
        assert(self.balls@ =~= integrated_all(sorted, *cfg));
        assert(self.is_wide_valid()) by {
            assert forall|k: int| 0 <= k < self.balls@.len() implies (#[trigger] self.balls@[k]).in_wide_limits() by {
                assert(self.balls@[k].within(2));
            }
        }
        let ghost moved = self.balls@;
        let pairs = self.find_colliding_balls(cfg);
        let mut p: usize = 0;
        assert(pairs_as_ints(pairs@).take(0) =~= Seq::<(int, int)>::empty());
        while p < pairs.len()
            invariant
                n == self.balls@.len(),
                p <= pairs@.len(),
                cfg.is_valid(),
                forall|q: int| 0 <= q < pairs@.len() ==> (#[trigger] pairs@[q]).0 < pairs@[q].1 < n,
                self.balls@ == resolved(moved, pairs_as_ints(pairs@).take(p as int), *cfg),
                self.is_wide_valid(),
            decreases pairs@.len() - p,
        {
            let (a, b) = pairs[p];
            collide_balls(&mut self.balls, a, b, cfg);
            assert(pairs_as_ints(pairs@).take(p + 1).drop_last() =~= pairs_as_ints(pairs@).take(p as int));
            p += 1;
        }
        assert(pairs_as_ints(pairs@).take(pairs@.len() as int) =~= pairs_as_ints(pairs@));
        let ghost hit = self.balls@;
        let mut i: usize = 0;
        while i < n
            invariant
                n == self.balls@.len(),
                n == hit.len(),
                i <= n,
                cfg.is_valid(),
                g.is_valid(),
                forall|k: int| 0 <= k < n ==> (#[trigger] hit[k]).in_wide_limits(),
                forall|k: int|
                    0 <= k < i ==> {
                        let b = #[trigger] self.balls@[k];
                        &&& b == hit[k].bounded(*cfg, *g)
                        &&& b.in_limits()
                        &&& 2 * b.radius <= cfg.width ==> b.radius <= b.x <= cfg.width - b.radius
                        &&& 2 * b.radius <= cfg.height ==> b.radius <= b.y <= cfg.height - b.radius
                    },
                forall|k: int| i <= k < n ==> #[trigger] self.balls@[k] == hit[k],
            decreases n - i,
        {
            let mut b = self.balls[i];
            b.check_bounds(cfg, g);
            self.balls.set(i, b);
            i += 1;
        }
        assert(self.balls@ =~= bounded_all(hit, *cfg, *g));
    }

    /// Every index, ascending, of a ball in contact with the ball at
    /// `search_index`; none when `search_index` is out of range.
    pub fn find_balls_colliding_with_ball(&self, search_index: usize, cfg: &Config) -> (r: Vec<usize>)
        requires
            self.is_wide_valid(),
            cfg.is_valid(),
        ensures
            search_index >= self.balls@.len() ==> r@.len() == 0,
            search_index < self.balls@.len() ==> as_ints(r@) == touching(
                self.balls@,
                search_index as int,
                self.balls@.len() as int,
                cfg.collision_tolerance as int,
            ),
    {
        let n = self.balls.len();
        let mut out: Vec<usize> = Vec::new();
        if search_index >= n {
            return out;
        }
        let mut j: usize = 0;
        while j < n
            invariant
                n == self.balls@.len(),
                search_index < n,
                j <= n,
                self.is_wide_valid(),
                cfg.is_valid(),
                as_ints(out@) == touching(self.balls@, search_index as int, j as int, cfg.collision_tolerance as int),
            decreases n - j,
        {
            let ghost before = out@;
            if j != search_index && self.balls[search_index].check_collision(&self.balls[j], cfg) {
                out.push(j);
                assert(as_ints(out@) =~= as_ints(before).push(j as int));
            }
            j += 1;
        }
        out
    }

    /// Indices after `search_index`, ascending, of the balls in contact with it.
    fn partners_after(&self, search_index: usize, cfg: &Config) -> (r: Vec<usize>)
        requires
            search_index < self.balls@.len(),
            self.is_wide_valid(),
            cfg.is_valid(),
        ensures
            as_ints(r@) == partners(self.balls@, search_index as int, self.balls@.len() as int, cfg.collision_tolerance as int),
            forall|k: int| 0 <= k < r@.len() ==> search_index < #[trigger] r@[k] < self.balls@.len(),
    {
        let n = self.balls.len();
        let mut out: Vec<usize> = Vec::new();
        let mut j: usize = search_index + 1;
        while j < n
            invariant
                n == self.balls@.len(),
                search_index < j <= n,
                self.is_wide_valid(),
                cfg.is_valid(),
                as_ints(out@) == partners(self.balls@, search_index as int, j as int, cfg.collision_tolerance as int),
                forall|k: int| 0 <= k < out@.len() ==> search_index < #[trigger] out@[k] < j,
            decreases n - j,
        {
            let ghost before = out@;
            if self.balls[search_index].check_collision(&self.balls[j], cfg) {
                out.push(j);
                assert(as_ints(out@) =~= as_ints(before).push(j as int));
            }
            j += 1;
        }
        out
    }

    /// Every pair of balls in contact, as index pairs `(i, j)` with `i < j`,
    /// ordered by `i`, then by `j`.
    pub fn find_colliding_balls(&self, cfg: &Config) -> (r: Vec<(usize, usize)>)
        requires
            self.is_wide_valid(),
            cfg.is_valid(),
        ensures
            pairs_as_ints(r@) == colliding_pairs(self.balls@, cfg.collision_tolerance as int),
            forall|k: int| 0 <= k < r@.len() ==> (#[trigger] r@[k]).0 < r@[k].1 < self.balls@.len(),
    {
        let n = self.balls.len();
        let ghost tol = cfg.collision_tolerance as int;
        let mut out: Vec<(usize, usize)> = Vec::new();
        let mut i: usize = 0;
        while i < n
            invariant
                n == self.balls@.len(),
                i <= n,
                self.is_wide_valid(),
                cfg.is_valid(),
                tol == cfg.collision_tolerance,
                pairs_as_ints(out@) == pairs_upto(self.balls@, i as int, tol),
                forall|k: int| 0 <= k < out@.len() ==> (#[trigger] out@[k]).0 < out@[k].1 < n,
            decreases n - i,
        {
            let found = self.partners_after(i, cfg);
            let ghost row = partners(self.balls@, i as int, n as int, tol);
            let ghost start = out@;
            let mut k: usize = 0;
            while k < found.len()
                invariant
                    n == self.balls@.len(),
                    i < n,
                    k <= found@.len(),
                    as_ints(found@) == row,
                    forall|q: int| 0 <= q < found@.len() ==> i < #[trigger] found@[q] < n,
                    pairs_as_ints(out@) == pairs_as_ints(start) + row.take(k as int).map_values(
                        |j: int| (i as int, j),
                    ),
                    forall|q: int| 0 <= q < out@.len() ==> (#[trigger] out@[q]).0 < out@[q].1 < n,
                decreases found@.len() - k,
            {
                let ghost before = out@;
                out.push((i, found[k]));
                assert(row.take(k + 1) =~= row.take(k as int).push(row[k as int]));
                assert(pairs_as_ints(out@) =~= pairs_as_ints(before).push((i as int, found@[k as int] as int)));
                assert(row.take(k + 1).map_values(|j: int| (i as int, j)) =~= row.take(k as int).map_values(
                    |j: int| (i as int, j),
                ).push((i as int, row[k as int])));
                k += 1;
            }
            assert(row.take(found@.len() as int) =~= row);
            i += 1;
        }
        out
    }
}

} // verus!
