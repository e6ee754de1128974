//! Levels: their termini, obstacles and star thresholds, and the stars a
//! score earns.

use vstd::prelude::*;
use crate::geom::Point;
use crate::save::BestScores;

verus! {

/// The number of levels of the game.
pub const NUM_LEVELS: u32 = 12;

/// The kind of a pixie: its color, and the net it belongs to.
#[derive(Clone, Copy, Debug, PartialEq, Eq, Structural, Hash)]
pub struct PixieFlavor {
    pub color: u32,
    pub net: u32,
}

impl Default for PixieFlavor {
    fn default() -> (f: Self)
        ensures
            f.color == 0,
            f.net == 0,
    {
        PixieFlavor { color: 0, net: 0 }
    }
}

/// A place where pixies enter (`emits`) or leave (`collects`) the field. Each
/// flavor is listed at most once in each list.
pub struct Terminus {
    pub point: Point,
    pub emits: Vec<PixieFlavor>,
    pub collects: Vec<PixieFlavor>,
}

impl Terminus {
    pub open spec fn wf(&self) -> bool {
        self.emits@.no_duplicates() && self.collects@.no_duplicates()
    }
}

/// Something roads cannot cross.
#[derive(Clone, Copy, Debug)]
pub enum Obstacle {
    /// A rectangle, by two opposite corners.
    Rect(Point, Point),
}

/// A level of the game.
pub struct Level {
    pub name: String,
    pub name_position: Point,
    pub layers: u32,
    pub terminuses: Vec<Terminus>,
    pub obstacles: Vec<Obstacle>,
    pub star_thresholds: Vec<u32>,
}

/// The four edges of a rectangular obstacle with corners `top_left` and
/// `bottom_right`, each edge starting where the one before it ends.
pub fn obstacle_edges(obstacle: Obstacle) -> (r: [(Point, Point); 4])
    ensures
        ({
            let Obstacle::Rect(tl, br) = obstacle;
            &&& r[0] == (Point { x: tl.x, y: tl.y }, Point { x: br.x, y: tl.y })
            &&& r[1] == (Point { x: br.x, y: tl.y }, Point { x: br.x, y: br.y })
            &&& r[2] == (Point { x: br.x, y: br.y }, Point { x: tl.x, y: br.y })
            &&& r[3] == (Point { x: tl.x, y: br.y }, Point { x: tl.x, y: tl.y })
        }),
{
    match obstacle {
        Obstacle::Rect(top_left, bottom_right) => [
            (Point { x: top_left.x, y: top_left.y }, Point { x: bottom_right.x, y: top_left.y }),
            (Point { x: bottom_right.x, y: top_left.y }, Point { x: bottom_right.x, y: bottom_right.y }),
            (Point { x: bottom_right.x, y: bottom_right.y }, Point { x: top_left.x, y: bottom_right.y }),
            (Point { x: top_left.x, y: bottom_right.y }, Point { x: top_left.x, y: top_left.y }),
        ],
    }
}

/// How many of the thresholds `score` reaches.
pub open spec fn stars_spec(thresholds: Seq<u32>, score: u32) -> nat
    decreases thresholds.len(),
{
    if thresholds.len() == 0 {
        0
    } else {
        stars_spec(thresholds.drop_last(), score) + if thresholds.last() <= score {
            1nat
        } else {
            0nat
        }
    }
}

proof fn lemma_stars_bound(thresholds: Seq<u32>, score: u32)
    ensures
        stars_spec(thresholds, score) <= thresholds.len(),
    decreases thresholds.len(),
{
    if thresholds.len() > 0 {
        lemma_stars_bound(thresholds.drop_last(), score);
    }
}

/// The stars a score earns on a level with the given thresholds: one for each
/// threshold it reaches.
pub fn stars_for(thresholds: &Vec<u32>, score: u32) -> (r: usize)
    ensures
        r == stars_spec(thresholds@, score),
        r <= thresholds@.len(),
{
    let mut n: usize = 0;
    let mut i: usize = 0;
    while i < thresholds.len()
        invariant
            i <= thresholds.len(),
            n == stars_spec(thresholds@.take(i as int), score),
            n <= i,
        decreases thresholds.len() - i,
    {
        assert(thresholds@.take(i + 1).drop_last() =~= thresholds@.take(i as int));
        if thresholds[i] <= score {
            n = n + 1;
        }
        i = i + 1;
    }
    assert(thresholds@.take(thresholds@.len() as int) =~= thresholds@);
    n
}

/// A better score earns at least as many stars.
pub proof fn lemma_stars_monotone(thresholds: Seq<u32>, s1: u32, s2: u32)
    requires
        s1 <= s2,
    ensures
        stars_spec(thresholds, s1) <= stars_spec(thresholds, s2),
    decreases thresholds.len(),
{
    if thresholds.len() > 0 {
        lemma_stars_monotone(thresholds.drop_last(), s1, s2);
    }
}

/// The stars earned on level `number` (from 1) and the stars it offers, when
/// its thresholds are known (`levels[number - 1]`).
pub open spec fn level_star_counts(
    levels: Seq<Option<Seq<u32>>>,
    best: Map<u32, u32>,
    number: int,
) -> (nat, nat) {
    if 1 <= number <= levels.len() && levels[number - 1] is Some {
        let t = levels[number - 1]->0;
        (
            if best.dom().contains(number as u32) {
                stars_spec(t, best[number as u32])
            } else {
                0
            },
            t.len(),
        )
    } else {
        (0, 0)
    }
}

/// The stars earned and offered over levels `1..=n`.
pub open spec fn star_totals(levels: Seq<Option<Seq<u32>>>, best: Map<u32, u32>, n: int) -> (nat, nat)
    decreases n,
{
    if n <= 0 {
        (0, 0)
    } else {
        let (e, t) = star_totals(levels, best, n - 1);
        let (e1, t1) = level_star_counts(levels, best, n);
        (e + e1, t + t1)
    }
}

/// The thresholds of a level, if it is loaded.
pub open spec fn thresholds_view(o: Option<Vec<u32>>) -> Option<Seq<u32>> {
    match o {
        Some(t) => Some(t@),
        None => None,
    }
}

/// Stars earned never outnumber stars offered, and neither total shrinks
/// as more levels are counted.
proof fn lemma_star_totals_bound(levels: Seq<Option<Seq<u32>>>, best: Map<u32, u32>, m: int, n: int)
    requires
        0 <= m <= n,
    ensures
        star_totals(levels, best, n).0 <= star_totals(levels, best, n).1,
        star_totals(levels, best, m).0 <= star_totals(levels, best, n).0,
        star_totals(levels, best, m).1 <= star_totals(levels, best, n).1,
    decreases n,
{
    if n > 0 {
        if m < n {
            lemma_star_totals_bound(levels, best, m, n - 1);
        } else {
            lemma_star_totals_bound(levels, best, n - 1, n - 1);
        }
        if 1 <= n <= levels.len() && levels[n - 1] is Some {
            let t = levels[n - 1]->0;
            if best.dom().contains(n as u32) {
                lemma_stars_bound(t, best[n as u32]);
            }
        }
    }
}

/// The stars earned over all levels and the stars on offer:
/// `levels[i]` holds the thresholds of level `i + 1` where it is loaded.
pub fn num_stars(best_scores: &BestScores, levels: &Vec<Option<Vec<u32>>>) -> (r: (usize, usize))
    requires
        star_totals(levels@.map_values(|o: Option<Vec<u32>>| thresholds_view(o)), best_scores@, NUM_LEVELS as int).1
            <= usize::MAX,
    ensures
        ({
            let views = levels@.map_values(|o: Option<Vec<u32>>| thresholds_view(o));
            (r.0 as nat, r.1 as nat) == star_totals(views, best_scores@, NUM_LEVELS as int)
        }),
        r.0 <= r.1,
{
    let ghost views = levels@.map_values(|o: Option<Vec<u32>>| thresholds_view(o));
    let mut earned: usize = 0;
    let mut total: usize = 0;
    let mut number: u32 = 1;
    while number <= NUM_LEVELS
        invariant
            1 <= number <= NUM_LEVELS + 1,
            views == levels@.map_values(|o: Option<Vec<u32>>| thresholds_view(o)),
            star_totals(views, best_scores@, NUM_LEVELS as int).1 <= usize::MAX,
            (earned as nat, total as nat) == star_totals(views, best_scores@, number - 1),
        decreases NUM_LEVELS + 1 - number,
    {
        proof {
            lemma_star_totals_bound(views, best_scores@, number as int, NUM_LEVELS as int);
        }
        let idx = (number - 1) as usize;
        if idx < levels.len() {
            match &levels[idx] {
                Some(thresholds) => {
                    assert(views[idx as int] == Some(thresholds@));
                    let stars = match best_scores.best(number) {
                        Some(score) => stars_for(thresholds, score),
                        None => 0,
                    };
                    earned = earned + stars;
                    total = total + thresholds.len();
                },
                None => {
                    assert(views[idx as int] is None);
                },
            }
        }
        number = number + 1;
    }
    proof {
        lemma_star_totals_bound(views, best_scores@, NUM_LEVELS as int, NUM_LEVELS as int);
    }
    (earned, total)
}

/// A request for a path: pixies of `flavor` go from terminus `from` to
/// terminus `to` (indices into the level's termini).
#[derive(Clone, Copy, Debug, PartialEq, Eq, Structural)]
pub struct PathRequest {
    pub flavor: PixieFlavor,
    pub from: usize,
    pub to: usize,
}

/// The requests for flavors in `emits` that `collects` takes, in the order of
/// `emits`.
pub open spec fn shared_flavors(emits: Seq<PixieFlavor>, collects: Seq<PixieFlavor>, from: int, to: int) -> Seq<PathRequest>
    decreases emits.len(),
{
    if emits.len() == 0 {
        Seq::empty()
    } else {
        shared_flavors(emits.drop_last(), collects, from, to) + if collects.contains(emits.last()) {
            seq![PathRequest { flavor: emits.last(), from: from as usize, to: to as usize }]
        } else {
            Seq::empty()
        }
    }
}

/// The requests from terminus `a` to the termini `0..b`.
pub open spec fn requests_from(ts: Seq<Terminus>, a: int, b: int) -> Seq<PathRequest>
    decreases b,
{
    if b <= 0 {
        Seq::empty()
    } else {
        requests_from(ts, a, b - 1) + shared_flavors(ts[a].emits@, ts[b - 1].collects@, a, b - 1)
    }
}

/// The requests from the termini `0..a` to every terminus.
pub open spec fn requests_upto(ts: Seq<Terminus>, a: int) -> Seq<PathRequest>
    decreases a,
{
    if a <= 0 {
        Seq::empty()
    } else {
        requests_upto(ts, a - 1) + requests_from(ts, a - 1, ts.len() as int)
    }
}

/// The paths a level asks for: for every pair of termini, one for each flavor
/// that the first emits and the second collects.
pub fn path_requests(terminuses: &Vec<Terminus>) -> (r: Vec<PathRequest>)
    ensures
        r@ == requests_upto(terminuses@, terminuses@.len() as int),
{
    let ghost ts = terminuses@;
    let mut r: Vec<PathRequest> = Vec::new();
    let mut a: usize = 0;
    while a < terminuses.len()
        invariant
            ts == terminuses@,
            a <= ts.len(),
            r@ == requests_upto(ts, a as int),
        decreases ts.len() - a,
    {
        let ghost before_a = r@;
        let mut b: usize = 0;
        while b < terminuses.len()
            invariant
                ts == terminuses@,
                a < ts.len(),
                b <= ts.len(),
                r@ == before_a + requests_from(ts, a as int, b as int),
            decreases ts.len() - b,
        {
            let ghost before_b = r@;
            let emits = &terminuses[a].emits;
            let collects = &terminuses[b].collects;
            let mut k: usize = 0;
            while k < emits.len()
                invariant
                    k <= emits.len(),
                    r@ == before_b + shared_flavors(emits@.take(k as int), collects@, a as int, b as int),
                decreases emits.len() - k,
            {
                assert(emits@.take(k + 1).drop_last() =~= emits@.take(k as int));
                let f = emits[k];
                let mut found = false;
                let mut m: usize = 0;
                while m < collects.len()
                    invariant
                        m <= collects.len(),
                        found == exists|q: int| 0 <= q < m && collects@[q] == f,
                    decreases collects.len() - m,
                {
                    if collects[m] == f {
                        found = true;
                    }
                    m = m + 1;
                }
                if found {
                    r.push(PathRequest { flavor: f, from: a, to: b });
                }
                proof {
                    if found {
                        let q = choose|q: int| 0 <= q < collects@.len() && collects@[q] == f;
                        assert(collects@.contains(f));
                    } else {
                        assert(!collects@.contains(f));
                    }
                    assert(r@ =~= before_b + shared_flavors(emits@.take(k + 1), collects@, a as int, b as int));
                }
                k = k + 1;
            }
            assert(emits@.take(emits@.len() as int) =~= emits@);
            assert(r@ =~= before_a + requests_from(ts, a as int, b + 1));
            b = b + 1;
        }
        assert(r@ =~= requests_upto(ts, a + 1));
        a = a + 1;
    }
    r
}


/// Whether the score dialog opens, and with what: it opens when the run
/// state or the score changed, the simulation is finished, no dialog is open,
/// the level is loaded (`thresholds`) and there is a score; it shows the
/// score, the stars it earned and the stars left of three.
pub fn score_dialog(
    changed: bool,
    finished: bool,
    dialog_open: bool,
    thresholds: &Option<Vec<u32>>,
    score: Option<u32>,
) -> (r: Option<(u32, usize, usize)>)
    requires
        changed && finished && !dialog_open && thresholds is Some && score is Some ==> stars_spec(
            thresholds->0@,
            score->0,
        ) <= 3,
    ensures
        r == (if changed && finished && !dialog_open && thresholds is Some && score is Some {
            let n = stars_spec(thresholds->0@, score->0);
            Some((score->0, n as usize, (3 - n) as usize))
        } else {
            None
        }),
{
    if !changed || !finished || dialog_open {
        return None;
    }
    match (thresholds, score) {
        (Some(t), Some(s)) => {
            let n = stars_for(t, s);
            Some((s, n, 3 - n))
        },
        _ => None,
    }
}


/// What the level select screen shows under level `number`: its best score,
/// the stars that score earned and the stars left of three; nothing when the
/// level has no best score.
pub fn level_item_stars(best_scores: &BestScores, number: u32, thresholds: &Vec<u32>) -> (r: Option<(u32, usize, usize)>)
    requires
        best_scores@.dom().contains(number) ==> stars_spec(thresholds@, best_scores@[number]) <= 3,
    ensures
        r == (if best_scores@.dom().contains(number) {
            let n = stars_spec(thresholds@, best_scores@[number]);
            Some((best_scores@[number], n as usize, (3 - n) as usize))
        } else {
            None
        }),
{
    match best_scores.best(number) {
        Some(score) => {
            let n = stars_for(thresholds, score);
            Some((score, n, 3 - n))
        },
        None => None,
    }
}

} // verus!
