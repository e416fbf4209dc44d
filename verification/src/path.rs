//! The graph generator: enumerates every unordered pair of point indices
//! drawn from `[1, n]` (self-pairs included), decides for each whether the
//! expression makes an edge, and assembles the edges, in canonical order,
//! into path data.
//!
//! The edge decision symmetrizes the relation: the expression is evaluated
//! with `(a, b)` bound in order, and when that yields a falsy value it is
//! retried once with the bindings swapped. An evaluation failure on either
//! attempt aborts the whole generation.

use vstd::prelude::*;

use crate::GraphError;
use crate::expr::{CompiledExpr, compile, eval_truthy, eval_of, parses, recompile};
use rayon::iter::IntoParallelRefIterator;
use rayon::iter::ParallelIterator;

verus! {

/// What the edge decision concluded for one candidate pair.
#[derive(Clone, Copy)]
pub enum PairOutcome {
    /// Some binding order evaluated truthy: the pair contributes an edge.
    Edge,
    /// Both binding orders evaluated to a defined, falsy value: no edge.
    NoEdge,
    /// An evaluation that the decision rule reached failed.
    Fail,
}

/// The edge decision rule for the pair `(a, b)`: evaluate with `a`, `b`
/// bound in order; a truthy result makes an edge; a falsy result is retried
/// once with the bindings swapped; a failed evaluation (in whichever of the
/// two attempts the rule reaches) fails the pair.
pub open spec fn pair_outcome(e: Seq<char>, a: int, b: int) -> PairOutcome {
    match eval_of(e, a, b) {
        Option::None => PairOutcome::Fail,
        Option::Some(t1) => if t1 {
            PairOutcome::Edge
        } else {
            match eval_of(e, b, a) {
                Option::None => PairOutcome::Fail,
                Option::Some(t2) => if t2 {
                    PairOutcome::Edge
                } else {
                    PairOutcome::NoEdge
                },
            }
        },
    }
}

/// The pair `(a, b)` contributes an edge.
pub open spec fn is_edge(e: Seq<char>, a: int, b: int) -> bool {
    pair_outcome(e, a, b) == PairOutcome::Edge
}

/// Deciding the pair `(a, b)` fails.
pub open spec fn is_fail(e: Seq<char>, a: int, b: int) -> bool {
    pair_outcome(e, a, b) == PairOutcome::Fail
}

/// Some candidate pair of `[1, n]` fails the edge decision, which aborts the
/// whole generation.
pub open spec fn has_fail(e: Seq<char>, n: u16) -> bool {
    exists|a: int, b: int| 1 <= a <= b <= n as int && #[trigger] is_fail(e, a, b)
}

/// Decide one pair. Evaluates `(a, b)`, and on a defined falsy result
/// retries with the bindings swapped.
pub fn check_pair(c: &CompiledExpr, a: u16, b: u16) -> (r: PairOutcome)
    ensures
        r == pair_outcome(c@, a as int, b as int),
{
    match eval_truthy(c, a, b) {
        Err(_) => PairOutcome::Fail,
        Ok(true) => PairOutcome::Edge,
        Ok(false) => match eval_truthy(c, b, a) {
            Err(_) => PairOutcome::Fail,
            Ok(true) => PairOutcome::Edge,
            Ok(false) => PairOutcome::NoEdge,
        },
    }
}

/// Relies on rayon's `par_iter().map_init(..).collect()`: an indexed
/// parallel iterator over a slice, mapped and collected into a `Vec`, yields
/// exactly one result per element, in the order of the input. Each worker
/// evaluates through its own compiled copy of the expression — fasteval's
/// evaluator writes a scratch buffer inside the slab on some namespace
/// lookups, so one slab must not be shared across workers; [`recompile`]'s
/// contract makes the copies mean the same. The map closure only projects
/// the pair's fields and calls the verified [`check_pair`], whose contract
/// gives each element of the result.
#[verifier::external_body]
fn check_pairs_parallel(c: &CompiledExpr, pairs: &Vec<(u16, u16)>) -> (r: Vec<PairOutcome>)
    ensures
        r@.len() == pairs@.len(),
        forall|i: int|
            0 <= i < pairs@.len() ==> r@[i] == pair_outcome(
                c@,
                pairs@[i].0 as int,
                pairs@[i].1 as int,
            ),
{
    pairs.par_iter().map_init(|| recompile(c), |lc, p| check_pair(lc, p.0, p.1)).collect()
}

/// The row of candidate pairs `(a, b), (a, b + 1), ..., (a, n)`.
pub open spec fn row_pairs(a: u16, b: int, n: u16) -> Seq<(u16, u16)>
    decreases n as int + 1 - b,
{
    if b < 1 || b > n as int {
        Seq::empty()
    } else {
        seq![(a, b as u16)] + row_pairs(a, b + 1, n)
    }
}

/// The rows of candidate pairs for first indices `a, a + 1, ..., n`.
pub open spec fn pairs_from(a: int, n: u16) -> Seq<(u16, u16)>
    decreases n as int + 1 - a,
{
    if a < 1 || a > n as int {
        Seq::empty()
    } else {
        row_pairs(a as u16, a as int, n) + pairs_from(a + 1, n)
    }
}

/// Every candidate pair `(a, b)` with `1 <= a <= b <= n`, in canonical order:
/// `a` ascending, and within a row `b` ascending.
pub open spec fn all_pairs(n: u16) -> Seq<(u16, u16)> {
    pairs_from(1, n)
}

/// What one candidate pair contributes to the graph: itself when it makes an
/// edge, nothing otherwise.
pub open spec fn edge_seg(e: Seq<char>, p: (u16, u16)) -> Seq<(u16, u16)> {
    if is_edge(e, p.0 as int, p.1 as int) {
        seq![p]
    } else {
        Seq::empty()
    }
}

/// The subsequence of `ps` whose pairs contribute an edge.
pub open spec fn edge_filter(e: Seq<char>, ps: Seq<(u16, u16)>) -> Seq<(u16, u16)>
    decreases ps.len(),
{
    if ps.len() == 0 {
        Seq::empty()
    } else {
        edge_seg(e, ps[0]) + edge_filter(e, ps.drop_first())
    }
}

/// The segments of the graph of expression `e` on `n` points: the candidate
/// pairs, in canonical order, that the edge decision keeps.
pub open spec fn graph_segs(e: Seq<char>, n: u16) -> Seq<(u16, u16)> {
    edge_filter(e, all_pairs(n))
}

/// A concatenation holds an element exactly when one of its parts does.
proof fn lemma_contains_concat<T>(s: Seq<T>, t: Seq<T>, x: T)
    ensures
        (s + t).contains(x) <==> s.contains(x) || t.contains(x),
{
    if (s + t).contains(x) {
        let i = choose|i: int| 0 <= i < (s + t).len() && (s + t)[i] == x;
        if i < s.len() {
            assert(s[i] == x);
        } else {
            assert(t[i - s.len()] == x);
        }
    }
    if s.contains(x) {
        let i = choose|i: int| 0 <= i < s.len() && s[i] == x;
        assert((s + t)[i] == x);
    }
    if t.contains(x) {
        let i = choose|i: int| 0 <= i < t.len() && t[i] == x;
        assert((s + t)[s.len() + i] == x);
    }
}

/// Appending a pair to the candidate list appends its contribution to the
/// filtered list.
proof fn lemma_edge_filter_push(e: Seq<char>, ps: Seq<(u16, u16)>, p: (u16, u16))
    ensures
        edge_filter(e, ps.push(p)) == edge_filter(e, ps) + edge_seg(e, p),
    decreases ps.len(),
{
    let q = ps.push(p);
    if ps.len() == 0 {
        assert(q[0] == p);
        assert(q.drop_first() =~= Seq::<(u16, u16)>::empty());
        assert(edge_filter(e, q) == edge_seg(e, p) + edge_filter(
            e,
            Seq::<(u16, u16)>::empty(),
        ));
        assert(edge_filter(e, q) =~= edge_filter(e, ps) + edge_seg(e, p));
    } else {
        assert(q[0] == ps[0]);
        assert(q.drop_first() =~= ps.drop_first().push(p));
        lemma_edge_filter_push(e, ps.drop_first(), p);
        assert(edge_filter(e, q) =~= edge_filter(e, ps) + edge_seg(e, p));
    }
}

/// The filtered list holds exactly the candidate pairs that make an edge.
proof fn lemma_edge_filter_contains(e: Seq<char>, ps: Seq<(u16, u16)>)
    ensures
        forall|p: (u16, u16)| #[trigger]
            edge_filter(e, ps).contains(p) <==> ps.contains(p) && is_edge(
                e,
                p.0 as int,
                p.1 as int,
            ),
    decreases ps.len(),
{
    if ps.len() > 0 {
        lemma_edge_filter_contains(e, ps.drop_first());
        assert forall|p: (u16, u16)| #[trigger]
            edge_filter(e, ps).contains(p) <==> ps.contains(p) && is_edge(
                e,
                p.0 as int,
                p.1 as int,
            ) by {
            lemma_contains_concat(edge_seg(e, ps[0]), edge_filter(e, ps.drop_first()), p);
            assert(ps =~= seq![ps[0]] + ps.drop_first());
            lemma_contains_concat(seq![ps[0]], ps.drop_first(), p);
            assert(seq![ps[0]][0] == ps[0]);
            if edge_seg(e, ps[0]).contains(p) {
                assert(edge_seg(e, ps[0])[0] == ps[0]);
            }
        }
    }
}

/// A row holds exactly the pairs `(a, y)` with `b0 <= y <= n`.
proof fn lemma_row_pairs_contains(a: u16, b0: int, n: u16)
    requires
        1 <= b0,
    ensures
        forall|p: (u16, u16)| #[trigger]
            row_pairs(a, b0, n).contains(p) <==> p.0 == a && b0 <= p.1 as int <= n as int,
    decreases n as int + 1 - b0,
{
    if b0 <= n as int {
        lemma_row_pairs_contains(a, b0 + 1, n);
        assert forall|p: (u16, u16)| #[trigger]
            row_pairs(a, b0, n).contains(p) <==> p.0 == a && b0 <= p.1 as int <= n as int by {
            lemma_contains_concat(seq![(a, b0 as u16)], row_pairs(a, b0 + 1, n), p);
            assert(seq![(a, b0 as u16)][0] == (a, b0 as u16));
        }
    }
}

/// The rows from `a0` on hold exactly the pairs `(x, y)` with
/// `a0 <= x <= y <= n`.
proof fn lemma_pairs_from_contains(a0: int, n: u16)
    requires
        1 <= a0,
    ensures
        forall|p: (u16, u16)| #[trigger]
            pairs_from(a0, n).contains(p) <==> a0 <= p.0 as int && p.0 as int <= p.1 as int
                <= n as int,
    decreases n as int + 1 - a0,
{
    if a0 <= n as int {
        lemma_pairs_from_contains(a0 + 1, n);
        lemma_row_pairs_contains(a0 as u16, a0, n);
        assert forall|p: (u16, u16)| #[trigger]
            pairs_from(a0, n).contains(p) <==> a0 <= p.0 as int && p.0 as int <= p.1 as int
                <= n as int by {
            lemma_contains_concat(row_pairs(a0 as u16, a0, n), pairs_from(a0 + 1, n), p);
        }
    }
}

/// The graph on `n` points holds the segment `(x, y)` exactly when the pair
/// is canonical, in range, and the edge decision keeps it.
pub proof fn lemma_graph_edges(e: Seq<char>, n: u16)
    ensures
        forall|x: u16, y: u16| #[trigger]
            graph_segs(e, n).contains((x, y)) <==> 1 <= x <= y <= n && is_edge(
                e,
                x as int,
                y as int,
            ),
{
    lemma_edge_filter_contains(e, all_pairs(n));
    lemma_pairs_from_contains(1, n);
}

/// A list of segments holds the edge between `a` and `b`, read undirected:
/// the segment may be stored in either orientation.
pub open spec fn edge_in(segs: Seq<(u16, u16)>, a: u16, b: u16) -> bool {
    segs.contains((a, b)) || segs.contains((b, a))
}

/// Edge symmetry: the generated graph includes the edge between `a` and `b`
/// exactly when it includes the edge between `b` and `a` — whatever the
/// expression, the rendered relation is undirected.
pub proof fn lemma_graph_edge_symmetric(e: Seq<char>, n: u16, a: u16, b: u16)
    ensures
        edge_in(graph_segs(e, n), a, b) == edge_in(graph_segs(e, n), b, a),
{
}

/// The symmetrized decision rule: when both binding orders evaluate to a
/// defined value, the edge decision for `(a, b)` and for `(b, a)` agree, so
/// an asymmetric expression still draws an undirected graph.
pub proof fn lemma_decision_symmetric(e: Seq<char>, a: int, b: int)
    requires
        eval_of(e, a, b) is Some,
        eval_of(e, b, a) is Some,
    ensures
        is_edge(e, a, b) == is_edge(e, b, a),
{
}

/// Determinism: the segments of a generated graph are a function of the
/// expression text and the point count alone, so two successful generations
/// from the same inputs yield the same path data.
pub proof fn lemma_graph_deterministic(
    e: Seq<char>,
    n: u16,
    d1: Seq<(u16, u16)>,
    d2: Seq<(u16, u16)>,
)
    requires
        d1 == graph_segs(e, n),
        d2 == graph_segs(e, n),
    ensures
        d1 == d2,
{
}

/// Self-pairs: the graph holds the zero-length segment `(a, a)` exactly when
/// the expression evaluates truthy with both variables bound to `a`.
pub proof fn lemma_self_edge(e: Seq<char>, n: u16, a: u16)
    requires
        1 <= a <= n,
    ensures
        graph_segs(e, n).contains((a, a)) <==> eval_of(e, a as int, a as int) == Some(true),
{
    lemma_graph_edges(e, n);
}

/// Self-pairs only: when the expression holds exactly on equal bindings, the
/// graph is exactly the `n` zero-length self-segments.
pub proof fn lemma_self_pairs_only(e: Seq<char>, n: u16)
    requires
        forall|a: int| 1 <= a <= n as int ==> #[trigger] eval_of(e, a, a) == Some(true),
        forall|a: int, b: int|
            1 <= a <= n as int && 1 <= b <= n as int && a != b ==> #[trigger] eval_of(e, a, b)
                == Some(false),
    ensures
        forall|x: u16, y: u16| #[trigger]
            graph_segs(e, n).contains((x, y)) <==> 1 <= x <= n && y == x,
{
    lemma_graph_edges(e, n);
}

/// A row of candidate pairs has one pair per second index.
proof fn lemma_row_pairs_len(a: u16, b0: int, n: u16)
    requires
        1 <= b0 <= n as int + 1,
    ensures
        row_pairs(a, b0, n).len() == n as int + 1 - b0,
    decreases n as int + 1 - b0,
{
    if b0 <= n as int {
        lemma_row_pairs_len(a, b0 + 1, n);
    }
}

/// The rows from `a0` on hold one pair per canonical pair of `[a0, n]`:
/// a triangular count.
proof fn lemma_pairs_from_len(a0: int, n: u16)
    requires
        1 <= a0 <= n as int + 1,
    ensures
        2 * pairs_from(a0, n).len() == (n as int + 1 - a0) * (n as int + 2 - a0),
    decreases n as int + 1 - a0,
{
    if a0 <= n as int {
        lemma_pairs_from_len(a0 + 1, n);
        lemma_row_pairs_len(a0 as u16, a0, n);
        let m = n as int + 1 - a0;
        assert(m * (m + 1) == 2 * m + (m - 1) * m) by (nonlinear_arith);
    }
}

/// A candidate list every pair of which makes an edge is kept whole.
proof fn lemma_edge_filter_all(e: Seq<char>, ps: Seq<(u16, u16)>)
    requires
        forall|p: (u16, u16)| #[trigger] ps.contains(p) ==> is_edge(e, p.0 as int, p.1 as int),
    ensures
        edge_filter(e, ps) == ps,
    decreases ps.len(),
{
    if ps.len() > 0 {
        assert(ps.contains(ps[0]));
        assert forall|p: (u16, u16)| #[trigger]
            ps.drop_first().contains(p) implies is_edge(e, p.0 as int, p.1 as int) by {
            let i = choose|i: int|
                0 <= i < ps.drop_first().len() && ps.drop_first()[i] == p;
            assert(ps[i + 1] == p);
            assert(ps.contains(p));
        }
        lemma_edge_filter_all(e, ps.drop_first());
        assert(edge_filter(e, ps) =~= ps);
    }
}

/// Constant truth: when every evaluation over `[1, n]` yields a truthy
/// value, the generated graph is complete — it keeps every candidate pair,
/// self-pairs included, `n * (n + 1) / 2` segments in all.
pub proof fn lemma_complete_graph(e: Seq<char>, n: u16)
    requires
        forall|a: int, b: int|
            1 <= a <= n as int && 1 <= b <= n as int ==> #[trigger] eval_of(e, a, b) == Some(
                true,
            ),
    ensures
        graph_segs(e, n) == all_pairs(n),
        graph_segs(e, n).len() == (n as int * (n as int + 1)) / 2,
{
    lemma_pairs_from_contains(1, n);
    assert forall|p: (u16, u16)| #[trigger]
        all_pairs(n).contains(p) implies is_edge(e, p.0 as int, p.1 as int) by {
        assert(eval_of(e, p.0 as int, p.1 as int) == Some(true));
    }
    lemma_edge_filter_all(e, all_pairs(n));
    lemma_pairs_from_len(1, n);
    assert(2 * all_pairs(n).len() == n as int * (n as int + 1));
}

/// The position of point `i` on the circle layout, as the numerator of its
/// turn fraction `i / n` reduced modulo a full turn: `n` points sit at equal
/// angular spacing, point `i` at `i / n` of a full turn. The coordinate a
/// renderer derives from it (radius 500, center (500, 500)) is a pure
/// function of this value and `n`.
pub open spec fn layout_turn(i: int, n: int) -> int {
    i % n
}

/// Periodicity of the circle layout: point `i + n` sits at the same angle as
/// point `i`; in particular point `n + 1` coincides with point 1.
pub proof fn lemma_layout_periodic(i: int, n: u16)
    requires
        1 <= n,
    ensures
        layout_turn(i + n as int, n as int) == layout_turn(i, n as int),
{
    vstd::arithmetic::div_mod::lemma_mod_multiples_vanish(1, i, n as int);
}

/// One drawing primitive of the output path, over point indices: the circle
/// coordinate of a point is a pure function of its index and the point
/// count, so a renderer recovers the geometry from the indices alone.
#[derive(PartialEq, Eq, Clone, Copy, Debug)]
pub enum PathCommand {
    /// Begin a segment at the given point.
    MoveTo(u16),
    /// Draw a line from the current point to the given point.
    LineTo(u16),
}

/// The drawing primitives of a list of segments: a move-to then a line-to
/// per segment, in segment order.
pub open spec fn segs_to_cmds(segs: Seq<(u16, u16)>) -> Seq<PathCommand>
    decreases segs.len(),
{
    if segs.len() == 0 {
        Seq::empty()
    } else {
        seq![PathCommand::MoveTo(segs[0].0), PathCommand::LineTo(segs[0].1)] + segs_to_cmds(
            segs.drop_first(),
        )
    }
}

/// Appending a segment appends its two drawing primitives.
proof fn lemma_segs_to_cmds_push(segs: Seq<(u16, u16)>, p: (u16, u16))
    ensures
        segs_to_cmds(segs.push(p)) == segs_to_cmds(segs) + seq![
            PathCommand::MoveTo(p.0),
            PathCommand::LineTo(p.1),
        ],
    decreases segs.len(),
{
    let q = segs.push(p);
    if segs.len() == 0 {
        assert(q[0] == p);
        assert(q.drop_first() =~= Seq::<(u16, u16)>::empty());
        assert(segs_to_cmds(q) == seq![PathCommand::MoveTo(p.0), PathCommand::LineTo(p.1)]
            + segs_to_cmds(Seq::<(u16, u16)>::empty()));
        assert(segs_to_cmds(q) =~= segs_to_cmds(segs) + seq![
            PathCommand::MoveTo(p.0),
            PathCommand::LineTo(p.1),
        ]);
    } else {
        assert(q[0] == segs[0]);
        assert(q.drop_first() =~= segs.drop_first().push(p));
        lemma_segs_to_cmds_push(segs.drop_first(), p);
        assert(segs_to_cmds(q) =~= segs_to_cmds(segs) + seq![
            PathCommand::MoveTo(p.0),
            PathCommand::LineTo(p.1),
        ]);
    }
}

/// The ordered list of line segments of one generated graph, each segment a
/// pair of point indices `(a, b)` with `a <= b`.
#[derive(Debug)]
pub struct PathData {
    /// The segments, in canonical order.
    pub segments: Vec<(u16, u16)>,
}

impl View for PathData {
    type V = Seq<(u16, u16)>;

    open spec fn view(&self) -> Seq<(u16, u16)> {
        self.segments@
    }
}

impl PathData {
    /// The path as drawing primitives: a move-to then a line-to per segment.
    pub fn commands(&self) -> (r: Vec<PathCommand>)
        ensures
            r@ == segs_to_cmds(self@),
    {
        let mut cmds: Vec<PathCommand> = Vec::new();
        let mut i: usize = 0;
        while i < self.segments.len()
            invariant
                i <= self.segments@.len(),
                cmds@ == segs_to_cmds(self.segments@.take(i as int)),
            decreases self.segments@.len() - i,
        {
            let s = self.segments[i];
            cmds.push(PathCommand::MoveTo(s.0));
            cmds.push(PathCommand::LineTo(s.1));
            proof {
                assert(self.segments@.take(i as int + 1) =~= self.segments@.take(i as int).push(
                    self.segments@[i as int],
                ));
                lemma_segs_to_cmds_push(self.segments@.take(i as int), self.segments@[i as int]);
                assert(cmds@ =~= segs_to_cmds(self.segments@.take(i as int + 1)));
            }
            i = i + 1;
        }
        proof {
            assert(self.segments@.take(self.segments@.len() as int) =~= self.segments@);
        }
        cmds
    }
}

/// Generate the graph of the compiled expression on `points` points.
///
/// Decides every candidate pair `(a, b)` with `1 <= a <= b <= points` in
/// parallel and returns the kept segments in canonical order. Fails with
/// [`GraphError::EvalError`] exactly when the edge decision fails on some
/// candidate pair; no partial graph is returned on failure.
pub fn generate(c: &CompiledExpr, points: u16) -> (r: Result<PathData, GraphError>)
    requires
        1 <= points,
    ensures
        r is Ok <==> !has_fail(c@, points),
        r matches Ok(d) ==> d@ == graph_segs(c@, points),
        has_fail(c@, points) ==> (r matches Err(ge) && ge is EvalError),
{
    let ghost e = c@;

    let np: u32 = points as u32;
    let mut pairs: Vec<(u16, u16)> = Vec::new();
    let mut a: u32 = 1;
    proof {
        assert(all_pairs(points) =~= pairs@ + pairs_from(1, points));
    }
    while a <= np
        invariant
            np == points as u32,
            1 <= points,
            1 <= a <= np + 1,
            all_pairs(points) == pairs@ + pairs_from(a as int, points),
        decreases np + 1 - a,
    {
        let mut b: u32 = a;
        proof {
            assert(all_pairs(points) =~= pairs@ + row_pairs(a as u16, a as int, points)
                + pairs_from(a as int + 1, points));
        }
        while b <= np
            invariant
                np == points as u32,
                1 <= a <= np,
                a <= b <= np + 1,
                all_pairs(points) == pairs@ + row_pairs(a as u16, b as int, points) + pairs_from(
                    a as int + 1,
                    points,
                ),
            decreases np + 1 - b,
        {
            pairs.push((a as u16, b as u16));
            proof {
                assert(all_pairs(points) =~= pairs@ + row_pairs(a as u16, b as int + 1, points)
                    + pairs_from(a as int + 1, points));
            }
            b = b + 1;
        }
        proof {
            assert(all_pairs(points) =~= pairs@ + pairs_from(a as int + 1, points));
        }
        a = a + 1;
    }
    proof {
        assert(pairs@ =~= all_pairs(points));
    }

    let outcomes = check_pairs_parallel(&c, &pairs);

    let mut segs: Vec<(u16, u16)> = Vec::new();
    let mut i: usize = 0;
    let plen: usize = pairs.len();
    while i < plen
        invariant
            1 <= points,
            c@ == e,
            pairs@ == all_pairs(points),
            plen == pairs@.len(),
            outcomes@.len() == pairs@.len(),
            forall|j: int|
                0 <= j < pairs@.len() ==> outcomes@[j] == pair_outcome(
                    e,
                    pairs@[j].0 as int,
                    pairs@[j].1 as int,
                ),
            i <= plen,
            segs@ == edge_filter(e, pairs@.take(i as int)),
            forall|j: int| 0 <= j < i ==> !is_fail(e, pairs@[j].0 as int, pairs@[j].1 as int),
        decreases plen - i,
    {
        let p = pairs[i];
        let oc = outcomes[i];
        match oc {
            PairOutcome::Edge => {
                segs.push(p);
            },
            PairOutcome::NoEdge => {},
            PairOutcome::Fail => {
                proof {
                    lemma_pairs_from_contains(1, points);
                    assert(pairs@.contains(pairs@[i as int]));
                    assert(is_fail(e, p.0 as int, p.1 as int));
                    assert(has_fail(e, points));
                }
                let m = match eval_truthy(&c, p.0, p.1) {
                    Err(m1) => m1,
                    Ok(_) => match eval_truthy(&c, p.1, p.0) {
                        Err(m2) => m2,
                        Ok(_) => {
                            proof {
                                assert(false);
                            }
                            String::new()
                        },
                    },
                };
                return Err(GraphError::EvalError(m));
            },
        }
        proof {
            assert(pairs@.take(i as int + 1) =~= pairs@.take(i as int).push(pairs@[i as int]));
            lemma_edge_filter_push(e, pairs@.take(i as int), pairs@[i as int]);
            assert(segs@ =~= edge_filter(e, pairs@.take(i as int + 1)));
        }
        i = i + 1;
    }
    proof {
        assert(pairs@.take(plen as int) =~= pairs@);
        if has_fail(e, points) {
            let (x, y) = choose|x: int, y: int| 1 <= x <= y <= points as int && #[trigger] is_fail(
                e,
                x,
                y,
            );
            lemma_pairs_from_contains(1, points);
            assert(all_pairs(points).contains(((x as u16), (y as u16))));
            let j = choose|j: int|
                0 <= j < pairs@.len() && pairs@[j] == ((x as u16), (y as u16));
            assert(!is_fail(e, pairs@[j].0 as int, pairs@[j].1 as int));
            assert(false);
        }
    }
    Ok(PathData { segments: segs })
}

/// Compute the graph of `expr` on `points` points.
///
/// Compiles the expression once, then hands it to [`generate`]. Fails with
/// [`GraphError::CompileError`] exactly when the text does not parse — the
/// generator is never invoked then — and with [`GraphError::EvalError`]
/// exactly when it parses but the edge decision fails on some candidate
/// pair.
pub fn graph(expr: String, points: u16) -> (r: Result<PathData, GraphError>)
    requires
        1 <= points,
    ensures
        r is Ok <==> parses(expr@) && !has_fail(expr@, points),
        r matches Ok(d) ==> d@ == graph_segs(expr@, points),
        !parses(expr@) ==> (r matches Err(ge) && ge is CompileError),
        parses(expr@) && has_fail(expr@, points) ==> (r matches Err(ge) && ge is EvalError),
{
    let c = match compile(expr) {
        Ok(c) => c,
        Err(m) => {
            return Err(GraphError::CompileError(m));
        },
    };
    generate(&c, points)
}

} // verus!
