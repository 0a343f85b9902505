//! Facts about the path finder's priority order `g + sqrt(d)`.
use vstd::prelude::*;

use crate::game::pathfinding::sqrt_sum_less;

verus! {

/// `g1 + sqrt(d1) < g2 + sqrt(d2)` over the reals, in the squared form of
/// [`sqrt_sum_less`].
spec fn sqrt_sum_less_real(g1: real, d1: real, g2: real, d2: real) -> bool {
    let c = g2 - g1;
    if c >= 0 as real {
        let m = d1 - d2 - c * c;
        m < 0 as real || m * m < (4 as real) * c * c * d2
    } else {
        let e = -c;
        let n = d2 - e * e - d1;
        n > 0 as real && n * n > (4 as real) * e * e * d1
    }
}

proof fn lemma_sqrt_sum_less_real_transitive(
    g1: real,
    d1: real,
    g2: real,
    d2: real,
    g3: real,
    d3: real,
)
    by (nonlinear_arith)
    requires
        d1 >= 0 as real,
        d2 >= 0 as real,
        d3 >= 0 as real,
        sqrt_sum_less_real(g1, d1, g2, d2),
        sqrt_sum_less_real(g2, d2, g3, d3),
    ensures
        sqrt_sum_less_real(g1, d1, g3, d3),
{
}

proof fn lemma_sqrt_sum_less_as_real(g1: int, d1: int, g2: int, d2: int)
    by (nonlinear_arith)
    ensures
        sqrt_sum_less(g1, d1, g2, d2) == sqrt_sum_less_real(
            g1 as real,
            d1 as real,
            g2 as real,
            d2 as real,
        ),
{
}

/// No node has a smaller priority than itself.
pub proof fn lemma_sqrt_sum_less_irreflexive(g: int, d: int)
    by (nonlinear_arith)
    ensures
        !sqrt_sum_less(g, d, g, d),
{
}

/// The priority order is transitive.
pub proof fn lemma_sqrt_sum_less_transitive(g1: int, d1: int, g2: int, d2: int, g3: int, d3: int)
    requires
        d1 >= 0,
        d2 >= 0,
        d3 >= 0,
        sqrt_sum_less(g1, d1, g2, d2),
        sqrt_sum_less(g2, d2, g3, d3),
    ensures
        sqrt_sum_less(g1, d1, g3, d3),
{
    lemma_sqrt_sum_less_as_real(g1, d1, g2, d2);
    lemma_sqrt_sum_less_as_real(g2, d2, g3, d3);
    lemma_sqrt_sum_less_as_real(g1, d1, g3, d3);
    lemma_sqrt_sum_less_real_transitive(
        g1 as real,
        d1 as real,
        g2 as real,
        d2 as real,
        g3 as real,
        d3 as real,
    );
}

/// `g + sqrt(d) <= l` over the reals, squared.
spec fn within_real(g: real, d: real, l: real) -> bool {
    g <= l && d <= (l - g) * (l - g)
}

proof fn lemma_within_real(gk: real, dk: real, gm: real, dm: real, l: real)
    by (nonlinear_arith)
    requires
        dk >= 0 as real,
        dm >= 0 as real,
        !sqrt_sum_less_real(gm, dm, gk, dk),
        within_real(gm, dm, l),
    ensures
        within_real(gk, dk, l),
{
}

/// A node no cheaper than one that reaches the goal within `l` steps
/// (`g + sqrt(d) <= l`) also has `g + sqrt(d) <= l`.
pub proof fn lemma_within_order(gk: int, dk: int, gm: int, dm: int, l: int)
    requires
        dk >= 0,
        dm >= 0,
        !sqrt_sum_less(gm, dm, gk, dk),
        gm <= l && dm <= (l - gm) * (l - gm),
    ensures
        gk <= l && dk <= (l - gk) * (l - gk),
{
    lemma_sqrt_sum_less_as_real(gm, dm, gk, dk);
    assert(((l - gm) as real) * ((l - gm) as real) == ((l - gm) * (l - gm)) as real) by (nonlinear_arith);
    assert(((l - gk) as real) * ((l - gk) as real) == ((l - gk) * (l - gk)) as real) by (nonlinear_arith);
    lemma_within_real(gk as real, dk as real, gm as real, dm as real, l as real);
}

} // verus!
