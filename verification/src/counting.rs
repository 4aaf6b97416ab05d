use vstd::prelude::*;

verus! {

/// The whole-numbered points of the rectangle with the corner `(x, y)`, the
/// width `w` and the height `h`.
pub open spec fn grid_points(x: int, y: int, w: int, h: int) -> Set<(int, int)> {
    Set::new(|p: (int, int)| x <= p.0 < x + w && y <= p.1 < y + h)
}

/// A column of `h` points has `h` points.
proof fn lemma_column_points(x: int, y: int, h: nat)
    ensures
        grid_points(x, y, 1, h as int).finite(),
        grid_points(x, y, 1, h as int).len() == h,
    decreases h,
{
    if h == 0 {
        assert(grid_points(x, y, 1, 0) =~= Set::empty());
    } else {
        lemma_column_points(x, y, (h - 1) as nat);
        assert(grid_points(x, y, 1, h as int) =~= grid_points(x, y, 1, h - 1).insert(
            (x, y + h - 1),
        ));
    }
}

/// A rectangle of `w` by `h` points has `w * h` points.
pub proof fn lemma_grid_points(x: int, y: int, w: nat, h: nat)
    ensures
        grid_points(x, y, w as int, h as int).finite(),
        grid_points(x, y, w as int, h as int).len() == w * h,
    decreases w,
{
    if w == 0 {
        assert(grid_points(x, y, 0, h as int) =~= Set::empty());
        assert(0 * h == 0) by (nonlinear_arith);
    } else {
        let rest = grid_points(x, y, w - 1, h as int);
        let last = grid_points(x + w - 1, y, 1, h as int);
        lemma_grid_points(x, y, (w - 1) as nat, h);
        lemma_column_points(x + w - 1, y, h);
        assert(grid_points(x, y, w as int, h as int) =~= rest + last);
        assert(rest.disjoint(last));
        vstd::set_lib::lemma_set_disjoint_lens(rest, last);
        assert(w * h == (w - 1) * h + h) by (nonlinear_arith);
    }
}

/// The points around `centre` that are nearer to it than `reach` along both
/// axes.
pub open spec fn surroundings(centre: (i64, i64), reach: int) -> Set<(int, int)> {
    grid_points(centre.0 - reach + 1, centre.1 - reach + 1, 2 * reach - 1, 2 * reach - 1)
}

/// The surroundings of the first `count` centres taken together.
pub open spec fn all_surroundings(centres: Seq<(i64, i64)>, reach: int, count: nat) -> Set<
    (int, int),
>
    decreases count,
{
    if count == 0 {
        Set::empty()
    } else {
        all_surroundings(centres, reach, (count - 1) as nat) + surroundings(
            centres[count - 1],
            reach,
        )
    }
}

/// The surroundings of `count` centres hold no more than `count` times the
/// points of one.
pub proof fn lemma_all_surroundings(centres: Seq<(i64, i64)>, reach: int, count: nat)
    requires
        reach >= 1,
        count <= centres.len(),
    ensures
        all_surroundings(centres, reach, count).finite(),
        all_surroundings(centres, reach, count).len() <= count * ((2 * reach - 1) * (2 * reach
            - 1)),
        forall|j: int, p: (int, int)|
            0 <= j < count && #[trigger] surroundings(centres[j], reach).contains(p)
                ==> all_surroundings(centres, reach, count).contains(p),
    decreases count,
{
    let one = (2 * reach - 1) * (2 * reach - 1);
    if count == 0 {
        assert(0 * one == 0) by (nonlinear_arith);
    } else {
        let rest = all_surroundings(centres, reach, (count - 1) as nat);
        let last = surroundings(centres[count - 1], reach);
        lemma_all_surroundings(centres, reach, (count - 1) as nat);
        lemma_grid_points(
            centres[count - 1].0 - reach + 1,
            centres[count - 1].1 - reach + 1,
            (2 * reach - 1) as nat,
            (2 * reach - 1) as nat,
        );
        vstd::set_lib::lemma_len_union(rest, last);
        assert(count * one == (count - 1) * one + one) by (nonlinear_arith);
    }
}

} // verus!
