//! Places that are masked have no influence.
//!
//! A mask adds the least number to the scores of a place. Where the exponential of what that gives
//! is zero, what attention gives elsewhere does not depend on what the place holds.

use vstd::prelude::*;

use crate::config::VitsConfig;
use crate::model::attention;
use crate::model::attention::VitsAttention;
use crate::model::inverse;
use crate::model::no_mask;
use crate::model::numbers;
use crate::model::numbers::{
    element, exponentials, is_stack, masks, products, row_products, splits, within, Numbers,
};
use crate::model::positions;
use crate::model::spline_laws;
use crate::nn::{Linear, ScopeView};
use crate::tensor::index;
use crate::tensor::scalar::Scalar;
use crate::tensor::shape::Shape;
use crate::tensor::term;
use crate::tensor::term::Term;

verus! {

broadcast use crate::tensor::term::strictness;

/// Whether the exponential is never negative, is positive for numbers up to a bound, and is zero
/// once the least number has been added to such a number.
pub open spec fn fades(e: spec_fn(real) -> real, least: real, bound: real) -> bool {
    &&& forall|s: real| #[trigger] e(s) >= 0real
    &&& forall|s: real| -bound <= s <= bound ==> #[trigger] e(s) > 0real
    &&& forall|s: real| -bound <= s - least <= bound ==> #[trigger] e(s) == 0real
}

/// There is such an exponential, where the least number is beyond the bound.
pub proof fn lemma_fades(least: real, bound: real)
    requires
        bound >= 0real,
        least < -2real * bound,
    ensures
        fades(
            |s: real|
                if s < -bound {
                    0real
                } else {
                    1real
                },
            least,
            bound,
        ),
{
}

/// Whether the mask adds the least number to all scores of a place.
pub open spec fn hidden(mask: spec_fn(int) -> real, least: real, len: int, b: int, j: int) -> bool {
    forall|r: int| 0 <= r < len ==> #[trigger] element(mask, len, len, b, r, j) == least
}

/// Whether for every place of every sequence there is one to whose score the mask adds nothing.
pub open spec fn always_counts(mask: spec_fn(int) -> real, batch: int, len: int) -> bool {
    forall|b: int, r: int|
        0 <= b < batch && 0 <= r < len ==> #[trigger] some_counts(mask, len, b, r)
}

/// Whether for a place of a sequence there is one to whose score the mask adds nothing.
pub open spec fn some_counts(mask: spec_fn(int) -> real, len: int, b: int, r: int) -> bool {
    exists|j: int| 0 <= j < len && #[trigger] element(mask, len, len, b, r, j) == 0real
}

/// Whether two stacks, one matrix for every head of every sequence, hold the same in all rows but
/// those that may have changed.
pub open spec fn same_rows(
    v: spec_fn(int) -> real,
    w: spec_fn(int) -> real,
    stack: int,
    rows: int,
    columns: int,
    heads: int,
    changed: spec_fn(int, int) -> bool,
) -> bool {
    forall|s: int, r: int, j: int|
        within(stack, rows, columns, s, r, j) && !changed(s / heads, r) ==> #[trigger] element(
            v,
            rows,
            columns,
            s,
            r,
            j,
        ) == element(w, rows, columns, s, r, j)
}

/// Whether none of so many elements is beyond a bound.
pub open spec fn bounded(v: spec_fn(int) -> real, count: int, bound: real) -> bool {
    forall|p: int| 0 <= p < count ==> -bound <= #[trigger] v(p) <= bound
}

/// Where an element lies.
proof fn lemma_where(stack: int, rows: int, columns: int, s: int, r: int, j: int)
    requires
        within(stack, rows, columns, s, r, j),
    ensures
        0 <= positions::at3(rows, columns, s, r, j) < stack * rows * columns,
{
    let q = s * rows + r;
    assert(0 <= q < stack * rows) by (nonlinear_arith)
        requires
            q == s * rows + r,
            0 <= s < stack,
            0 <= r < rows,
    ;
    let n = stack * rows;
    assert(0 <= q * columns + j < n * columns) by (nonlinear_arith)
        requires
            0 <= q < n,
            0 <= j < columns,
    ;
}

/// A sum with a positive element and no negative one is positive.
proof fn lemma_sum_positive(s: Seq<real>, j: int)
    requires
        0 <= j < s.len(),
        s[j] > 0real,
        forall|k: int| 0 <= k < s.len() ==> #[trigger] s[k] >= 0real,
    ensures
        spline_laws::sum(s) > 0real,
    decreases s.len(),
{
    let front = s.drop_last();
    assert forall|k: int| 0 <= k < front.len() implies #[trigger] front[k] >= 0real by {
        assert(front[k] == s[k]);
    }
    if j < front.len() {
        assert(front[j] == s[j]);
        lemma_sum_positive(front, j);
    } else {
        lemma_sum_not_negative(front);
    }
}

proof fn lemma_sum_not_negative(s: Seq<real>)
    requires
        forall|k: int| 0 <= k < s.len() ==> #[trigger] s[k] >= 0real,
    ensures
        spline_laws::sum(s) >= 0real,
    decreases s.len(),
{
    if s.len() > 0 {
        let front = s.drop_last();
        assert forall|k: int| 0 <= k < front.len() implies #[trigger] front[k] >= 0real by {
            assert(front[k] == s[k]);
        }
        lemma_sum_not_negative(front);
    }
}

/// Sums of products of rows that are the same are the same.
proof fn lemma_linear_rows(
    i: Numbers,
    layer: Linear,
    vb: ScopeView,
    outer: usize,
    bias: bool,
    a: Term,
    b: Term,
    batch: int,
    len: int,
    inner: usize,
    changed: spec_fn(int, int) -> bool,
)
    requires
        layer.loaded(vb, inner, outer, bias),
        is_stack(a, batch, len, inner as int),
        term::typ(b) == term::typ(a),
        term::typ(layer.output(a)) is Some,
        same_rows(i.values(a), i.values(b), batch, len, inner as int, 1, changed),
    ensures
        is_stack(layer.output(a), batch, len, outer as int),
        term::typ(layer.output(b)) == term::typ(layer.output(a)),
        same_rows(
            i.values(layer.output(a)),
            i.values(layer.output(b)),
            batch,
            len,
            outer as int,
            1,
            changed,
        ),
{
    let w = layer.weight@;
    let (n, c) = (inner as int, outer as int);
    let (p, q) = (a.linear(w), b.linear(w));
    assert(term::typ(p) is Some && term::typ(w) is Some);
    assert(w.shape() == Shape::S2(outer, inner) && is_stack(p, batch, len, c) && term::typ(q)
        == term::typ(p)) by {
        broadcast use crate::tensor::term::typing_rules;

    }
    assert(term::typ(layer.output(a)) == term::typ(p) && term::typ(layer.output(b)) == term::typ(p)
        && (layer.bias matches Some(t) ==> t@.shape() == Shape::S1(outer))) by {
        broadcast use crate::tensor::term::typing_rules;

    }
    assert forall|s: int, r: int, j: int|
        within(batch, len, c, s, r, j) && !changed(s / 1, r) implies #[trigger] element(
        i.values(layer.output(a)),
        len,
        c,
        s,
        r,
        j,
    ) == element(i.values(layer.output(b)), len, c, s, r, j) by {
        let (f, g) = (
            row_products(i.values(a), i.values(w), len, n, s, r, j),
            row_products(i.values(b), i.values(w), len, n, s, r, j),
        );
        assert forall|k: int| 0 <= k < n implies f[k] == g[k] by {
            assert(within(batch, len, n, s, r, k));
            assert(element(i.values(a), len, n, s, r, k) == element(i.values(b), len, n, s, r, k));
        }
        assert(f =~= g);
        assert(is_stack(b, batch, len, n));
        numbers::lemma_linear(i, a, w, batch, len, n, c, s, r, j);
        numbers::lemma_linear(i, b, w, batch, len, n, c, s, r, j);
        match layer.bias {
            Some(t) => {
                numbers::lemma_bias(i, p, t@, batch, len, c, s, r, j);
                numbers::lemma_bias(i, q, t@, batch, len, c, s, r, j);
            },
            None => {},
        }
    }
}

/// Where an element of a row of heads lies.
pub(crate) proof fn lemma_head_place(len: int, heads: int, dim: int, b: int, r: int, h: int, d: int)
    ensures
        positions::at3(heads, dim, b * len + r, h, d) == positions::at3(
            len,
            heads * dim,
            b,
            r,
            h * dim + d,
        ),
{
    let q = b * len + r;
    assert((q * heads + h) * dim == q * (heads * dim) + h * dim) by (nonlinear_arith);
}

/// A part of a whole that is less than the whole.
pub(crate) proof fn lemma_part(heads: int, dim: int, h: int, d: int)
    requires
        0 <= h < heads,
        0 <= d < dim,
    ensures
        0 <= h * dim + d < heads * dim,
{
    assert(0 <= h * dim + d < heads * dim) by (nonlinear_arith)
        requires
            0 <= h < heads,
            0 <= d < dim,
    ;
}

/// The head and the sequence that a matrix of a stack belongs to.
pub(crate) proof fn lemma_head(batch: int, heads: int, s: int)
    requires
        0 <= s < batch * heads,
        heads >= 0,
    ensures
        0 <= s / heads < batch,
        0 <= s % heads < heads,
        (s / heads) * heads + s % heads == s,
{
    assert(heads > 0) by (nonlinear_arith)
        requires
            0 < batch * heads,
            heads >= 0,
    ;
    vstd::arithmetic::div_mod::lemma_fundamental_div_mod(s, heads);
    let b = s / heads;
    assert(b * heads == heads * b) by (nonlinear_arith);
    assert(0 <= b < batch) by (nonlinear_arith)
        requires
            0 <= b * heads + s % heads < batch * heads,
            0 <= s % heads < heads,
    ;
}

/// Sorted by head, rows that are the same stay the same.
proof fn lemma_heads_rows(
    i: Numbers,
    m: VitsAttention,
    a: Term,
    b: Term,
    bsz: usize,
    len: usize,
    columns: int,
    stack: usize,
    changed: spec_fn(int, int) -> bool,
)
    requires
        stack == bsz * m.num_heads,
        columns == m.num_heads * m.head_dim,
        is_stack(a, bsz as int, len as int, columns),
        term::typ(b) == term::typ(a),
        term::typ(m.by_head(a, len, bsz).reshape(Shape::S3(stack, len, m.head_dim))) is Some,
        same_rows(i.values(a), i.values(b), bsz as int, len as int, columns, 1, changed),
    ensures
        ({
            let flat = Shape::S3(stack, len, m.head_dim);
            let (p, q) = (
                m.by_head(a, len, bsz).reshape(flat),
                m.by_head(b, len, bsz).reshape(flat),
            );
            &&& is_stack(p, stack as int, len as int, m.head_dim as int)
            &&& term::typ(q) == term::typ(p)
            &&& same_rows(
                i.values(p),
                i.values(q),
                stack as int,
                len as int,
                m.head_dim as int,
                m.num_heads as int,
                changed,
            )
        }),
{
    let split = Shape::S4(bsz, len, m.num_heads, m.head_dim);
    let flat = Shape::S3(stack, len, m.head_dim);
    let (l, h, d, st) = (len as int, m.num_heads as int, m.head_dim as int, stack as int);
    let (f, g) = (a.reshape(split), b.reshape(split));
    let (u, v) = (f.transpose(1, 2), g.transpose(1, 2));
    let (p, q) = (m.by_head(a, len, bsz).reshape(flat), m.by_head(b, len, bsz).reshape(flat));
    let types = inverse::nothing();
    assert(types.alike(p, q)) by {
        broadcast use crate::tensor::meaning::congruence;

        assert(types.alike(a, b));
        assert(types.alike(f, g));
        assert(types.alike(u, v));
        assert(types.alike(u.contiguous(), v.contiguous()));
    }
    assert(term::typ(u.contiguous()) is Some && term::typ(v.contiguous()) is Some);
    assert(term::typ(f) is Some && term::typ(g) is Some);
    assert(splits(f, l, h, d) && splits(g, l, h, d) && f.shape()->S4_0 == bsz && g.shape()->S4_0
        == bsz && is_stack(p, st, l, d)) by {
        broadcast use crate::tensor::term::typing_rules;

    }
    assert(i.values(p) == i.values(u) && i.values(q) == i.values(v) && i.values(f) == i.values(a)
        && i.values(g) == i.values(b)) by {
        broadcast use crate::model::numbers::number_rules;

    }
    assert forall|s: int, r: int, j: int|
        within(st, l, d, s, r, j) && !changed(s / h, r) implies #[trigger] element(
        i.values(p),
        l,
        d,
        s,
        r,
        j,
    ) == element(i.values(q), l, d, s, r, j) by {
        lemma_head(bsz as int, h, s);
        let (n, k) = (s / h, s % h);
        assert(within(h, l, d, k, r, j));
        numbers::lemma_exchanged(i, f, l, h, d, n, k, r, j);
        numbers::lemma_exchanged(i, g, l, h, d, n, k, r, j);
        lemma_head_place(l, h, d, n, r, k, j);
        lemma_part(h, d, k, j);
        assert(within(bsz as int, l, columns, n, r, k * d + j));
        assert(n / 1 == n);
        assert(element(i.values(a), l, columns, n, r, k * d + j) == element(
            i.values(b),
            l,
            columns,
            n,
            r,
            k * d + j,
        ));
    }
}

/// Products of rows that are the same with the same matrices are the same.
proof fn lemma_product_rows(
    i: Numbers,
    a: Term,
    b: Term,
    w: Term,
    stack: int,
    rows: int,
    inner: int,
    columns: int,
    s: int,
    r: int,
    j: int,
)
    requires
        is_stack(a, stack, rows, inner),
        is_stack(b, stack, rows, inner),
        is_stack(w, stack, inner, columns),
        term::typ(a.matmul(w)) is Some,
        term::typ(b.matmul(w)) is Some,
        within(stack, rows, columns, s, r, j),
        forall|k: int|
            0 <= k < inner ==> #[trigger] element(i.values(a), rows, inner, s, r, k) == element(
                i.values(b),
                rows,
                inner,
                s,
                r,
                k,
            ),
    ensures
        element(i.values(a.matmul(w)), rows, columns, s, r, j) == element(
            i.values(b.matmul(w)),
            rows,
            columns,
            s,
            r,
            j,
        ),
{
    let (f, g) = (
        products(i.values(a), i.values(w), rows, inner, columns, s, r, j),
        products(i.values(b), i.values(w), rows, inner, columns, s, r, j),
    );
    assert forall|k: int| 0 <= k < inner implies f[k] == g[k] by {
        assert(element(i.values(a), rows, inner, s, r, k) == element(
            i.values(b),
            rows,
            inner,
            s,
            r,
            k,
        ));
    }
    assert(f =~= g);
    numbers::lemma_product(i, a, w, stack, rows, inner, columns, s, r, j);
    numbers::lemma_product(i, b, w, stack, rows, inner, columns, s, r, j);
}

/// The table of distances, spread over the stack.
spec fn spread(m: VitsAttention, table: Term, stack: usize, len: usize) -> Term {
    let rows = m.relative_embeddings(table, len);
    rows.expand(Shape::S3(stack, rows.shape().spec_dim(1), m.head_dim))
}

proof fn lemma_spread_shape(m: VitsAttention, table: Term, stack: usize, len: usize)
    requires
        term::typ(spread(m, table, stack, len)) is Some,
    ensures
        0 < len,
        is_stack(spread(m, table, stack, len), stack as int, 2 * len - 1, m.head_dim as int),
{
    broadcast use crate::tensor::term::typing_rules;

    let rows = m.relative_embeddings(table, len);
    assert(term::typ(rows) is Some);
}

/// The scores of rows that are the same are the same, but for places that may have changed.
proof fn lemma_scores_rows(
    i: Numbers,
    m: VitsAttention,
    query: Term,
    query_again: Term,
    key: Term,
    key_again: Term,
    stack: usize,
    len: usize,
    changed: spec_fn(int, int) -> bool,
    s: int,
    r: int,
    j: int,
)
    requires
        is_stack(query, stack as int, len as int, m.head_dim as int),
        is_stack(key, stack as int, len as int, m.head_dim as int),
        term::typ(query_again) == term::typ(query),
        term::typ(key_again) == term::typ(key),
        term::typ(m.scores(query, key, stack, len)) is Some,
        same_rows(
            i.values(query),
            i.values(query_again),
            stack as int,
            len as int,
            m.head_dim as int,
            m.num_heads as int,
            changed,
        ),
        same_rows(
            i.values(key),
            i.values(key_again),
            stack as int,
            len as int,
            m.head_dim as int,
            m.num_heads as int,
            changed,
        ),
        within(stack as int, len as int, len as int, s, r, j),
        !changed(s / (m.num_heads as int), r),
        !changed(s / (m.num_heads as int), j),
    ensures
        element(i.values(m.scores(query, key, stack, len)), len as int, len as int, s, r, j)
            == element(
            i.values(m.scores(query_again, key_again, stack, len)),
            len as int,
            len as int,
            s,
            r,
            j,
        ),
{
    let (st, n, d) = (stack as int, len as int, m.head_dim as int);
    let w = 2 * n - 1;
    let wide = spread(m, m.emb_rel_k@, stack, len);
    let turned = wide.transpose(1, 2);
    let (x, y) = (query.matmul(turned), query_again.matmul(turned));
    let (f, g) = (attention::relative_to_absolute(x), attention::relative_to_absolute(y));
    let (kt, lt) = (key.transpose(1, 2), key_again.transpose(1, 2));
    let (p, q) = (query.matmul(kt), query_again.matmul(lt));
    let (a, b) = (
        m.scores(query, key, stack, len),
        m.scores(query_again, key_again, stack, len),
    );
    assert(a == p.add(f));
    assert(b == q.add(g));
    let types = inverse::nothing();
    assert(types.alike(query, query_again) && types.alike(key, key_again));
    no_mask::lemma_scores_alike(types, m, query, query_again, key, key_again, stack, len);
    assert(term::typ(p) is Some && term::typ(f) is Some && term::typ(q) is Some && term::typ(
        g,
    ) is Some);
    assert(term::typ(x) is Some && term::typ(y) is Some);
    assert(term::typ(wide) is Some);
    lemma_spread_shape(m, m.emb_rel_k@, stack, len);
    assert(is_stack(turned, st, d, w) && is_stack(kt, st, d, n) && is_stack(lt, st, d, n)
        && is_stack(p, st, n, n) && is_stack(q, st, n, n) && is_stack(x, st, n, w) && is_stack(
        y,
        st,
        n,
        w,
    )) by {
        broadcast use crate::tensor::term::typing_rules;

    }
    assert(is_stack(query_again, st, n, d) && is_stack(key_again, st, n, d));
    assert(term::typ(p.add(f)) is Some && term::typ(q.add(g)) is Some);
    assert(f.shape() == p.shape() && g.shape() == q.shape()) by {
        broadcast use crate::tensor::term::typing_rules;

    }
    assert forall|k: int| 0 <= k < d implies #[trigger] element(i.values(query), n, d, s, r, k)
        == element(i.values(query_again), n, d, s, r, k) by {
        assert(within(st, n, d, s, r, k));
    }
    let k = j - r + n - 1;
    assert(within(st, n, w, s, r, k));
    lemma_product_rows(i, query, query_again, turned, st, n, d, w, s, r, k);
    positions::lemma_relative_to_absolute_type(x);
    positions::lemma_relative_to_absolute_type(y);
    positions::lemma_relative_to_absolute(x, s, r, j);
    positions::lemma_relative_to_absolute(y, s, r, j);
    let (at, from) = (positions::at3(n, n, s, r, j), positions::at3(n, w, s, r, k));
    numbers::lemma_moved(i, &f, at);
    numbers::lemma_moved(i, &x, from);
    numbers::lemma_moved(i, &g, at);
    numbers::lemma_moved(i, &y, from);
    assert(element(i.values(f), n, n, s, r, j) == element(i.values(g), n, n, s, r, j));
    let (u, v) = (
        products(i.values(query), i.values(kt), n, d, n, s, r, j),
        products(i.values(query_again), i.values(lt), n, d, n, s, r, j),
    );
    assert forall|c: int| 0 <= c < d implies u[c] == v[c] by {
        assert(within(st, n, d, s, j, c));
        assert(element(i.values(query), n, d, s, r, c) == element(
            i.values(query_again),
            n,
            d,
            s,
            r,
            c,
        ));
        assert(element(i.values(key), n, d, s, j, c) == element(
            i.values(key_again),
            n,
            d,
            s,
            j,
            c,
        ));
        numbers::lemma_transposed(i, key, st, n, d, s, j, c);
        numbers::lemma_transposed(i, key_again, st, n, d, s, j, c);
    }
    assert(u =~= v);
    numbers::lemma_product(i, query, kt, st, n, d, n, s, r, j);
    numbers::lemma_product(i, query_again, lt, st, n, d, n, s, r, j);
    numbers::lemma_sum(i, p, f, at);
    numbers::lemma_sum(i, q, g, at);
}

/// The scores of a head with the mask added, as they go into the softmax.
pub open spec fn masked_scores(
    m: VitsAttention,
    scores: Term,
    mask: Term,
    bsz: usize,
    stack: usize,
    len: usize,
) -> Term {
    scores.reshape(Shape::S4(bsz, m.num_heads, len, len)).broadcast_add(mask).reshape(
        Shape::S3(stack, len, len),
    )
}

/// An element of the scores with the mask added.
pub(crate) proof fn lemma_masked_score(
    i: Numbers,
    m: VitsAttention,
    scores: Term,
    mask: Term,
    bsz: usize,
    stack: usize,
    len: usize,
    s: int,
    r: int,
    j: int,
)
    requires
        stack == bsz * m.num_heads,
        mask.shape() == Shape::S4(bsz, 1, len, len),
        term::typ(masked_scores(m, scores, mask, bsz, stack, len)) is Some,
        within(stack as int, len as int, len as int, s, r, j),
    ensures
        element(
            i.values(masked_scores(m, scores, mask, bsz, stack, len)),
            len as int,
            len as int,
            s,
            r,
            j,
        ) == element(i.values(scores), len as int, len as int, s, r, j) + element(
            i.values(mask),
            len as int,
            len as int,
            s / (m.num_heads as int),
            r,
            j,
        ),
{
    let split = Shape::S4(bsz, m.num_heads, len, len);
    let by_head = scores.reshape(split);
    let sum = by_head.broadcast_add(mask);
    assert(term::typ(sum) is Some && term::typ(by_head) is Some);
    no_mask::lemma_reshaped_shape(scores, split);
    assert(masks(by_head, mask, m.num_heads as int, len as int));
    numbers::lemma_mask(i, by_head, mask, m.num_heads as int, len as int, s, r, j);
    assert(i.values(by_head) == i.values(scores) && i.values(
        masked_scores(m, scores, mask, bsz, stack, len),
    ) == i.values(sum)) by {
        broadcast use crate::model::numbers::number_rules;

    }
}

/// What is asked of two stacks of scores: they are bounded, and the same in the rows and columns
/// of all places but those that may have changed.
pub open spec fn same_scores(
    v: spec_fn(int) -> real,
    w: spec_fn(int) -> real,
    bound: real,
    stack: int,
    heads: int,
    len: int,
    changed: spec_fn(int, int) -> bool,
) -> bool {
    &&& bounded(v, stack * len * len, bound)
    &&& bounded(w, stack * len * len, bound)
    &&& forall|s: int, r: int, j: int|
        within(stack, len, len, s, r, j) && !changed(s / heads, r) && !changed(s / heads, j)
            ==> #[trigger] element(v, len, len, s, r, j) == element(w, len, len, s, r, j)
}

/// Whether only hidden places may have changed.
pub open spec fn only_hidden(
    mask: spec_fn(int) -> real,
    least: real,
    batch: int,
    len: int,
    changed: spec_fn(int, int) -> bool,
) -> bool {
    forall|b: int, j: int|
        0 <= b < batch && 0 <= j < len && #[trigger] changed(b, j) ==> hidden(
            mask,
            least,
            len,
            b,
            j,
        )
}

/// The exponentials of a row do not depend on what is hidden; those of hidden places are zero.
proof fn lemma_exponentials(
    i: Numbers,
    least: real,
    bound: real,
    m: VitsAttention,
    a: Term,
    b: Term,
    mask: Term,
    bsz: usize,
    stack: usize,
    len: usize,
    changed: spec_fn(int, int) -> bool,
    s: int,
    r: int,
)
    requires
        fades(i.exponential, least, bound),
        stack == bsz * m.num_heads,
        mask.shape() == Shape::S4(bsz, 1, len, len),
        term::typ(masked_scores(m, a, mask, bsz, stack, len)) is Some,
        term::typ(masked_scores(m, b, mask, bsz, stack, len)) is Some,
        always_counts(i.values(mask), bsz as int, len as int),
        only_hidden(i.values(mask), least, bsz as int, len as int, changed),
        same_scores(
            i.values(a),
            i.values(b),
            bound,
            stack as int,
            m.num_heads as int,
            len as int,
            changed,
        ),
        0 <= s < stack,
        0 <= r < len,
        !changed(s / (m.num_heads as int), r),
    ensures
        ({
            let n = len as int;
            let v = i.values(masked_scores(m, a, mask, bsz, stack, len));
            let w = i.values(masked_scores(m, b, mask, bsz, stack, len));
            let rows = exponentials(i.exponential, v, n, n, s, r);
            &&& rows == exponentials(i.exponential, w, n, n, s, r)
            &&& spline_laws::sum(rows) > 0real
            &&& forall|j: int|
                0 <= j < n && #[trigger] changed(s / (m.num_heads as int), j) ==> rows[j] == 0real
        }),
{
    let n = len as int;
    let st = stack as int;
    let h = m.num_heads as int;
    let k = i.values(mask);
    let v = i.values(masked_scores(m, a, mask, bsz, stack, len));
    let w = i.values(masked_scores(m, b, mask, bsz, stack, len));
    let (p, q) = (
        exponentials(i.exponential, v, n, n, s, r),
        exponentials(i.exponential, w, n, n, s, r),
    );
    lemma_head(bsz as int, h, s);
    assert forall|j: int| 0 <= j < n implies p[j] == q[j] && p[j] >= 0real && (changed(s / h, j)
        ==> p[j] == 0real) && (element(k, n, n, s / h, r, j) == 0real ==> p[j] > 0real) by {
        lemma_where(st, n, n, s, r, j);
        lemma_masked_score(i, m, a, mask, bsz, stack, len, s, r, j);
        lemma_masked_score(i, m, b, mask, bsz, stack, len, s, r, j);
        let at = positions::at3(n, n, s, r, j);
        let (x, y) = (i.values(a)(at), i.values(b)(at));
        assert(-bound <= x <= bound && -bound <= y <= bound);
        let z = element(k, n, n, s / h, r, j);
        assert(p[j] == (i.exponential)(x + z));
        assert(q[j] == (i.exponential)(y + z));
        if changed(s / h, j) {
            assert(hidden(k, least, n, s / h, j));
            assert(z == least);
            assert((i.exponential)(x + z) == 0real && (i.exponential)(y + z) == 0real);
        } else {
            assert(element(i.values(a), n, n, s, r, j) == element(i.values(b), n, n, s, r, j));
        }
        if z == 0real {
            assert((i.exponential)(x + z) > 0real);
        }
    }
    assert(p =~= q);
    assert(some_counts(k, n, s / h, r));
    let j = choose|j: int| 0 <= j < n && #[trigger] element(k, n, n, s / h, r, j) == 0real;
    lemma_sum_positive(p, j);
}

/// In rows that are the same the weights do not depend on what is hidden, and those of hidden
/// places are zero.
pub proof fn lemma_hidden_weights(
    i: Numbers,
    least: real,
    bound: real,
    m: VitsAttention,
    a: Term,
    b: Term,
    mask: Term,
    bsz: usize,
    stack: usize,
    len: usize,
    changed: spec_fn(int, int) -> bool,
)
    requires
        fades(i.exponential, least, bound),
        stack == bsz * m.num_heads,
        mask.shape() == Shape::S4(bsz, 1, len, len),
        term::typ(a) == term::typ(b),
        term::typ(m.weights(a, Some(mask), bsz, stack, len)) is Some,
        always_counts(i.values(mask), bsz as int, len as int),
        only_hidden(i.values(mask), least, bsz as int, len as int, changed),
        same_scores(
            i.values(a),
            i.values(b),
            bound,
            stack as int,
            m.num_heads as int,
            len as int,
            changed,
        ),
    ensures
        term::typ(m.weights(b, Some(mask), bsz, stack, len)) == term::typ(
            m.weights(a, Some(mask), bsz, stack, len),
        ),
        is_stack(
            m.weights(a, Some(mask), bsz, stack, len),
            stack as int,
            len as int,
            len as int,
        ),
        same_rows(
            i.values(m.weights(a, Some(mask), bsz, stack, len)),
            i.values(m.weights(b, Some(mask), bsz, stack, len)),
            stack as int,
            len as int,
            len as int,
            m.num_heads as int,
            changed,
        ),
        forall|s: int, r: int, j: int|
            within(stack as int, len as int, len as int, s, r, j) && !changed(
                s / (m.num_heads as int),
                r,
            ) && changed(s / (m.num_heads as int), j) ==> #[trigger] element(
                i.values(m.weights(a, Some(mask), bsz, stack, len)),
                len as int,
                len as int,
                s,
                r,
                j,
            ) == 0real,
{
    let n = len as int;
    let st = stack as int;
    let h = m.num_heads as int;
    let (x, y) = (
        masked_scores(m, a, mask, bsz, stack, len),
        masked_scores(m, b, mask, bsz, stack, len),
    );
    assert(m.weights(a, Some(mask), bsz, stack, len) == x.softmax());
    assert(m.weights(b, Some(mask), bsz, stack, len) == y.softmax());
    assert(inverse::nothing().alike(x.softmax(), y.softmax())) by {
        broadcast use crate::tensor::meaning::congruence;

        let types = inverse::nothing();
        let split = Shape::S4(bsz, m.num_heads, len, len);
        assert(types.alike(a, b));
        assert(types.alike(a.reshape(split), b.reshape(split)));
        assert(types.alike(
            a.reshape(split).broadcast_add(mask),
            b.reshape(split).broadcast_add(mask),
        ));
        assert(types.alike(x, y));
    }
    assert(term::typ(x) is Some && term::typ(y) is Some);
    assert(is_stack(x, st, n, n) && is_stack(y, st, n, n) && is_stack(x.softmax(), st, n, n)
        && is_stack(y.softmax(), st, n, n)) by {
        broadcast use crate::tensor::term::typing_rules;

    }
    let (v, w) = (i.values(x.softmax()), i.values(y.softmax()));
    assert forall|s: int, r: int, j: int|
        within(st, n, n, s, r, j) && !changed(s / h, r) implies #[trigger] element(
        v,
        n,
        n,
        s,
        r,
        j,
    ) == element(w, n, n, s, r, j) && (changed(s / h, j) ==> element(v, n, n, s, r, j) == 0real) by {
        lemma_exponentials(
            i,
            least,
            bound,
            m,
            a,
            b,
            mask,
            bsz,
            stack,
            len,
            changed,
            s,
            r,
        );
        let rows = exponentials(i.exponential, i.values(x), n, n, s, r);
        assert(rows[j] == (i.exponential)(element(i.values(x), n, n, s, r, j)));
        assert(exponentials(i.exponential, i.values(y), n, n, s, r)[j] == (i.exponential)(
            element(i.values(y), n, n, s, r, j),
        ));
        let total = spline_laws::sum(rows);
        numbers::lemma_softmax(i, x, st, n, n, s, r, j);
        numbers::lemma_softmax(i, y, st, n, n, s, r, j);
        if changed(s / h, j) {
            assert(0real / total == 0real) by (nonlinear_arith)
                requires
                    total > 0real,
            ;
        }
    }
}

/// Weights by distance, for rows that are the same.
proof fn lemma_relative_rows(
    i: Numbers,
    a: Term,
    b: Term,
    stack: int,
    len: int,
    s: int,
    r: int,
)
    requires
        is_stack(a, stack, len, len),
        is_stack(b, stack, len, len),
        is_stack(attention::absolute_to_relative(a), stack, len, 2 * len - 1),
        is_stack(attention::absolute_to_relative(b), stack, len, 2 * len - 1),
        0 <= s < stack,
        0 <= r < len,
        forall|j: int|
            0 <= j < len ==> #[trigger] element(i.values(a), len, len, s, r, j) == element(
                i.values(b),
                len,
                len,
                s,
                r,
                j,
            ),
    ensures
        forall|k: int|
            0 <= k < 2 * len - 1 ==> #[trigger] element(
                i.values(attention::absolute_to_relative(a)),
                len,
                2 * len - 1,
                s,
                r,
                k,
            ) == element(
                i.values(attention::absolute_to_relative(b)),
                len,
                2 * len - 1,
                s,
                r,
                k,
            ),
{
    let (f, g) = (attention::absolute_to_relative(a), attention::absolute_to_relative(b));
    let w = 2 * len - 1;
    positions::lemma_absolute_to_relative_type(a);
    positions::lemma_absolute_to_relative_type(b);
    assert forall|k: int| 0 <= k < w implies #[trigger] element(i.values(f), len, w, s, r, k)
        == element(i.values(g), len, w, s, r, k) by {
        positions::lemma_absolute_to_relative(a, s, r, k);
        positions::lemma_absolute_to_relative(b, s, r, k);
        let at = positions::at3(len, w, s, r, k);
        numbers::lemma_moved(i, &f, at);
        numbers::lemma_moved(i, &g, at);
        let j = r + k - (len - 1);
        if 0 <= j < len {
            let from = positions::at3(len, len, s, r, j);
            numbers::lemma_moved(i, &a, from);
            numbers::lemma_moved(i, &b, from);
            assert(element(i.values(a), len, len, s, r, j) == element(
                i.values(b),
                len,
                len,
                s,
                r,
                j,
            ));
        } else {
            let (p, q) = (index::origin(f, at), index::origin(g, at));
            numbers::lemma_zero(i, p.0, p.1);
            numbers::lemma_zero(i, q.0, q.1);
        }
    }
}

/// What rows that are the same mix does not depend on what is hidden.
proof fn lemma_mix_rows(
    i: Numbers,
    m: VitsAttention,
    a: Term,
    b: Term,
    value: Term,
    value_again: Term,
    stack: usize,
    len: usize,
    changed: spec_fn(int, int) -> bool,
)
    requires
        is_stack(a, stack as int, len as int, len as int),
        is_stack(value, stack as int, len as int, m.head_dim as int),
        term::typ(b) == term::typ(a),
        term::typ(value_again) == term::typ(value),
        term::typ(m.mix(a, value, stack, len)) is Some,
        same_rows(
            i.values(a),
            i.values(b),
            stack as int,
            len as int,
            len as int,
            m.num_heads as int,
            changed,
        ),
        same_rows(
            i.values(value),
            i.values(value_again),
            stack as int,
            len as int,
            m.head_dim as int,
            m.num_heads as int,
            changed,
        ),
        forall|s: int, r: int, j: int|
            within(stack as int, len as int, len as int, s, r, j) && !changed(
                s / (m.num_heads as int),
                r,
            ) && changed(s / (m.num_heads as int), j) ==> #[trigger] element(
                i.values(a),
                len as int,
                len as int,
                s,
                r,
                j,
            ) == 0real,
    ensures
        is_stack(m.mix(a, value, stack, len), stack as int, len as int, m.head_dim as int),
        term::typ(m.mix(b, value_again, stack, len)) == term::typ(m.mix(a, value, stack, len)),
        same_rows(
            i.values(m.mix(a, value, stack, len)),
            i.values(m.mix(b, value_again, stack, len)),
            stack as int,
            len as int,
            m.head_dim as int,
            m.num_heads as int,
            changed,
        ),
{
    let (st, n, d, h) = (stack as int, len as int, m.head_dim as int, m.num_heads as int);
    let w = 2 * n - 1;
    let wide = spread(m, m.emb_rel_v@, stack, len);
    let (f, g) = (attention::absolute_to_relative(a), attention::absolute_to_relative(b));
    let (p, q) = (a.matmul(value), b.matmul(value_again));
    let (x, y) = (f.matmul(wide), g.matmul(wide));
    assert(m.mix(a, value, stack, len) == p.add(x));
    assert(m.mix(b, value_again, stack, len) == q.add(y));
    let types = inverse::nothing();
    assert(types.alike(p, q)) by {
        broadcast use crate::tensor::meaning::congruence;

        assert(types.alike(a, b));
        assert(types.alike(value, value_again));
    }
    no_mask::lemma_mix_alike(types, m, a, b, value, value_again, stack, len);
    assert(term::typ(p) is Some && term::typ(x) is Some && term::typ(q) is Some && term::typ(
        y,
    ) is Some);
    assert(term::typ(f) is Some && term::typ(g) is Some && term::typ(wide) is Some);
    lemma_spread_shape(m, m.emb_rel_v@, stack, len);
    assert(is_stack(f, st, n, w) && is_stack(g, st, n, w) && is_stack(p, st, n, d) && is_stack(
        q,
        st,
        n,
        d,
    ) && is_stack(p.add(x), st, n, d)) by {
        broadcast use crate::tensor::term::typing_rules;

        assert(f.shape() is S3 && g.shape() is S3);
    }
    assert(is_stack(value_again, st, n, d) && is_stack(b, st, n, n));
    assert forall|s: int, r: int, j: int|
        within(st, n, d, s, r, j) && !changed(s / h, r) implies #[trigger] element(
        i.values(p.add(x)),
        n,
        d,
        s,
        r,
        j,
    ) == element(i.values(q.add(y)), n, d, s, r, j) by {
        assert forall|k: int| 0 <= k < n implies #[trigger] element(i.values(a), n, n, s, r, k)
            == element(i.values(b), n, n, s, r, k) by {
            assert(within(st, n, n, s, r, k));
        }
        let (u, v) = (
            products(i.values(a), i.values(value), n, n, d, s, r, j),
            products(i.values(b), i.values(value_again), n, n, d, s, r, j),
        );
        assert forall|c: int| 0 <= c < n implies u[c] == v[c] by {
            assert(within(st, n, d, s, c, j));
            assert(within(st, n, n, s, r, c));
            let (k, l) = (
                element(i.values(value), n, d, s, c, j),
                element(i.values(value_again), n, d, s, c, j),
            );
            let z = element(i.values(a), n, n, s, r, c);
            assert(z == element(i.values(b), n, n, s, r, c));
            if changed(s / h, c) {
                assert(z == 0real);
                assert(0real * k == 0real && 0real * l == 0real) by (nonlinear_arith);
            } else {
                assert(k == l);
            }
        }
        assert(u =~= v);
        numbers::lemma_product(i, a, value, st, n, n, d, s, r, j);
        numbers::lemma_product(i, b, value_again, st, n, n, d, s, r, j);
        lemma_relative_rows(i, a, b, st, n, s, r);
        lemma_product_rows(i, f, g, wide, st, n, w, d, s, r, j);
        let at = positions::at3(n, d, s, r, j);
        numbers::lemma_sum(i, p, x, at);
        numbers::lemma_sum(i, q, y, at);
    }
}

/// With the heads side by side again, rows that are the same stay the same.
proof fn lemma_side_by_side_rows(
    i: Numbers,
    m: VitsAttention,
    a: Term,
    b: Term,
    bsz: usize,
    len: usize,
    stack: usize,
    changed: spec_fn(int, int) -> bool,
)
    requires
        stack == bsz * m.num_heads,
        m.embed_dim == m.num_heads * m.head_dim,
        is_stack(a, stack as int, len as int, m.head_dim as int),
        term::typ(b) == term::typ(a),
        term::typ(side_by_side(m, a, bsz, len)) is Some,
        same_rows(
            i.values(a),
            i.values(b),
            stack as int,
            len as int,
            m.head_dim as int,
            m.num_heads as int,
            changed,
        ),
    ensures
        is_stack(side_by_side(m, a, bsz, len), bsz as int, len as int, m.embed_dim as int),
        term::typ(side_by_side(m, b, bsz, len)) == term::typ(side_by_side(m, a, bsz, len)),
        same_rows(
            i.values(side_by_side(m, a, bsz, len)),
            i.values(side_by_side(m, b, bsz, len)),
            bsz as int,
            len as int,
            m.embed_dim as int,
            1,
            changed,
        ),
{
    let split = Shape::S4(bsz, m.num_heads, len, m.head_dim);
    let flat = Shape::S3(bsz, len, m.embed_dim);
    let (l, h, d, st, c) = (
        len as int,
        m.num_heads as int,
        m.head_dim as int,
        stack as int,
        m.embed_dim as int,
    );
    let (f, g) = (a.reshape(split), b.reshape(split));
    let (u, v) = (f.transpose(1, 2), g.transpose(1, 2));
    let (p, q) = (side_by_side(m, a, bsz, len), side_by_side(m, b, bsz, len));
    let types = inverse::nothing();
    assert(types.alike(p, q)) by {
        broadcast use crate::tensor::meaning::congruence;

        assert(types.alike(a, b));
        assert(types.alike(f, g));
        assert(types.alike(u, v));
        assert(types.alike(u.reshape(flat), v.reshape(flat)));
    }
    assert(term::typ(u.reshape(flat)) is Some && term::typ(v.reshape(flat)) is Some);
    assert(term::typ(u) is Some && term::typ(v) is Some && term::typ(f) is Some && term::typ(
        g,
    ) is Some);
    assert(splits(f, h, l, d) && splits(g, h, l, d) && f.shape()->S4_0 == bsz && g.shape()->S4_0
        == bsz && is_stack(p, bsz as int, l, c)) by {
        broadcast use crate::tensor::term::typing_rules;

    }
    assert(i.values(p) == i.values(u) && i.values(q) == i.values(v) && i.values(f) == i.values(a)
        && i.values(g) == i.values(b)) by {
        broadcast use crate::model::numbers::number_rules;

    }
    assert forall|s: int, r: int, j: int|
        within(bsz as int, l, c, s, r, j) && !changed(s / 1, r) implies #[trigger] element(
        i.values(p),
        l,
        c,
        s,
        r,
        j,
    ) == element(i.values(q), l, c, s, r, j) by {
        lemma_head(h, d, j);
        let (k, t) = (j / d, j % d);
        assert(within(l, h, d, r, k, t));
        numbers::lemma_exchanged(i, f, h, l, d, s, r, k, t);
        numbers::lemma_exchanged(i, g, h, l, d, s, r, k, t);
        lemma_head_place(l, h, d, s, r, k, t);
        let n = s * h + k;
        lemma_part(bsz as int, h, s, k);
        vstd::arithmetic::div_mod::lemma_fundamental_div_mod_converse(n, h, s, k);
        assert(n / h == s);
        assert(within(st, l, d, n, r, t));
        assert(element(i.values(a), l, d, n, r, t) == element(i.values(b), l, d, n, r, t));
    }
}

/// The heads put side by side again.
pub open spec fn side_by_side(m: VitsAttention, x: Term, bsz: usize, len: usize) -> Term {
    x.reshape(Shape::S4(bsz, m.num_heads, len, m.head_dim)).transpose(1, 2).reshape(
        Shape::S3(bsz, len, m.embed_dim),
    ).contiguous()
}

/// The queries, or the keys, or the values: a projection of the input, sorted by head.
pub open spec fn projected(m: VitsAttention, x: Term, bsz: usize, len: usize) -> Term {
    m.by_head(x, len, bsz).reshape(
        Shape::S3((bsz * m.num_heads) as usize, len, m.head_dim),
    )
}

/// The scores of all places of an input.
pub open spec fn scores_of(m: VitsAttention, x: Term) -> Term {
    let (bsz, len) = (x.shape()->S3_0, x.shape()->S3_1);
    m.scores(
        projected(m, m.q_proj.output(x).scale(Scalar::InverseSqrt(m.head_dim)), bsz, len),
        projected(m, m.k_proj.output(x), bsz, len),
        (bsz * m.num_heads) as usize,
        len,
    )
}

/// Where two inputs differ at hidden places only, what attention gives differs there only: a place
/// to all of whose scores the mask adds the least number has no influence on the others.
pub proof fn lemma_hidden_places(
    i: Numbers,
    least: real,
    bound: real,
    m: VitsAttention,
    config: VitsConfig,
    vb: ScopeView,
    x: Term,
    y: Term,
    mask: Term,
    changed: spec_fn(int, int) -> bool,
)
    requires
        fades(i.exponential, least, bound),
        VitsAttention::failure(config, vb) is None,
        m.loaded(config, vb),
        x.shape() is S3,
        x.shape()->S3_2 == m.embed_dim,
        term::typ(y) == term::typ(x),
        mask.shape() == Shape::S4(x.shape()->S3_0, 1, x.shape()->S3_1, x.shape()->S3_1),
        term::typ(m.output(x, Some(mask))) is Some,
        same_rows(
            i.values(x),
            i.values(y),
            x.shape()->S3_0 as int,
            x.shape()->S3_1 as int,
            m.embed_dim as int,
            1,
            changed,
        ),
        only_hidden(
            i.values(mask),
            least,
            x.shape()->S3_0 as int,
            x.shape()->S3_1 as int,
            changed,
        ),
        always_counts(i.values(mask), x.shape()->S3_0 as int, x.shape()->S3_1 as int),
        bounded(i.values(scores_of(m, x)), scores_of(m, x).shape().count() as int, bound),
        bounded(i.values(scores_of(m, y)), scores_of(m, y).shape().count() as int, bound),
    ensures
        m.output(x, Some(mask)).shape() == x.shape(),
        term::typ(m.output(y, Some(mask))) == term::typ(m.output(x, Some(mask))),
        same_rows(
            i.values(m.output(x, Some(mask))),
            i.values(m.output(y, Some(mask))),
            x.shape()->S3_0 as int,
            x.shape()->S3_1 as int,
            m.embed_dim as int,
            1,
            changed,
        ),
{
    reveal(VitsAttention::output);
    let (bsz, len, width) = (x.shape()->S3_0, x.shape()->S3_1, m.embed_dim);
    let stack = (bsz * m.num_heads) as usize;
    let (st, n, d, h) = (stack as int, len as int, m.head_dim as int, m.num_heads as int);
    vstd::arithmetic::div_mod::lemma_fundamental_div_mod(width as int, h);
    assert(width == h * d);
    let f = Scalar::InverseSqrt(m.head_dim);
    let (qx, kx, vx) = (m.q_proj.output(x), m.k_proj.output(x), m.v_proj.output(x));
    let (qy, ky, vy) = (m.q_proj.output(y), m.k_proj.output(y), m.v_proj.output(y));
    let (query, query_again) = (
        projected(m, qx.scale(f), bsz, len),
        projected(m, qy.scale(f), bsz, len),
    );
    let (key, key_again) = (projected(m, kx, bsz, len), projected(m, ky, bsz, len));
    let (value, value_again) = (projected(m, vx, bsz, len), projected(m, vy, bsz, len));
    let (a, b) = (scores_of(m, x), scores_of(m, y));
    let (u, v) = (
        m.weights(a, Some(mask), bsz, stack, len),
        m.weights(b, Some(mask), bsz, stack, len),
    );
    let (p, q) = (m.mix(u, value, stack, len), m.mix(v, value_again, stack, len));
    let (s, t) = (side_by_side(m, p, bsz, len), side_by_side(m, q, bsz, len));
    assert(m.output(x, Some(mask)) == m.out_proj.output(s));
    assert(m.output(y, Some(mask)) == m.out_proj.output(t));
    assert(term::typ(s) is Some);
    assert(term::typ(p) is Some);
    assert(term::typ(u.matmul(value)) is Some);
    assert(term::typ(u) is Some && term::typ(value) is Some);
    assert(term::typ(a) is Some);
    assert(term::typ(query) is Some && term::typ(key) is Some);
    assert(term::typ(qx.scale(f)) is Some && term::typ(kx) is Some && term::typ(vx) is Some);
    assert(term::typ(qx) is Some);
    assert(term::typ(x) is Some);
    assert(is_stack(x, bsz as int, n, width as int));
    let (batch, wide) = (bsz as int, width as int);
    lemma_linear_rows(
        i,
        m.q_proj,
        vb.pp("q_proj"@),
        width,
        config.use_bias,
        x,
        y,
        batch,
        n,
        width,
        changed,
    );
    lemma_linear_rows(
        i,
        m.k_proj,
        vb.pp("k_proj"@),
        width,
        config.use_bias,
        x,
        y,
        batch,
        n,
        width,
        changed,
    );
    lemma_linear_rows(
        i,
        m.v_proj,
        vb.pp("v_proj"@),
        width,
        config.use_bias,
        x,
        y,
        batch,
        n,
        width,
        changed,
    );
    lemma_scaled_rows(i, qx, qy, f, batch, n, wide, changed);
    lemma_heads_rows(i, m, qx.scale(f), qy.scale(f), bsz, len, wide, stack, changed);
    lemma_heads_rows(i, m, kx, ky, bsz, len, wide, stack, changed);
    lemma_heads_rows(i, m, vx, vy, bsz, len, wide, stack, changed);
    let types = inverse::nothing();
    assert(types.alike(query, query_again) && types.alike(key, key_again));
    no_mask::lemma_scores_alike(types, m, query, query_again, key, key_again, stack, len);
    no_mask::lemma_scores_shape(m, query, key, stack, len);
    assert(y.shape() == x.shape());
    assert forall|s: int, r: int, j: int|
        within(st, n, n, s, r, j) && !changed(s / h, r) && !changed(s / h, j) implies #[trigger]
        element(i.values(a), n, n, s, r, j) == element(i.values(b), n, n, s, r, j) by {
        lemma_scores_rows(
            i,
            m,
            query,
            query_again,
            key,
            key_again,
            stack,
            len,
            changed,
            s,
            r,
            j,
        );
    }
    assert(a.shape().count() == st * n * n);
    lemma_hidden_weights(
        i,
        least,
        bound,
        m,
        a,
        b,
        mask,
        bsz,
        stack,
        len,
        changed,
    );
    lemma_mix_rows(i, m, u, v, value, value_again, stack, len, changed);
    lemma_side_by_side_rows(i, m, p, q, bsz, len, stack, changed);
    lemma_linear_rows(
        i,
        m.out_proj,
        vb.pp("out_proj"@),
        width,
        config.use_bias,
        s,
        t,
        batch,
        n,
        width,
        changed,
    );
}

proof fn lemma_scaled_rows(
    i: Numbers,
    a: Term,
    b: Term,
    factor: Scalar,
    batch: int,
    len: int,
    columns: int,
    changed: spec_fn(int, int) -> bool,
)
    requires
        is_stack(a, batch, len, columns),
        term::typ(b) == term::typ(a),
        term::typ(a.scale(factor)) is Some,
        same_rows(i.values(a), i.values(b), batch, len, columns, 1, changed),
    ensures
        is_stack(a.scale(factor), batch, len, columns),
        term::typ(b.scale(factor)) == term::typ(a.scale(factor)),
        same_rows(
            i.values(a.scale(factor)),
            i.values(b.scale(factor)),
            batch,
            len,
            columns,
            1,
            changed,
        ),
{
    let (p, q) = (a.scale(factor), b.scale(factor));
    assert(is_stack(p, batch, len, columns) && term::typ(q) == term::typ(p)) by {
        broadcast use crate::tensor::term::typing_rules;

    }
    assert(is_stack(b, batch, len, columns));
    assert forall|s: int, r: int, j: int|
        within(batch, len, columns, s, r, j) && !changed(s / 1, r) implies #[trigger] element(
        i.values(p),
        len,
        columns,
        s,
        r,
        j,
    ) == element(i.values(q), len, columns, s, r, j) by {
        assert(element(i.values(a), len, columns, s, r, j) == element(
            i.values(b),
            len,
            columns,
            s,
            r,
            j,
        ));
        let at = positions::at3(len, columns, s, r, j);
        numbers::lemma_scaled(i, a, factor, at);
        numbers::lemma_scaled(i, b, factor, at);
    }
}

} // verus!
