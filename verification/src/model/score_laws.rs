//! What attention computes, where arithmetic is exact.

use vstd::prelude::*;

use crate::config::VitsConfig;
use crate::model::attention;
use crate::model::attention::VitsAttention;
use crate::model::attention_laws;
use crate::model::channels;
use crate::model::channels::holds;
use crate::model::layer_laws;
use crate::model::no_mask;
use crate::model::numbers;
use crate::model::numbers::{is_stack, Numbers};
use crate::model::positions;
use crate::model::spline_laws;
use crate::nn::{Linear, ScopeView};
use crate::tensor::index;
use crate::tensor::ops::Op1;
use crate::tensor::places;
use crate::tensor::scalar;
use crate::tensor::scalar::{Scalar, ZERO_BITS};
use crate::tensor::shape::Shape;
use crate::tensor::term;
use crate::tensor::term::Term;

verus! {

broadcast use crate::tensor::term::strictness;

/// Number `d` of the row of a table for a distance: zero beyond the window.
pub open spec fn for_distance(
    table: spec_fn(int) -> real,
    window: int,
    dim: int,
    distance: int,
    d: int,
) -> real {
    if -window <= distance <= window {
        table((distance + window) * dim + d)
    } else {
        0real
    }
}

/// The table of the rows for all distances that occur, once for every matrix of the stack.
spec fn wide(m: VitsAttention, table: Term, stack: usize, len: usize) -> Term {
    let rows = m.relative_embeddings(table, len);
    rows.expand(Shape::S3(stack, rows.shape().spec_dim(1), m.head_dim))
}

/// A table of a layer that was built.
spec fn fits(m: VitsAttention, table: Term) -> bool {
    &&& term::typ(table) is Some
    &&& m.window_size < usize::MAX
    &&& table.shape() is S3
    &&& table.shape()->S3_0 == 1
    &&& table.shape()->S3_1 == 2 * m.window_size + 1
    &&& table.shape()->S3_2 == m.head_dim
}

/// Row `k` of the rows for all distances is that for the distance `k - (len - 1)`.
proof fn lemma_wide(
    i: Numbers,
    m: VitsAttention,
    table: Term,
    stack: usize,
    len: usize,
    s: int,
    k: int,
    d: int,
)
    requires
        (i.scalar)(scalar::scalar(ZERO_BITS)) == 0real,
        fits(m, table),
        term::typ(wide(m, table, stack, len)) is Some,
        0 <= s < stack,
        0 <= k < 2 * len - 1,
        0 <= d < m.head_dim,
    ensures
        wide(m, table, stack, len).shape() == Shape::S3(
            stack,
            (2 * len - 1) as usize,
            m.head_dim,
        ),
        i.at(wide(m, table, stack, len), s, k, d) == for_distance(
            i.values(table),
            m.window_size as int,
            m.head_dim as int,
            k - (len - 1),
            d,
        ),
{
    let rows = m.relative_embeddings(table, len);
    let y = wide(m, table, stack, len);
    assert(term::typ(rows) is Some);
    positions::lemma_relative_embeddings_type(m, table, len);
    let n = (2 * len - 1) as usize;
    let to = Shape::S3(stack, n, m.head_dim);
    assert(y == rows.expand(to));
    assert(y.shape() == to) by {
        broadcast use crate::tensor::term::typing_rules;

    }
    numbers::values_one(i, rows, Op1::Expand(to));
    places::lemma_repeated_3(rows.shape(), to, s, k, d);
    channels::lemma_only(n, n, k);
    channels::lemma_only(m.head_dim, m.head_dim, d);
    let dim = m.head_dim as int;
    assert((0 * n + k) * dim + d == k * dim + d);
    positions::lemma_relative_embeddings(m, table, len, k, d);
    let p = k * dim + d;
    numbers::lemma_moved(i, &rows, p);
    let window = m.window_size as int;
    let distance = k - (len - 1);
    if -window <= distance <= window {
        numbers::lemma_moved(i, &table, (distance + window) * dim + d);
    } else {
        let from = index::origin(rows, p);
        numbers::lemma_zero(i, from.0, from.1);
    }
}

/// The products of a query with a key and with the row for their distance.
pub open spec fn score_products(
    i: Numbers,
    query: Term,
    key: Term,
    table: spec_fn(int) -> real,
    window: int,
    dim: int,
    s: int,
    r: int,
    j: int,
) -> Seq<real> {
    Seq::new(
        dim as nat,
        |d: int|
            i.at(query, s, r, d) * (i.at(key, s, j, d) + for_distance(table, window, dim, j - r, d)),
    )
}

/// The types that lead to the scores.
proof fn lemma_score_types(
    m: VitsAttention,
    query: Term,
    key: Term,
    stack: usize,
    len: usize,
)
    requires
        fits(m, m.emb_rel_k@),
        is_stack(query, stack as int, len as int, m.head_dim as int),
        is_stack(key, stack as int, len as int, m.head_dim as int),
        term::typ(m.scores(query, key, stack, len)) is Some,
    ensures
        ({
            let n = len as int;
            let spread = wide(m, m.emb_rel_k@, stack, len);
            let turned = spread.transpose(1, 2);
            let x = query.matmul(turned);
            let by_place = attention::relative_to_absolute(x);
            let product = query.matmul(key.transpose(1, 2));
            &&& len >= 1
            &&& m.scores(query, key, stack, len) == product.add(by_place)
            &&& is_stack(spread, stack as int, 2 * n - 1, m.head_dim as int)
            &&& is_stack(turned, stack as int, m.head_dim as int, 2 * n - 1)
            &&& is_stack(x, stack as int, n, 2 * n - 1)
            &&& is_stack(key.transpose(1, 2), stack as int, m.head_dim as int, n)
            &&& is_stack(product, stack as int, n, n)
            &&& is_stack(by_place, stack as int, n, n)
            &&& is_stack(m.scores(query, key, stack, len), stack as int, n, n)
        }),
{
    let n = len as int;
    let spread = wide(m, m.emb_rel_k@, stack, len);
    let turned = spread.transpose(1, 2);
    let x = query.matmul(turned);
    let by_place = attention::relative_to_absolute(x);
    let product = query.matmul(key.transpose(1, 2));
    let scores = m.scores(query, key, stack, len);
    assert(scores == product.add(by_place));
    assert(term::typ(by_place) is Some);
    assert(term::typ(x) is Some);
    assert(term::typ(spread) is Some);
    let rows = m.relative_embeddings(m.emb_rel_k@, len);
    assert(term::typ(rows) is Some);
    positions::lemma_relative_embeddings_type(m, m.emb_rel_k@, len);
    assert(is_stack(spread, stack as int, 2 * n - 1, m.head_dim as int) && is_stack(
        turned,
        stack as int,
        m.head_dim as int,
        2 * n - 1,
    ) && is_stack(x, stack as int, n, 2 * n - 1) && is_stack(
        key.transpose(1, 2),
        stack as int,
        m.head_dim as int,
        n,
    ) && is_stack(product, stack as int, n, n) && term::typ(by_place) == term::typ(product)
        && term::typ(scores) == term::typ(product)) by {
        broadcast use crate::tensor::term::typing_rules;

    }
}

/// The score of two places is the inner product of the query at the first with the sum of the key
/// at the second and of the row that the checkpoint calls `emb_rel_k` for their distance; beyond
/// the window it is that with the key alone.
pub proof fn lemma_score(
    i: Numbers,
    m: VitsAttention,
    config: VitsConfig,
    vb: ScopeView,
    query: Term,
    key: Term,
    stack: usize,
    len: usize,
    s: int,
    r: int,
    j: int,
)
    requires
        (i.scalar)(scalar::scalar(ZERO_BITS)) == 0real,
        VitsAttention::failure(config, vb) is None,
        m.loaded(config, vb),
        is_stack(query, stack as int, len as int, m.head_dim as int),
        is_stack(key, stack as int, len as int, m.head_dim as int),
        term::typ(m.scores(query, key, stack, len)) is Some,
        0 <= s < stack,
        0 <= r < len,
        0 <= j < len,
    ensures
        is_stack(m.scores(query, key, stack, len), stack as int, len as int, len as int),
        i.at(m.scores(query, key, stack, len), s, r, j) == spline_laws::sum(
            score_products(
                i,
                query,
                key,
                i.values(
                    vb.tensor(
                        "emb_rel_k"@,
                        Shape::S3(1, (2 * config.window_size + 1) as usize, m.head_dim),
                    ),
                ),
                config.window_size as int,
                m.head_dim as int,
                s,
                r,
                j,
            ),
        ),
{
    let table = m.emb_rel_k@;
    let (st, n, d) = (stack as int, len as int, m.head_dim as int);
    let w = 2 * n - 1;
    assert(term::typ(wide(m, table, stack, len)) is Some);
    lemma_table(m, config, vb);
    lemma_score_types(m, query, key, stack, len);
    let spread = wide(m, table, stack, len);
    let turned = spread.transpose(1, 2);
    let x = query.matmul(turned);
    let by_place = attention::relative_to_absolute(x);
    let kt = key.transpose(1, 2);
    let product = query.matmul(kt);
    let at = positions::at3(n, n, s, r, j);
    numbers::lemma_sum(i, product, by_place, at);
    positions::lemma_relative_to_absolute_type(x);
    positions::lemma_relative_to_absolute(x, s, r, j);
    let k = j - r + n - 1;
    let from = positions::at3(n, w, s, r, k);
    numbers::lemma_moved(i, &by_place, at);
    numbers::lemma_moved(i, &x, from);
    numbers::lemma_product(i, query, turned, st, n, d, w, s, r, k);
    numbers::lemma_product(i, query, kt, st, n, d, n, s, r, j);
    let f = numbers::products(i.values(query), i.values(kt), n, d, n, s, r, j);
    let g = numbers::products(i.values(query), i.values(turned), n, d, w, s, r, k);
    let h = score_products(
        i,
        query,
        key,
        i.values(table),
        config.window_size as int,
        d,
        s,
        r,
        j,
    );
    assert forall|c: int| 0 <= c < h.len() implies #[trigger] h[c] == f[c] + g[c] by {
        numbers::lemma_transposed(i, key, st, n, d, s, j, c);
        numbers::lemma_transposed(i, spread, st, w, d, s, k, c);
        lemma_wide(i, m, table, stack, len, s, k, c);
        let (q, a, b) = (
            i.at(query, s, r, c),
            i.at(key, s, j, c),
            for_distance(i.values(table), config.window_size as int, d, j - r, c),
        );
        assert(q * (a + b) == q * a + q * b) by (nonlinear_arith);
    }
    channels::lemma_sum_of_sums(f, g, h);
}

/// The tables of a layer that was built.
proof fn lemma_table(m: VitsAttention, config: VitsConfig, vb: ScopeView)
    requires
        VitsAttention::failure(config, vb) is None,
        m.loaded(config, vb),
    ensures
        fits(m, m.emb_rel_k@),
        fits(m, m.emb_rel_v@),
{
    broadcast use crate::tensor::term::typing_rules;

}

/// A sum over numbers that are zero but for a part of them.
proof fn lemma_part_sum(s: Seq<real>, from: int, n: int)
    requires
        0 <= from,
        0 <= n,
        from + n <= s.len(),
        forall|k: int|
            0 <= k < s.len() && !(from <= k < from + n) ==> #[trigger] s[k] == 0real,
    ensures
        spline_laws::sum(s) == spline_laws::sum(s.subrange(from, from + n)),
    decreases s.len(),
{
    if from + n < s.len() {
        let front = s.drop_last();
        assert forall|k: int| 0 <= k < front.len() && !(from <= k < from + n) implies
            #[trigger] front[k] == 0real by {
            assert(front[k] == s[k]);
        }
        lemma_part_sum(front, from, n);
        assert(front.subrange(from, from + n) =~= s.subrange(from, from + n));
        assert(s[s.len() - 1] == 0real);
    } else if n == 0 {
        channels::lemma_zero_sum(s);
        assert(spline_laws::sum(s.subrange(from, from + n)) == 0real);
    } else {
        let front = s.drop_last();
        assert forall|k: int| 0 <= k < front.len() && !(from <= k < from + (n - 1)) implies
            #[trigger] front[k] == 0real by {
            assert(front[k] == s[k]);
        }
        lemma_part_sum(front, from, n - 1);
        let part = s.subrange(from, from + n);
        assert(part.drop_last() =~= front.subrange(from, from + (n - 1)));
        assert(part.last() == s.last());
    }
}

/// The products of the weights of a place with the values and with the rows for the distances.
pub open spec fn mix_products(
    i: Numbers,
    weights: Term,
    value: Term,
    table: spec_fn(int) -> real,
    window: int,
    dim: int,
    len: int,
    s: int,
    r: int,
    d: int,
) -> Seq<real> {
    Seq::new(
        len as nat,
        |j: int|
            i.at(weights, s, r, j) * (i.at(value, s, j, d) + for_distance(
                table,
                window,
                dim,
                j - r,
                d,
            )),
    )
}

/// What a place gets is the sum over all places of the value there and of the row that the
/// checkpoint calls `emb_rel_v` for the distance, each times the weight of the place.
pub proof fn lemma_mixture(
    i: Numbers,
    m: VitsAttention,
    config: VitsConfig,
    vb: ScopeView,
    weights: Term,
    value: Term,
    stack: usize,
    len: usize,
    s: int,
    r: int,
    d: int,
)
    requires
        (i.scalar)(scalar::scalar(ZERO_BITS)) == 0real,
        VitsAttention::failure(config, vb) is None,
        m.loaded(config, vb),
        is_stack(weights, stack as int, len as int, len as int),
        is_stack(value, stack as int, len as int, m.head_dim as int),
        term::typ(m.mix(weights, value, stack, len)) is Some,
        0 <= s < stack,
        0 <= r < len,
        0 <= d < m.head_dim,
    ensures
        is_stack(m.mix(weights, value, stack, len), stack as int, len as int, m.head_dim as int),
        i.at(m.mix(weights, value, stack, len), s, r, d) == spline_laws::sum(
            mix_products(
                i,
                weights,
                value,
                i.values(
                    vb.tensor(
                        "emb_rel_v"@,
                        Shape::S3(1, (2 * config.window_size + 1) as usize, m.head_dim),
                    ),
                ),
                config.window_size as int,
                m.head_dim as int,
                len as int,
                s,
                r,
                d,
            ),
        ),
{
    let table = m.emb_rel_v@;
    let (st, n, dim) = (stack as int, len as int, m.head_dim as int);
    let w = 2 * n - 1;
    let spread = wide(m, table, stack, len);
    let by_distance = attention::absolute_to_relative(weights);
    let (p, q) = (weights.matmul(value), by_distance.matmul(spread));
    let mix = m.mix(weights, value, stack, len);
    assert(mix == p.add(q));
    assert(term::typ(spread) is Some && term::typ(by_distance) is Some);
    lemma_table(m, config, vb);
    let rows = m.relative_embeddings(table, len);
    assert(term::typ(rows) is Some);
    positions::lemma_relative_embeddings_type(m, table, len);
    positions::lemma_absolute_to_relative_type(weights);
    assert(is_stack(spread, st, w, dim) && is_stack(p, st, n, dim) && is_stack(q, st, n, dim)
        && is_stack(by_distance, st, n, w) && is_stack(mix, st, n, dim)) by {
        broadcast use crate::tensor::term::typing_rules;

    }
    let at = positions::at3(n, dim, s, r, d);
    numbers::lemma_sum(i, p, q, at);
    numbers::lemma_product(i, weights, value, st, n, n, dim, s, r, d);
    numbers::lemma_product(i, by_distance, spread, st, n, w, dim, s, r, d);
    let f = numbers::products(i.values(weights), i.values(value), n, n, dim, s, r, d);
    let g = numbers::products(i.values(by_distance), i.values(spread), n, w, dim, s, r, d);
    let start = n - 1 - r;
    assert forall|k: int| 0 <= k < g.len() implies (!(start <= k < start + n) ==> #[trigger] g[k]
        == 0real) && (start <= k < start + n ==> g[k] == i.at(weights, s, r, k - start)
        * for_distance(i.values(table), config.window_size as int, dim, k - start - r, d)) by {
        positions::lemma_absolute_to_relative(weights, s, r, k);
        lemma_wide(i, m, table, stack, len, s, k, d);
        let here = positions::at3(n, w, s, r, k);
        numbers::lemma_moved(i, &by_distance, here);
        let j = r + k - (n - 1);
        let y = for_distance(i.values(table), config.window_size as int, dim, k - (n - 1), d);
        if 0 <= j < n {
            numbers::lemma_moved(i, &weights, positions::at3(n, n, s, r, j));
        } else {
            let from = index::origin(by_distance, here);
            numbers::lemma_zero(i, from.0, from.1);
            assert(0real * y == 0real) by (nonlinear_arith);
        }
    }
    lemma_part_sum(g, start, n);
    let part = g.subrange(start, start + n);
    let h = mix_products(
        i,
        weights,
        value,
        i.values(table),
        config.window_size as int,
        dim,
        n,
        s,
        r,
        d,
    );
    assert forall|j: int| 0 <= j < h.len() implies #[trigger] h[j] == f[j] + part[j] by {
        assert(part[j] == g[start + j]);
        let (x, a, b) = (
            i.at(weights, s, r, j),
            i.at(value, s, j, d),
            for_distance(i.values(table), config.window_size as int, dim, j - r, d),
        );
        assert(x * (a + b) == x * a + x * b) by (nonlinear_arith);
    }
    channels::lemma_sum_of_sums(f, part, h);
}

/// Output `o` of a dense layer at a place: with the weights, and if there is one the bias, that the
/// checkpoint holds under a name.
pub open spec fn dense(
    i: Numbers,
    config: VitsConfig,
    vb: ScopeView,
    x: Term,
    b: int,
    n: int,
    o: int,
) -> real {
    let size = config.hidden_size;
    spline_laws::sum(
        Seq::new(
            size as nat,
            |k: int|
                i.at(x, b, n, k) * i.values(vb.tensor("weight"@, Shape::S2(size, size)))(
                    o * size + k,
                ),
        ),
    ) + if config.use_bias {
        i.values(vb.tensor("bias"@, Shape::S1(size)))(o)
    } else {
        0real
    }
}

/// Sorted by head, a matrix of the stack holds the share of a head of the numbers at every place.
proof fn lemma_share(
    i: Numbers,
    m: VitsAttention,
    y: Term,
    bsz: usize,
    len: usize,
    s: int,
    r: int,
    d: int,
)
    requires
        bsz * m.num_heads <= usize::MAX,
        m.embed_dim == m.num_heads * m.head_dim,
        y.shape() == Shape::S3(bsz, len, m.embed_dim),
        term::typ(attention_laws::projected(m, y, bsz, len)) is Some,
        0 <= s < bsz * m.num_heads,
        0 <= r < len,
        0 <= d < m.head_dim,
    ensures
        is_stack(
            attention_laws::projected(m, y, bsz, len),
            bsz * m.num_heads,
            len as int,
            m.head_dim as int,
        ),
        0 <= s / (m.num_heads as int) < bsz,
        0 <= (s % (m.num_heads as int)) * m.head_dim + d < m.embed_dim,
        i.at(attention_laws::projected(m, y, bsz, len), s, r, d) == i.at(
            y,
            s / (m.num_heads as int),
            r,
            (s % (m.num_heads as int)) * m.head_dim + d,
        ),
{
    let split = Shape::S4(bsz, len, m.num_heads, m.head_dim);
    let (l, h, dim) = (len as int, m.num_heads as int, m.head_dim as int);
    let f = y.reshape(split);
    let u = f.transpose(1, 2);
    let p = attention_laws::projected(m, y, bsz, len);
    assert(term::typ(u.contiguous()) is Some);
    assert(term::typ(f) is Some);
    assert(numbers::splits(f, l, h, dim) && is_stack(p, bsz * m.num_heads, l, dim)) by {
        broadcast use crate::tensor::term::typing_rules;

    }
    assert(i.values(p) == i.values(u) && i.values(f) == i.values(y)) by {
        broadcast use crate::model::numbers::number_rules;

    }
    attention_laws::lemma_head(bsz as int, h, s);
    let (n, k) = (s / h, s % h);
    numbers::lemma_exchanged(i, f, l, h, dim, n, k, r, d);
    attention_laws::lemma_head_place(l, h, dim, n, r, k, d);
    attention_laws::lemma_part(h, dim, k, d);
}

/// What goes into the softmax for two places: the score, and what the mask adds to it.
pub open spec fn masked_score(
    i: Numbers,
    scores: Term,
    mask: Option<Term>,
    heads: int,
    len: int,
    s: int,
    r: int,
    j: int,
) -> real {
    i.at(scores, s, r, j) + match mask {
        Some(k) => numbers::element(i.values(k), len, len, s / heads, r, j),
        None => 0real,
    }
}

/// The exponentials of what goes into the softmax for a place.
pub open spec fn exponentials_of(
    i: Numbers,
    scores: Term,
    mask: Option<Term>,
    heads: int,
    len: int,
    s: int,
    r: int,
) -> Seq<real> {
    Seq::new(
        len as nat,
        |j: int| (i.exponential)(masked_score(i, scores, mask, heads, len, s, r, j)),
    )
}

/// The weight of a place is the exponential of its masked score, divided by the sum of those of all
/// places.
pub proof fn lemma_weight(
    i: Numbers,
    m: VitsAttention,
    scores: Term,
    mask: Option<Term>,
    bsz: usize,
    stack: usize,
    len: usize,
    s: int,
    r: int,
    j: int,
)
    requires
        stack == bsz * m.num_heads,
        is_stack(scores, stack as int, len as int, len as int),
        mask matches Some(k) ==> k.shape() == Shape::S4(bsz, 1, len, len),
        term::typ(m.weights(scores, mask, bsz, stack, len)) is Some,
        0 <= s < stack,
        0 <= r < len,
        0 <= j < len,
    ensures
        is_stack(m.weights(scores, mask, bsz, stack, len), stack as int, len as int, len as int),
        i.at(m.weights(scores, mask, bsz, stack, len), s, r, j) == (i.exponential)(
            masked_score(i, scores, mask, m.num_heads as int, len as int, s, r, j),
        ) / spline_laws::sum(
            exponentials_of(i, scores, mask, m.num_heads as int, len as int, s, r),
        ),
{
    let (st, n, h) = (stack as int, len as int, m.num_heads as int);
    let x = match mask {
        Some(k) => attention_laws::masked_scores(m, scores, k, bsz, stack, len),
        None => scores,
    };
    assert(m.weights(scores, mask, bsz, stack, len) == x.softmax());
    assert(term::typ(x) is Some);
    assert(is_stack(x, st, n, n) && is_stack(x.softmax(), st, n, n)) by {
        broadcast use crate::tensor::term::typing_rules;

    }
    numbers::lemma_softmax(i, x, st, n, n, s, r, j);
    let f = numbers::exponentials(i.exponential, i.values(x), n, n, s, r);
    let g = exponentials_of(i, scores, mask, h, n, s, r);
    assert forall|k: int| 0 <= k < n implies #[trigger] numbers::element(i.values(x), n, n, s, r, k)
        == masked_score(i, scores, mask, h, n, s, r, k) by {
        if let Some(a) = mask {
            attention_laws::lemma_masked_score(i, m, scores, a, bsz, stack, len, s, r, k);
        }
    }
    assert forall|k: int| 0 <= k < f.len() implies #[trigger] f[k] == g[k] by {
        assert(numbers::element(i.values(x), n, n, s, r, k) == masked_score(
            i,
            scores,
            mask,
            h,
            n,
            s,
            r,
            k,
        ));
    }
    assert(f =~= g);
    assert(numbers::element(i.values(x), n, n, s, r, j) == masked_score(
        i,
        scores,
        mask,
        h,
        n,
        s,
        r,
        j,
    ));
}

/// With the heads side by side again, a place has the shares of all heads.
proof fn lemma_side_by_side(
    i: Numbers,
    m: VitsAttention,
    a: Term,
    bsz: usize,
    len: usize,
    b: int,
    r: int,
    c: int,
)
    requires
        bsz * m.num_heads <= usize::MAX,
        m.embed_dim == m.num_heads * m.head_dim,
        is_stack(a, bsz * m.num_heads, len as int, m.head_dim as int),
        term::typ(attention_laws::side_by_side(m, a, bsz, len)) is Some,
        0 <= b < bsz,
        0 <= r < len,
        0 <= c < m.embed_dim,
    ensures
        attention_laws::side_by_side(m, a, bsz, len).shape() == Shape::S3(bsz, len, m.embed_dim),
        i.at(attention_laws::side_by_side(m, a, bsz, len), b, r, c) == i.at(
            a,
            b * m.num_heads + c / (m.head_dim as int),
            r,
            c % (m.head_dim as int),
        ),
{
    let split = Shape::S4(bsz, m.num_heads, len, m.head_dim);
    let flat = Shape::S3(bsz, len, m.embed_dim);
    let (l, h, d) = (len as int, m.num_heads as int, m.head_dim as int);
    let f = a.reshape(split);
    let u = f.transpose(1, 2);
    let p = attention_laws::side_by_side(m, a, bsz, len);
    assert(term::typ(u.reshape(flat)) is Some);
    assert(term::typ(f) is Some);
    assert(numbers::splits(f, h, l, d) && p.shape() == flat) by {
        broadcast use crate::tensor::term::typing_rules;

    }
    assert(i.values(p) == i.values(u) && i.values(f) == i.values(a)) by {
        broadcast use crate::model::numbers::number_rules;

    }
    attention_laws::lemma_head(h, d, c);
    let (k, t) = (c / d, c % d);
    numbers::lemma_exchanged(i, f, h, l, d, b, r, k, t);
    attention_laws::lemma_head_place(l, h, d, b, r, k, t);
}

/// What attention computes on its way.
pub struct Attended {
    pub query: Term,
    pub key: Term,
    pub value: Term,
    pub scores: Term,
    pub weights: Term,
    pub mixed: Term,
}

/// Attention projects every place to a query, a key and a value, with the weights that the
/// checkpoint calls `q_proj`, `k_proj` and `v_proj`, and parts them among the heads; queries are
/// divided by the square root of a head's share. Scores become weights under the mask, and weights
/// mix the values. What the heads mixed is projected with the weights that the checkpoint calls
/// `out_proj`.
pub proof fn lemma_attention(
    i: Numbers,
    m: VitsAttention,
    config: VitsConfig,
    vb: ScopeView,
    x: Term,
    mask: Option<Term>,
) -> (a: Attended)
    requires
        i.reckons(),
        VitsAttention::failure(config, vb) is None,
        m.loaded(config, vb),
        x.shape() is S3,
        mask matches Some(k) ==> k.shape() == Shape::S4(
            x.shape()->S3_0,
            1,
            x.shape()->S3_1,
            x.shape()->S3_1,
        ),
        term::typ(m.output(x, mask)) is Some,
    ensures
        ({
            let (batch, len) = (x.shape()->S3_0, x.shape()->S3_1);
            let (heads, dim) = (
                config.num_attention_heads as int,
                config.hidden_size as int / config.num_attention_heads as int,
            );
            let stack = batch * heads;
            let n = len as int;
            let table = |name: Seq<char>|
                i.values(
                    vb.tensor(
                        name,
                        Shape::S3(1, (2 * config.window_size + 1) as usize, dim as usize),
                    ),
                );
            &&& m.output(x, mask).shape() == x.shape()
            &&& x.shape()->S3_2 == config.hidden_size
            &&& is_stack(a.query, stack, n, dim)
            &&& is_stack(a.key, stack, n, dim)
            &&& is_stack(a.value, stack, n, dim)
            &&& is_stack(a.scores, stack, n, n)
            &&& is_stack(a.weights, stack, n, n)
            &&& is_stack(a.mixed, stack, n, dim)
            &&& forall|s: int, r: int, d: int| #[trigger]
                holds(a.query, s, r, d) ==> i.at(a.query, s, r, d) == dense(
                    i,
                    config,
                    vb.pp("q_proj"@),
                    x,
                    s / heads,
                    r,
                    (s % heads) * dim + d,
                ) * (1real / (i.scalar)(Scalar::Sqrt(dim as usize)))
            &&& forall|s: int, r: int, d: int| #[trigger]
                holds(a.key, s, r, d) ==> i.at(a.key, s, r, d) == dense(
                    i,
                    config,
                    vb.pp("k_proj"@),
                    x,
                    s / heads,
                    r,
                    (s % heads) * dim + d,
                )
            &&& forall|s: int, r: int, d: int| #[trigger]
                holds(a.value, s, r, d) ==> i.at(a.value, s, r, d) == dense(
                    i,
                    config,
                    vb.pp("v_proj"@),
                    x,
                    s / heads,
                    r,
                    (s % heads) * dim + d,
                )
            &&& forall|s: int, r: int, j: int| #[trigger]
                holds(a.scores, s, r, j) ==> i.at(a.scores, s, r, j) == spline_laws::sum(
                    score_products(
                        i,
                        a.query,
                        a.key,
                        table("emb_rel_k"@),
                        config.window_size as int,
                        dim,
                        s,
                        r,
                        j,
                    ),
                )
            &&& forall|s: int, r: int, j: int| #[trigger]
                holds(a.weights, s, r, j) ==> i.at(a.weights, s, r, j) == (i.exponential)(
                    masked_score(i, a.scores, mask, heads, n, s, r, j),
                ) / spline_laws::sum(exponentials_of(i, a.scores, mask, heads, n, s, r))
            &&& forall|s: int, r: int, d: int| #[trigger]
                holds(a.mixed, s, r, d) ==> i.at(a.mixed, s, r, d) == spline_laws::sum(
                    mix_products(
                        i,
                        a.weights,
                        a.value,
                        table("emb_rel_v"@),
                        config.window_size as int,
                        dim,
                        n,
                        s,
                        r,
                        d,
                    ),
                )
            &&& forall|b: int, r: int, c: int| #[trigger]
                holds(x, b, r, c) ==> i.at(m.output(x, mask), b, r, c) == gathered_sum(
                    i,
                    config,
                    vb.pp("out_proj"@),
                    a.mixed,
                    heads,
                    dim,
                    b,
                    r,
                    c,
                )
        }),
{
    reveal(VitsAttention::output);
    let (bsz, len, width) = (x.shape()->S3_0, x.shape()->S3_1, m.embed_dim);
    let stack = (bsz * m.num_heads) as usize;
    let (st, n, dim, heads) = (stack as int, len as int, m.head_dim as int, m.num_heads as int);
    vstd::arithmetic::div_mod::lemma_fundamental_div_mod(width as int, heads);
    assert(width == heads * dim);
    let f = Scalar::InverseSqrt(m.head_dim);
    let (qx, kx, vx) = (m.q_proj.output(x), m.k_proj.output(x), m.v_proj.output(x));
    let query = attention_laws::projected(m, qx.scale(f), bsz, len);
    let key = attention_laws::projected(m, kx, bsz, len);
    let value = attention_laws::projected(m, vx, bsz, len);
    let scores = m.scores(query, key, stack, len);
    let weights = m.weights(scores, mask, bsz, stack, len);
    let mixed = m.mix(weights, value, stack, len);
    let side = attention_laws::side_by_side(m, mixed, bsz, len);
    if bsz * m.num_heads > usize::MAX {
        assert(m.output(x, mask) == Term::undefined());
    }
    assert(m.output(x, mask) == m.out_proj.output(side));
    assert(term::typ(side) is Some);
    assert(term::typ(mixed) is Some);
    assert(term::typ(weights.matmul(value)) is Some);
    assert(term::typ(weights) is Some && term::typ(value) is Some);
    assert(term::typ(scores) is Some);
    assert(term::typ(query) is Some && term::typ(key) is Some);
    assert(term::typ(qx.scale(f)) is Some && term::typ(kx) is Some && term::typ(vx) is Some);
    layer_laws::lemma_dense(i, m.q_proj, vb.pp("q_proj"@), width, width, config.use_bias, x, 0, 0, 0);
    layer_laws::lemma_dense(i, m.k_proj, vb.pp("k_proj"@), width, width, config.use_bias, x, 0, 0, 0);
    layer_laws::lemma_dense(i, m.v_proj, vb.pp("v_proj"@), width, width, config.use_bias, x, 0, 0, 0);
    channels::lemma_scaled_type(qx, f);
    lemma_stack(m, qx.scale(f), bsz, len);
    lemma_stack(m, kx, bsz, len);
    lemma_stack(m, vx, bsz, len);
    lemma_table(m, config, vb);
    lemma_score_types(m, query, key, stack, len);
    lemma_weights_type(m, scores, mask, bsz, stack, len);
    lemma_mix_type(m, weights, value, stack, len);
    no_mask::lemma_reshaped_shape(
        mixed.reshape(Shape::S4(bsz, m.num_heads, len, m.head_dim)).transpose(1, 2),
        Shape::S3(bsz, len, width),
    );
    assert(side.shape() == Shape::S3(bsz, len, width)) by {
        broadcast use crate::tensor::term::typing_rules;

    }
    layer_laws::lemma_dense(i, m.out_proj, vb.pp("out_proj"@), width, width, config.use_bias, side, 0, 0, 0);
    assert forall|s: int, r: int, d: int| #[trigger] holds(query, s, r, d) implies i.at(
        query,
        s,
        r,
        d,
    ) == dense(i, config, vb.pp("q_proj"@), x, s / heads, r, (s % heads) * dim + d) * (1real
        / (i.scalar)(Scalar::Sqrt(m.head_dim))) by {
        lemma_share(i, m, qx.scale(f), bsz, len, s, r, d);
        let (b, c) = (s / heads, (s % heads) * dim + d);
        assert(holds(qx, b, r, c));
        channels::lemma_scaled(i, qx, f, b, r, c);
        lemma_dense_is(i, m.q_proj, config, vb.pp("q_proj"@), x, b, r, c);
    }
    assert forall|s: int, r: int, d: int| #[trigger] holds(key, s, r, d) implies i.at(key, s, r, d)
        == dense(i, config, vb.pp("k_proj"@), x, s / heads, r, (s % heads) * dim + d) by {
        lemma_share(i, m, kx, bsz, len, s, r, d);
        let (b, c) = (s / heads, (s % heads) * dim + d);
        assert(holds(kx, b, r, c));
        lemma_dense_is(i, m.k_proj, config, vb.pp("k_proj"@), x, b, r, c);
    }
    assert forall|s: int, r: int, d: int| #[trigger] holds(value, s, r, d) implies i.at(
        value,
        s,
        r,
        d,
    ) == dense(i, config, vb.pp("v_proj"@), x, s / heads, r, (s % heads) * dim + d) by {
        lemma_share(i, m, vx, bsz, len, s, r, d);
        let (b, c) = (s / heads, (s % heads) * dim + d);
        assert(holds(vx, b, r, c));
        lemma_dense_is(i, m.v_proj, config, vb.pp("v_proj"@), x, b, r, c);
    }
    let k_table = i.values(
        vb.tensor(
            "emb_rel_k"@,
            Shape::S3(1, (2 * config.window_size + 1) as usize, m.head_dim),
        ),
    );
    let v_table = i.values(
        vb.tensor(
            "emb_rel_v"@,
            Shape::S3(1, (2 * config.window_size + 1) as usize, m.head_dim),
        ),
    );
    assert forall|s: int, r: int, j: int| #[trigger] holds(scores, s, r, j) implies i.at(
        scores,
        s,
        r,
        j,
    ) == spline_laws::sum(
        score_products(i, query, key, k_table, config.window_size as int, dim, s, r, j),
    ) by {
        lemma_score(i, m, config, vb, query, key, stack, len, s, r, j);
    }
    assert forall|s: int, r: int, j: int| #[trigger] holds(weights, s, r, j) implies i.at(
        weights,
        s,
        r,
        j,
    ) == (i.exponential)(masked_score(i, scores, mask, heads, n, s, r, j)) / spline_laws::sum(
        exponentials_of(i, scores, mask, heads, n, s, r),
    ) by {
        lemma_weight(i, m, scores, mask, bsz, stack, len, s, r, j);
    }
    assert forall|s: int, r: int, d: int| #[trigger] holds(mixed, s, r, d) implies i.at(
        mixed,
        s,
        r,
        d,
    ) == spline_laws::sum(
        mix_products(i, weights, value, v_table, config.window_size as int, dim, n, s, r, d),
    ) by {
        lemma_mixture(i, m, config, vb, weights, value, stack, len, s, r, d);
    }
    assert forall|b: int, r: int, c: int| #[trigger] holds(x, b, r, c) implies i.at(
        m.output(x, mask),
        b,
        r,
        c,
    ) == gathered_sum(i, config, vb.pp("out_proj"@), mixed, heads, dim, b, r, c) by {
        let scope = vb.pp("out_proj"@);
        assert(holds(m.out_proj.output(side), b, r, c));
        lemma_dense_is(i, m.out_proj, config, scope, side, b, r, c);
        let w = i.values(scope.tensor("weight"@, Shape::S2(width, width)));
        let g = Seq::new(width as nat, |k: int| i.at(side, b, r, k) * w(c * width + k));
        let h = gathered_products(i, w, mixed, width as int, heads, dim, b, r, c);
        assert forall|k: int| 0 <= k < g.len() implies #[trigger] g[k] == h[k] by {
            lemma_side_by_side(i, m, mixed, bsz, len, b, r, k);
        }
        assert(g =~= h);
    }
    Attended { query, key, value, scores, weights, mixed }
}

/// The products of what the heads mixed for a place with the weights of an output.
pub open spec fn gathered_products(
    i: Numbers,
    w: spec_fn(int) -> real,
    mixed: Term,
    size: int,
    heads: int,
    dim: int,
    b: int,
    r: int,
    c: int,
) -> Seq<real> {
    Seq::new(
        size as nat,
        |k: int| i.at(mixed, b * heads + k / dim, r, k % dim) * w(c * size + k),
    )
}

/// Output `c` of a dense layer over what the heads mixed for a place, one head behind the other.
pub open spec fn gathered_sum(
    i: Numbers,
    config: VitsConfig,
    vb: ScopeView,
    mixed: Term,
    heads: int,
    dim: int,
    b: int,
    r: int,
    c: int,
) -> real {
    let size = config.hidden_size;
    spline_laws::sum(
        gathered_products(
            i,
            i.values(vb.tensor("weight"@, Shape::S2(size, size))),
            mixed,
            size as int,
            heads,
            dim,
            b,
            r,
            c,
        ),
    ) + if config.use_bias {
        i.values(vb.tensor("bias"@, Shape::S1(size)))(c)
    } else {
        0real
    }
}

proof fn lemma_dense_is(
    i: Numbers,
    layer: Linear,
    config: VitsConfig,
    vb: ScopeView,
    x: Term,
    b: int,
    n: int,
    o: int,
)
    requires
        layer.loaded(vb, config.hidden_size, config.hidden_size, config.use_bias),
        holds(layer.output(x), b, n, o),
        x.shape() is S3,
    ensures
        i.at(layer.output(x), b, n, o) == dense(i, config, vb, x, b, n, o),
{
    let size = config.hidden_size;
    layer_laws::lemma_dense(i, layer, vb, size, size, config.use_bias, x, b, n, o);
}

proof fn lemma_stack(m: VitsAttention, y: Term, bsz: usize, len: usize)
    requires
        bsz * m.num_heads <= usize::MAX,
        term::typ(attention_laws::projected(m, y, bsz, len)) is Some,
    ensures
        is_stack(
            attention_laws::projected(m, y, bsz, len),
            bsz * m.num_heads,
            len as int,
            m.head_dim as int,
        ),
{
    broadcast use crate::tensor::term::typing_rules;

}

proof fn lemma_weights_type(
    m: VitsAttention,
    scores: Term,
    mask: Option<Term>,
    bsz: usize,
    stack: usize,
    len: usize,
)
    requires
        is_stack(scores, stack as int, len as int, len as int),
        term::typ(m.weights(scores, mask, bsz, stack, len)) is Some,
    ensures
        is_stack(m.weights(scores, mask, bsz, stack, len), stack as int, len as int, len as int),
{
    broadcast use crate::tensor::term::typing_rules;

}

proof fn lemma_mix_type(m: VitsAttention, weights: Term, value: Term, stack: usize, len: usize)
    requires
        is_stack(weights, stack as int, len as int, len as int),
        is_stack(value, stack as int, len as int, m.head_dim as int),
        term::typ(m.mix(weights, value, stack, len)) is Some,
    ensures
        is_stack(m.mix(weights, value, stack, len), stack as int, len as int, m.head_dim as int),
{
    let p = weights.matmul(value);
    assert(term::typ(p) is Some);
    assert(is_stack(p, stack as int, len as int, m.head_dim as int) && term::typ(
        m.mix(weights, value, stack, len),
    ) == term::typ(p)) by {
        broadcast use crate::tensor::term::typing_rules;

    }
}

} // verus!
