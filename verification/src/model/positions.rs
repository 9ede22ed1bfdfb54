//! What the changes between positions and distances in attention do to single elements.

use vstd::prelude::*;

use crate::model::attention;
use crate::model::attention::VitsAttention;
use crate::tensor::index;
use crate::tensor::ops::Leaf;
use crate::tensor::scalar;
use crate::tensor::scalar::ZERO_BITS;
use crate::tensor::shape;
use crate::tensor::shape::Shape;
use crate::tensor::term;
use crate::tensor::term::Term;

verus! {

/// The position of element `[a, b, c]` of a tensor whose last two dimensions are given.
pub open spec fn at3(rows: int, columns: int, a: int, b: int, c: int) -> int {
    (a * rows + b) * columns + c
}

/// Whether an expression is zero at every place.
pub open spec fn is_zero(t: Term) -> bool {
    match t {
        Term::Zero(Leaf::Fill(value, _)) => value == scalar::scalar(ZERO_BITS),
        _ => false,
    }
}

proof fn lemma_pad_last_shape(x: Term, n: usize)
    requires
        term::typ(attention::pad_last(x, n)) is Some,
        x.shape() is S3 || x.shape() is S2,
    ensures
        match x.shape() {
            Shape::S3(a, b, c) => c + n <= usize::MAX && attention::pad_last(x, n).shape()
                == Shape::S3(a, b, (c + n) as usize),
            Shape::S2(a, b) => b + n <= usize::MAX && attention::pad_last(x, n).shape()
                == Shape::S2(a, (b + n) as usize),
            _ => true,
        },
{
    broadcast use crate::tensor::term::typing_rules;

}

/// An element of a line with zeros behind it: one of the line's, or zero.
proof fn lemma_pad_last(x: Term, n: usize, o: int, k: int)
    requires
        term::typ(attention::pad_last(x, n)) is Some,
        x.shape() is S3 || x.shape() is S2,
        ({
            let len = x.shape().spec_dim(x.shape().spec_rank() - 1) as int;
            0 <= k < len + n
        }),
    ensures
        ({
            let len = x.shape().spec_dim(x.shape().spec_rank() - 1) as int;
            let found = index::origin(
                attention::pad_last(x, n),
                index::place(len + n, 1, o, k, 0),
            );
            if k < len {
                found == index::origin(x, index::place(len, 1, o, k, 0))
            } else {
                is_zero(found.0)
            }
        }),
{
    broadcast use crate::tensor::term::typing_rules;

    if n > 0 {
        let last = x.shape().spec_rank() - 1;
        let zeros = Term::zeros(x.dtype(), x.shape().spec_with_dim(last, n));
        index::lemma_origin_concat(x, zeros, last as usize, o, k, 0);
    }
}

/// The position of an entry of the last dimension.
proof fn lemma_last(n: int, o: int, k: int)
    ensures
        index::place(n, 1, o, k, 0) == o * n + k,
{
}

proof fn lemma_row(b: int, m: int, i: int, w: int)
    ensures
        (b * m + i) * w == b * (m * w) + i * w,
{
    assert((b * m + i) * w == b * (m * w) + i * w) by (nonlinear_arith);
}

/// Where an element of a folded row lies in the row, and where it lies in the rows by distance.
proof fn lemma_folded_place(l: int, b: int, i: int, j: int)
    requires
        0 <= i < l,
        0 <= j < l,
    ensures
        ({
            let w = 2 * l - 1;
            let q = i * w + l - 1 + j;
            let e = j - i + l - 1;
            &&& 0 <= q < 2 * l * l
            &&& index::place(l + 1, w, b, i, l - 1 + j) == index::place(
                2 * l * l + (l - 1),
                1,
                b,
                q,
                0,
            )
            &&& index::place(2 * l * l, 1, b, q, 0) == index::place(2 * l, 1, b * l + i, e, 0)
        }),
{
    let w = 2 * l - 1;
    let q = i * w + l - 1 + j;
    vstd::arithmetic::mul::lemma_mul_inequality(i, l - 1, w);
    vstd::arithmetic::mul::lemma_mul_nonnegative(i, w);
    assert((l - 1) * (2 * l - 1) == 2 * l * l - 3 * l + 1) by (nonlinear_arith);
    lemma_row(b, l + 1, i, w);
    assert((l + 1) * (2 * l - 1) == 2 * l * l + (l - 1)) by (nonlinear_arith);
    lemma_row(b, l, i, 2 * l);
    assert(l * (2 * l) == 2 * l * l) by (nonlinear_arith);
    assert(i * (2 * l - 1) == i * (2 * l) - i) by (nonlinear_arith);
}

/// Sorted by place, the score of query `i` and key `j` is that for the distance `j - i`.
pub proof fn lemma_relative_to_absolute(x: Term, b: int, i: int, j: int)
    requires
        term::typ(x) is Some,
        x.shape() is S3,
        ({
            let length = x.shape()->S3_1 as int;
            &&& x.shape()->S3_2 == 2 * length - 1
            &&& shape::at_least_one(x.shape()->S3_0) * (2 * length * length + length - 1)
                <= usize::MAX
            &&& 0 <= b < x.shape()->S3_0
            &&& 0 <= i < length
            &&& 0 <= j < length
        }),
    ensures
        ({
            let length = x.shape()->S3_1 as int;
            index::origin(
                attention::relative_to_absolute(x),
                at3(length, length, b, i, j),
            ) == index::origin(x, at3(length, 2 * length - 1, b, i, j - i + length - 1))
        }),
{
    lemma_relative_to_absolute_type(x);
    broadcast use crate::tensor::term::typing_rules;

    let stack = x.shape()->S3_0;
    let length = x.shape()->S3_1;
    let l = length as int;
    let w = 2 * l - 1;
    let wide = attention::pad_last(x, 1);
    let flat = wide.reshape(Shape::S2(stack, (2 * length * length) as usize));
    let longer = attention::pad_last(flat, (length - 1) as usize);
    let folded = longer.reshape(
        Shape::S3(stack, (length + 1) as usize, (2 * length - 1) as usize),
    );
    let cut = folded.narrow(1, 0, length);

    assert(length > 0 && 2 * length * length <= usize::MAX);
    lemma_pad_last_shape(x, 1);
    assert(flat.shape() == Shape::S2(stack, (2 * length * length) as usize));
    lemma_pad_last_shape(flat, (length - 1) as usize);

    let e = j - i + l - 1;
    let q = i * w + l - 1 + j;
    index::lemma_origin_narrow(cut, 2, (length - 1) as usize, length, b * l + i, j, 0);
    index::lemma_origin_narrow(folded, 1, 0, length, b, i, l - 1 + j);
    lemma_last(w, b * l + i, l - 1 + j);
    lemma_last(l, b * l + i, j);
    assert(index::place(w, 1, b * l + i, l - 1 + j, 0) == index::place(l, w, b, i, l - 1 + j));
    assert(at3(l, l, b, i, j) == index::place(l, 1, b * l + i, j, 0));

    lemma_folded_place(l, b, i, j);
    lemma_pad_last(flat, (length - 1) as usize, b, q);
    lemma_pad_last(x, 1, b * l + i, e);
}

/// Sorted by distance, entry `k` for query `i` is the weight of the key at the distance
/// `k - (length - 1)`, and zero where there is no such key.
pub proof fn lemma_absolute_to_relative(x: Term, b: int, i: int, k: int)
    requires
        term::typ(x) is Some,
        x.shape() is S3,
        ({
            let length = x.shape()->S3_1 as int;
            &&& x.shape()->S3_2 == length
            &&& shape::at_least_one(x.shape()->S3_0) * (2 * length * length) <= usize::MAX
            &&& 0 <= b < x.shape()->S3_0
            &&& 0 <= i < length
            &&& 0 <= k < 2 * length - 1
        }),
    ensures
        ({
            let length = x.shape()->S3_1 as int;
            let j = i + k - (length - 1);
            let found = index::origin(
                attention::absolute_to_relative(x),
                at3(length, 2 * length - 1, b, i, k),
            );
            if 0 <= j < length {
                found == index::origin(x, at3(length, length, b, i, j))
            } else {
                is_zero(found.0)
            }
        }),
{
    lemma_absolute_to_relative_type(x);
    broadcast use crate::tensor::term::typing_rules;

    let stack = x.shape()->S3_0;
    let length = x.shape()->S3_1;
    let l = length as int;
    let w = 2 * l - 1;
    let wide = attention::pad_last(x, (length - 1) as usize);
    let flat = wide.reshape(Shape::S2(stack, (2 * length * length - length) as usize));
    let longer = attention::pad_front(flat, length);
    let folded = longer.reshape(Shape::S3(stack, length, (2 * length) as usize));

    assert(length > 0 && 2 * length * length <= usize::MAX);
    lemma_pad_last_shape(x, (length - 1) as usize);
    assert(2 * l * l - l == l * w && l * w >= 0) by (nonlinear_arith)
        requires
            w == 2 * l - 1,
            l > 0,
    ;
    assert(flat.shape() == Shape::S2(stack, (l * w) as usize));
    let zeros = Term::zeros(flat.dtype(), Shape::S2(stack, length));
    assert(longer == zeros.concat(flat, 1));
    assert(folded.shape() == Shape::S3(stack, length, (2 * length) as usize));

    let e = i + k - (l - 1);
    let q = i * (2 * l) + k + 1;
    index::lemma_origin_narrow(folded, 2, 1, (2 * length - 1) as usize, b * l + i, k, 0);
    lemma_last(w, b * l + i, k);
    assert(at3(l, w, b, i, k) == index::place(w, 1, b * l + i, k, 0));
    lemma_row(b, l, i, 2 * l);
    assert(l * (2 * l) == l + l * (2 * l - 1)) by (nonlinear_arith);
    assert((l - 1) * (2 * l) == l * (2 * l) - 2 * l) by (nonlinear_arith);
    vstd::arithmetic::mul::lemma_mul_inequality(i, l - 1, 2 * l);
    vstd::arithmetic::mul::lemma_mul_nonnegative(i, 2 * l);
    assert(index::place(2 * l, 1, b * l + i, 1 + k, 0) == index::place(l + l * w, 1, b, q, 0));
    assert(0 <= q < l + l * w);
    index::lemma_origin_concat(zeros, flat, 1, b, q, 0);
    if q < l {
        assert(i == 0) by (nonlinear_arith)
            requires
                q == i * (2 * l) + k + 1,
                q < l,
                0 <= i,
                0 <= k,
                l > 0,
        ;
        assert(e < 0);
    } else if e < 0 {
        assert(i > 0) by (nonlinear_arith)
            requires
                q == i * (2 * l) + k + 1,
                q >= l,
                e == i + k - (l - 1),
                e < 0,
                0 <= i,
        ;
        assert((i - 1) * (2 * l - 1) == i * (2 * l) - i - (2 * l - 1)) by (nonlinear_arith);
        lemma_row(b, l, i - 1, w);
        assert(index::place(l * w, 1, b, q - l, 0) == index::place(
            w,
            1,
            b * l + (i - 1),
            e + w,
            0,
        ));
        lemma_pad_last(x, (length - 1) as usize, b * l + (i - 1), e + w);
    } else {
        assert(i * (2 * l - 1) == i * (2 * l) - i) by (nonlinear_arith);
        lemma_row(b, l, i, w);
        assert(index::place(l * w, 1, b, q - l, 0) == index::place(w, 1, b * l + i, e, 0));
        lemma_pad_last(x, (length - 1) as usize, b * l + i, e);
    }
}

/// A product is no greater where its last factor is no greater.
proof fn lemma_no_more(h: int, a: int, b: int)
    requires
        h >= 1,
        0 <= a <= b,
    ensures
        h * a <= h * b,
        a <= h * a,
{
    vstd::arithmetic::mul::lemma_mul_inequality(a, b, h);
    assert(h * a == a * h && h * b == b * h) by (nonlinear_arith);
    assert(a <= h * a) by (nonlinear_arith)
        requires
            h >= 1,
            a >= 0,
    ;
}

/// A tensor of three dimensions whose last one grows.
proof fn lemma_pad_last_typed(x: Term, n: usize)
    requires
        term::typ(x) is Some,
        x.shape() is S3 || x.shape() is S2,
        ({
            let last = x.shape().spec_rank() - 1;
            let len = x.shape().spec_dim(last);
            &&& len + n <= usize::MAX
            &&& x.shape().spec_with_dim(last, n).spec_fits()
            &&& x.shape().spec_with_dim(last, (len + n) as usize).spec_fits()
        }),
    ensures
        ({
            let last = x.shape().spec_rank() - 1;
            let len = x.shape().spec_dim(last);
            let wide = attention::pad_last(x, n);
            &&& term::typ(wide) is Some
            &&& wide.dtype() == x.dtype()
            &&& wide.shape() == x.shape().spec_with_dim(last, (len + n) as usize)
        }),
{
    broadcast use crate::tensor::term::typing_rules;

}

/// Sorted by place, scores have a type where the padded rows can be addressed, and are square.
pub proof fn lemma_relative_to_absolute_type(x: Term)
    requires
        term::typ(x) is Some,
        x.shape() is S3,
        x.shape()->S3_1 >= 1,
        x.shape()->S3_2 == 2 * x.shape()->S3_1 - 1,
    ensures
        ({
            let stack = x.shape()->S3_0;
            let l = x.shape()->S3_1;
            let y = attention::relative_to_absolute(x);
            let room = shape::at_least_one(stack) * (2 * l * l + l - 1) <= usize::MAX;
            &&& term::typ(y) is Some <==> room
            &&& room ==> y.dtype() == x.dtype() && y.shape() == Shape::S3(stack, l, l)
        }),
{
    let stack = x.shape()->S3_0;
    let length = x.shape()->S3_1;
    let l = length as int;
    let h = shape::at_least_one(stack) as int;
    let f = 2 * l * l;
    let y = attention::relative_to_absolute(x);
    assert(l * (2 * l) == f && l * (2 * l - 1) == f - l && (l + 1) * (2 * l - 1) == f + l - 1 && f
        >= 2 * l && 0 <= l * l <= f) by (nonlinear_arith)
        requires
            f == 2 * l * l,
            l >= 1,
    ;
    lemma_no_more(h, f, f + l - 1);
    lemma_no_more(h, l, f);
    lemma_no_more(h, f - l, f);
    lemma_no_more(h, l - 1, f);
    lemma_no_more(h, l * l, f);
    lemma_no_more(h, f + l - 1, f + l - 1);
    let wide = attention::pad_last(x, 1);
    let flat = wide.reshape(Shape::S2(stack, (2 * length * length) as usize));
    let longer = attention::pad_last(flat, (length - 1) as usize);
    let folded = longer.reshape(
        Shape::S3(stack, (length + 1) as usize, (2 * length - 1) as usize),
    );
    assert(h * l * (2 * l) == h * f && h * l * 1 == h * l && h * (l + 1) * (2 * l - 1) == h * (f + l
        - 1) && h * l * l == h * (l * l)) by (nonlinear_arith)
        requires
            l * (2 * l) == f,
            (l + 1) * (2 * l - 1) == f + l - 1,
    ;
    if h * (f + l - 1) <= usize::MAX {
        assert(2 * length * length <= usize::MAX);
        lemma_pad_last_typed(x, 1);
        assert(wide.shape() == Shape::S3(stack, length, (2 * length) as usize));
        assert(stack * length * (2 * l) == stack * f) by (nonlinear_arith)
            requires
                l == length,
                l * (2 * l) == f,
        ;
        assert(flat.shape() == Shape::S2(stack, f as usize) && term::typ(flat) is Some
            && flat.dtype() == x.dtype()) by {
            broadcast use crate::tensor::term::typing_rules;

        }
        lemma_pad_last_typed(flat, (length - 1) as usize);
        assert(stack * (l + 1) * (2 * l - 1) == stack * (f + l - 1)) by (nonlinear_arith)
            requires
                (l + 1) * (2 * l - 1) == f + l - 1,
        ;
        assert(folded.shape() == Shape::S3(stack, (length + 1) as usize, (2 * length - 1) as usize)
            && term::typ(folded) is Some && folded.dtype() == x.dtype()) by {
            broadcast use crate::tensor::term::typing_rules;

        }
        assert(term::typ(y) is Some && y.dtype() == x.dtype() && y.shape() == Shape::S3(
            stack,
            length,
            length,
        )) by {
            broadcast use crate::tensor::term::typing_rules;

            assert(h * l * (2 * l - 1) <= usize::MAX) by (nonlinear_arith)
                requires
                    h * (f - l) <= h * f,
                    h * f <= usize::MAX,
                    l * (2 * l - 1) == f - l,
            ;
        }
    } else if term::typ(y) is Some {
        broadcast use crate::tensor::term::typing_rules;

        assert(term::typ(longer) is Some);
        assert(term::typ(flat) is Some);
        lemma_pad_last_shape(flat, (length - 1) as usize);
        term::lemma_typ_fits(&longer);
        assert(longer.shape() == Shape::S2(stack, (f + l - 1) as usize));
    }
}

/// Sorted by distance, weights have a type where the padded rows can be addressed.
pub proof fn lemma_absolute_to_relative_type(x: Term)
    requires
        term::typ(x) is Some,
        x.shape() is S3,
        x.shape()->S3_1 >= 1,
        x.shape()->S3_2 == x.shape()->S3_1,
    ensures
        ({
            let stack = x.shape()->S3_0;
            let l = x.shape()->S3_1;
            let y = attention::absolute_to_relative(x);
            let room = shape::at_least_one(stack) * (2 * l * l) <= usize::MAX;
            &&& term::typ(y) is Some <==> room
            &&& room ==> y.dtype() == x.dtype() && y.shape() == Shape::S3(
                stack,
                l,
                (2 * l - 1) as usize,
            )
        }),
{
    let stack = x.shape()->S3_0;
    let length = x.shape()->S3_1;
    let l = length as int;
    let h = shape::at_least_one(stack) as int;
    let f = 2 * l * l;
    let y = attention::absolute_to_relative(x);
    assert(l * (2 * l) == f && l * (2 * l - 1) == f - l && f >= 2 * l && l * l <= f && l * (l - 1)
        <= f && l * (l - 1) >= 0) by (nonlinear_arith)
        requires
            f == 2 * l * l,
            l >= 1,
    ;
    lemma_no_more(h, f, f);
    lemma_no_more(h, l, f);
    lemma_no_more(h, f - l, f);
    lemma_no_more(h, l * (l - 1), f);
    assert(h * l * (2 * l) == h * f && h * l * (2 * l - 1) == h * (f - l) && h * l * (l - 1) == h
        * (l * (l - 1)) && h * l * 1 == h * l) by (nonlinear_arith)
        requires
            l * (2 * l) == f,
            l * (2 * l - 1) == f - l,
    ;
    let wide = attention::pad_last(x, (length - 1) as usize);
    let flat = wide.reshape(Shape::S2(stack, (2 * length * length - length) as usize));
    let longer = attention::pad_front(flat, length);
    let folded = longer.reshape(Shape::S3(stack, length, (2 * length) as usize));
    if h * f <= usize::MAX {
        assert(2 * length * length <= usize::MAX);
        lemma_pad_last_typed(x, (length - 1) as usize);
        assert(wide.shape() == Shape::S3(stack, length, (2 * length - 1) as usize));
        assert(stack * length * (2 * l - 1) == stack * (f - l)) by (nonlinear_arith)
            requires
                l == length,
                l * (2 * l - 1) == f - l,
        ;
        assert(flat.shape() == Shape::S2(stack, (f - l) as usize) && term::typ(flat) is Some
            && flat.dtype() == x.dtype()) by {
            broadcast use crate::tensor::term::typing_rules;

        }
        assert(longer.shape() == Shape::S2(stack, f as usize) && term::typ(longer) is Some
            && longer.dtype() == x.dtype()) by {
            broadcast use crate::tensor::term::typing_rules;

        }
        assert(stack * length * (2 * l) == stack * f) by (nonlinear_arith)
            requires
                l == length,
                l * (2 * l) == f,
        ;
        assert(folded.shape() == Shape::S3(stack, length, (2 * length) as usize) && term::typ(
            folded,
        ) is Some && folded.dtype() == x.dtype()) by {
            broadcast use crate::tensor::term::typing_rules;

        }
        assert(term::typ(y) is Some && y.dtype() == x.dtype() && y.shape() == Shape::S3(
            stack,
            length,
            (2 * length - 1) as usize,
        )) by {
            broadcast use crate::tensor::term::typing_rules;

        }
    } else if term::typ(y) is Some {
        broadcast use crate::tensor::term::typing_rules;

        assert(term::typ(longer) is Some);
        assert(term::typ(flat) is Some);
        term::lemma_typ_fits(&longer);
        assert(longer.shape() == Shape::S2(stack, f as usize));
    }
}

/// Sorting by distance and then by place gives every weight back, of the same type, where the
/// padded rows can be addressed.
pub proof fn lemma_positions_round_trip(x: Term)
    requires
        term::typ(x) is Some,
        x.shape() is S3,
        x.shape()->S3_1 >= 1,
        x.shape()->S3_2 == x.shape()->S3_1,
        ({
            let l = x.shape()->S3_1;
            shape::at_least_one(x.shape()->S3_0) * (2 * l * l + l - 1) <= usize::MAX
        }),
    ensures
        ({
            let l = x.shape()->S3_1 as int;
            let back = attention::relative_to_absolute(attention::absolute_to_relative(x));
            &&& term::typ(back) == term::typ(x)
            &&& forall|b: int, i: int, j: int|
                0 <= b < x.shape()->S3_0 && 0 <= i < l && 0 <= j < l ==> index::origin(
                    back,
                    #[trigger] at3(l, l, b, i, j),
                ) == index::origin(x, at3(l, l, b, i, j))
        }),
{
    let length = x.shape()->S3_1;
    let l = length as int;
    let h = shape::at_least_one(x.shape()->S3_0) as int;
    let f = 2 * l * l;
    assert(f >= 2 * l) by (nonlinear_arith)
        requires
            f == 2 * l * l,
            l >= 1,
    ;
    lemma_no_more(h, f, f + l - 1);
    let relative = attention::absolute_to_relative(x);
    let back = attention::relative_to_absolute(relative);
    lemma_absolute_to_relative_type(x);
    lemma_relative_to_absolute_type(relative);
    assert forall|b: int, i: int, j: int|
        0 <= b < x.shape()->S3_0 && 0 <= i < l && 0 <= j < l implies index::origin(
        back,
        #[trigger] at3(l, l, b, i, j),
    ) == index::origin(x, at3(l, l, b, i, j)) by {
        lemma_relative_to_absolute(relative, b, i, j);
        lemma_absolute_to_relative(x, b, i, j - i + length - 1);
    }
}

/// The table for a sequence has a type where it can be addressed, and a row for every distance.
pub proof fn lemma_relative_embeddings_type(layer: VitsAttention, table: Term, length: usize)
    requires
        term::typ(table) is Some,
        table.shape() is S3,
        table.shape()->S3_0 == 1,
        table.shape()->S3_1 == 2 * layer.window_size + 1,
    ensures
        ({
            let columns = table.shape()->S3_2;
            let found = layer.relative_embeddings(table, length);
            let room = length >= 1 && (2 * length - 1) * shape::at_least_one(columns)
                <= usize::MAX;
            &&& term::typ(found) is Some <==> room
            &&& room ==> found.dtype() == table.dtype() && found.shape() == Shape::S3(
                1,
                (2 * length - 1) as usize,
                columns,
            )
        }),
{
    let columns = table.shape()->S3_2;
    let c = shape::at_least_one(columns) as int;
    let window = layer.window_size as int;
    let n = 2 * length - 1;
    let found = layer.relative_embeddings(table, length);
    term::lemma_typ_fits(&table);
    assert((2 * window + 1) * c <= usize::MAX);
    if length >= 1 {
        lemma_no_more(c, n, n);
        assert(n * c == c * n && (2 * window + 1) * c == c * (2 * window + 1)) by (nonlinear_arith);
        if length > window + 1 {
            let pad = (length - (window + 1)) as usize;
            let front = pad + 2 * window + 1;
            lemma_no_more(c, pad as int, n);
            lemma_no_more(c, front, n);
            assert(pad * c == c * pad && front * c == c * front) by (nonlinear_arith);
            assert(1 * (pad as int) * c == pad * c && 1 * front * c == front * c && 1 * n * c == n
                * c);
            broadcast use crate::tensor::term::typing_rules;

            if c * n <= usize::MAX {
                let zeros = Term::zeros(table.dtype(), Shape::S3(1, pad, columns));
                assert(term::typ(zeros) is Some);
                let joined = zeros.concat(table, 1);
                assert(term::typ(joined) is Some && joined.shape() == Shape::S3(
                    1,
                    front as usize,
                    columns,
                ));
            } else if term::typ(found) is Some {
                term::lemma_typ_fits(&found);
            }
        } else {
            lemma_no_more(c, n, 2 * window + 1);
            assert(1 * n * c == n * c);
            broadcast use crate::tensor::term::typing_rules;

        }
    } else {
        broadcast use crate::tensor::term::typing_rules;

        assert(found == Term::undefined());
    }
}

/// Row `m` of the table for a sequence is that for the distance `m - (length - 1)`, and zero where
/// the distance is beyond the window.
pub proof fn lemma_relative_embeddings(
    layer: VitsAttention,
    table: Term,
    length: usize,
    m: int,
    c: int,
)
    requires
        term::typ(table) is Some,
        table.shape() is S3,
        table.shape()->S3_0 == 1,
        table.shape()->S3_1 == 2 * layer.window_size + 1,
        (2 * length - 1) * shape::at_least_one(table.shape()->S3_2) <= usize::MAX,
        0 <= m < 2 * length - 1,
        0 <= c < table.shape()->S3_2,
    ensures
        ({
            let columns = table.shape()->S3_2 as int;
            let window = layer.window_size as int;
            let distance = m - (length - 1);
            let found = index::origin(
                layer.relative_embeddings(table, length),
                m * columns + c,
            );
            if -window <= distance <= window {
                found == index::origin(table, (distance + window) * columns + c)
            } else {
                is_zero(found.0)
            }
        }),
{
    lemma_relative_embeddings_type(layer, table, length);
    broadcast use crate::tensor::term::typing_rules;

    let columns = table.shape()->S3_2;
    let window = layer.window_size;
    let rows = (2 * length - 1) as usize;
    if length > window + 1 {
        let pad = (length - (window + 1)) as usize;
        let zeros = Term::zeros(table.dtype(), Shape::S3(1, pad, columns));
        let front = zeros.concat(table, 1);
        let padded = front.concat(zeros, 1);
        assert(attention::pad_middle(table, pad, pad) == padded);
        assert(front.shape() == Shape::S3(1, (pad + 2 * window + 1) as usize, columns));
        assert(padded.shape() == Shape::S3(1, rows, columns));
        index::lemma_origin_narrow(padded, 1, 0, rows, 0, m, c);
        index::lemma_origin_concat(front, zeros, 1, 0, m, c);
        if m < pad + 2 * window + 1 {
            index::lemma_origin_concat(zeros, table, 1, 0, m, c);
        }
    } else {
        index::lemma_origin_narrow(table, 1, (window + 1 - length) as usize, rows, 0, m, c);
    }
}

} // verus!
