use vstd::prelude::*;

verus! {

/// `n` counts the chunks of size `plen` that cover `total` bytes: none
/// when there is nothing, else the least `n` with `n * plen >= total`.
pub open spec fn count_matches(n: int, total: int, plen: int) -> bool {
    if total == 0 {
        n == 0
    } else {
        n * plen >= total && (n - 1) * plen < total
    }
}

/// Size of chunk `i`: the full `plen`, except the remainder in the last
/// chunk when `plen` does not divide `total`.
pub open spec fn spec_chunk_len(total: int, plen: int, i: int) -> int {
    if (i + 1) * plen <= total {
        plen
    } else {
        total - i * plen
    }
}

/// The ceiling division `(total + plen - 1) / plen` yields exactly the
/// chunk count, and no more chunks than bytes.
pub proof fn lemma_count_from_div(total: int, plen: int)
    requires
        plen >= 1,
        total >= 0,
    ensures
        count_matches((total + plen - 1) / plen, total, plen),
        0 <= (total + plen - 1) / plen <= total,
{
    let s = total + plen - 1;
    let n = s / plen;
    vstd::arithmetic::div_mod::lemma_fundamental_div_mod(s, plen);
    vstd::arithmetic::div_mod::lemma_mod_bound(s, plen);
    let r = s % plen;
    assert(plen * n == s - r);
    assert(n * plen == plen * n) by (nonlinear_arith);
    if total == 0 {
        assert(n * plen == plen - 1 - r);
        assert(n == 0) by (nonlinear_arith)
            requires
                n * plen == plen - 1 - r,
                0 <= r < plen,
                plen >= 1,
        ;
    } else {
        assert(n * plen >= total);
        assert((n - 1) * plen == n * plen - plen) by (nonlinear_arith);
        assert((n - 1) * plen < total);
        assert(0 <= n <= total) by (nonlinear_arith)
            requires
                n * plen >= total,
                (n - 1) * plen < total,
                plen >= 1,
                total >= 1,
        ;
    }
}

/// A chunk index is inside the count exactly when its start offset is
/// inside the data.
pub proof fn lemma_chunk_index(n: int, total: int, plen: int, i: int)
    requires
        plen >= 1,
        total >= 0,
        count_matches(n, total, plen),
        i >= 0,
    ensures
        (i < n) == (i * plen < total),
{
    if total == 0 {
        assert(i * plen >= 0) by (nonlinear_arith)
            requires
                i >= 0,
                plen >= 1,
        ;
    } else {
        if i < n {
            vstd::arithmetic::mul::lemma_mul_inequality(i, n - 1, plen);
        } else {
            vstd::arithmetic::mul::lemma_mul_inequality(n, i, plen);
        }
    }
}

/// Only one count covers a given amount: the chunk count is a function of
/// the sizes.
pub proof fn lemma_count_unique(n1: int, n2: int, total: int, plen: int)
    requires
        plen >= 1,
        total >= 0,
        count_matches(n1, total, plen),
        count_matches(n2, total, plen),
    ensures
        n1 == n2,
{
    if total != 0 {
        assert(n1 == n2) by (nonlinear_arith)
            requires
                plen >= 1,
                total >= 1,
                n1 * plen >= total,
                (n1 - 1) * plen < total,
                n2 * plen >= total,
                (n2 - 1) * plen < total,
        ;
    }
}

/// Every chunk before the count's end starts strictly inside the data and
/// holds between one byte and a full chunk.
pub proof fn lemma_size_bounds(n: int, total: int, plen: int, i: int)
    requires
        plen >= 1,
        count_matches(n, total, plen),
        0 <= i < n,
    ensures
        i * plen < total,
        1 <= spec_chunk_len(total, plen, i) <= plen,
        i * plen + spec_chunk_len(total, plen, i) <= total,
        n <= total,
{
    assert(total != 0);
    vstd::arithmetic::mul::lemma_mul_inequality(i, n - 1, plen);
    assert(i * plen <= (n - 1) * plen);
    assert((i + 1) * plen == i * plen + plen) by (nonlinear_arith);
    assert(n <= total) by (nonlinear_arith)
        requires
            (n - 1) * plen < total,
            plen >= 1,
            n >= 1,
            total >= 1,
    ;
}

} // verus!
