//! Paging parameters and results, and what a page holds.
use vstd::prelude::*;

verus! {

/// Which page to return: pages hold `page_size` items each and are
/// numbered from 0.
#[derive(Clone, Copy, Debug)]
pub struct PageParams {
    pub page_index: u64,
    pub page_size: u64,
}

/// One page of results, with the totals it was cut from.
#[derive(Debug)]
pub struct PageResult<T> {
    pub success: bool,
    pub err: String,
    pub total: u64,
    pub pages: u64,
    pub page_index: u64,
    pub page_size: u64,
    pub data: Vec<T>,
}

/// The parameters can be computed with: the page size is positive and the
/// end of the page fits in a `u64`.
pub open spec fn page_params_ok(params: PageParams) -> bool {
    &&& params.page_size > 0
    &&& params.page_index * params.page_size + params.page_size <= u64::MAX
}

/// Position of the first item of the page.
pub open spec fn page_start(params: PageParams) -> int {
    params.page_index * params.page_size
}

/// Position just past the last item of the page, cut at `total`.
pub open spec fn page_end(params: PageParams, total: int) -> int {
    if page_start(params) + params.page_size > total {
        total
    } else {
        page_start(params) + params.page_size
    }
}

/// Number of pages of `size` items that `total` items fill.
pub open spec fn page_count(total: int, size: int) -> int {
    if total % size > 0 {
        total / size + 1
    } else {
        total / size
    }
}

/// The items of `s` that fall on the page; none when the page lies past the end.
pub open spec fn page_of<T>(s: Seq<T>, params: PageParams) -> Seq<T> {
    if page_start(params) < page_end(params, s.len() as int) {
        s.subrange(page_start(params), page_end(params, s.len() as int))
    } else {
        Seq::empty()
    }
}


/// The first `n` pages of `s`, one after the other.
pub open spec fn first_pages<T>(s: Seq<T>, size: u64, n: nat) -> Seq<T>
    decreases n,
{
    if n == 0 {
        Seq::empty()
    } else {
        first_pages(s, size, (n - 1) as nat) + page_of(
            s,
            PageParams { page_index: (n - 1) as u64, page_size: size },
        )
    }
}

/// A page numbered below the page count starts before the end of the items;
/// one numbered from the page count on starts at or past it.
pub proof fn law_page_starts(total: int, size: int, k: int)
    requires
        size > 0,
        total >= 0,
        k >= 0,
    ensures
        k < page_count(total, size) <==> k * size < total,
{
    vstd::arithmetic::div_mod::lemma_fundamental_div_mod(total, size);
    let q = total / size;
    let r = total % size;
    assert(0 <= r < size);
    assert(q * size == total - r) by (nonlinear_arith)
        requires
            total == size * q + r,
    ;
    if k < page_count(total, size) {
        if r > 0 {
            assert(k <= q);
            assert(k * size <= q * size) by (nonlinear_arith)
                requires
                    k <= q,
                    size > 0,
            ;
        } else {
            assert(k <= q - 1);
            assert(k * size <= (q - 1) * size) by (nonlinear_arith)
                requires
                    k <= q - 1,
                    size > 0,
            ;
            assert((q - 1) * size == q * size - size) by (nonlinear_arith);
        }
    } else {
        if r > 0 {
            assert(k >= q + 1);
            assert(k * size >= (q + 1) * size) by (nonlinear_arith)
                requires
                    k >= q + 1,
                    size > 0,
            ;
            assert((q + 1) * size == q * size + size) by (nonlinear_arith);
        } else {
            assert(k >= q);
            assert(k * size >= q * size) by (nonlinear_arith)
                requires
                    k >= q,
                    size > 0,
            ;
        }
    }
}

/// Each item falls on exactly one page: item `i` is on page `i / size`, and
/// that page is one of the first `page_count` pages.
pub proof fn law_item_on_one_page(total: u64, params: PageParams, i: int)
    requires
        params.page_size > 0,
        0 <= i < total,
    ensures
        (page_start(params) <= i < page_end(params, total as int)) <==> params.page_index == i
            / params.page_size as int,
        i / (params.page_size as int) < page_count(total as int, params.page_size as int),
{
    let size = params.page_size as int;
    let k = params.page_index as int;
    vstd::arithmetic::div_mod::lemma_fundamental_div_mod(i, size);
    let q = i / size;
    assert(0 <= i % size < size);
    if k == q {
        assert(k * size <= i) by (nonlinear_arith)
            requires
                k == q,
                i == size * q + i % size,
                i % size >= 0,
        ;
        assert(i < k * size + size) by (nonlinear_arith)
            requires
                k == q,
                i == size * q + i % size,
                i % size < size,
        ;
    } else if k < q {
        assert(k * size + size <= i) by (nonlinear_arith)
            requires
                k < q,
                size > 0,
                i == size * q + i % size,
                i % size >= 0,
        ;
    } else {
        assert(k * size > i) by (nonlinear_arith)
            requires
                k > q,
                size > 0,
                i == size * q + i % size,
                i % size < size,
        ;
    }
    assert(q >= 0) by (nonlinear_arith)
        requires
            i >= 0,
            size > 0,
            q == i / size,
    ;
    assert(q * size <= i) by (nonlinear_arith)
        requires
            i == size * q + i % size,
            i % size >= 0,
    ;
    law_page_starts(total as int, size, q);
}

proof fn lemma_first_pages<T>(s: Seq<T>, size: u64, n: nat)
    requires
        size > 0,
        s.len() <= u64::MAX,
        n <= page_count(s.len() as int, size as int),
    ensures
        n * size <= s.len() ==> first_pages(s, size, n) == s.subrange(0, n * size),
        n * size > s.len() ==> first_pages(s, size, n) == s,
    decreases n,
{
    if n > 0 {
        let k = (n - 1) as nat;
        lemma_first_pages(s, size, k);
        law_page_starts(s.len() as int, size as int, k as int);
        assert(k * size < s.len());
        assert(n * size == k * size + size) by (nonlinear_arith)
            requires
                k == n - 1,
        ;
        let params = PageParams { page_index: k as u64, page_size: size };
        assert(page_start(params) == k * size);
        let prev = s.subrange(0, k * size);
        if n * size <= s.len() {
            assert(prev + s.subrange(k * size, n * size) =~= s.subrange(0, n * size));
        } else {
            assert(prev + s.subrange(k * size, s.len() as int) =~= s);
        }
    }
}

/// Listing every page, one after the other, gives all the items in order.
pub proof fn law_pages_rebuild_list<T>(s: Seq<T>, size: u64)
    requires
        size > 0,
        s.len() <= u64::MAX,
    ensures
        first_pages(s, size, page_count(s.len() as int, size as int) as nat) == s,
{
    let n = page_count(s.len() as int, size as int);
    assert(n >= 0) by (nonlinear_arith)
        requires
            s.len() >= 0,
            size > 0,
            n == page_count(s.len() as int, size as int),
    ;
    lemma_first_pages(s, size, n as nat);
    law_page_starts(s.len() as int, size as int, n);
    if n * size <= s.len() {
        assert(n * size == s.len());
        assert(s.subrange(0, n * size) =~= s);
    }
}


/// A page holds the items from position `page_index * page_size` on, at most
/// `page_size` of them, in order; a page that starts at or past the end of the
/// items is empty.
pub proof fn law_page_of<T>(s: Seq<T>, params: PageParams)
    requires
        params.page_size > 0,
    ensures
        params.page_index * params.page_size >= s.len() ==> page_of(s, params).len() == 0,
        params.page_index * params.page_size + params.page_size <= s.len() ==> page_of(s, params).len()
            == params.page_size,
        params.page_index * params.page_size < s.len() < params.page_index * params.page_size
            + params.page_size ==> page_of(s, params).len() == s.len() - params.page_index
            * params.page_size,
        forall|j: int|
            0 <= j < page_of(s, params).len() ==> #[trigger] page_of(s, params)[j] == s[params.page_index
                * params.page_size + j],
{
    assert(params.page_index * params.page_size >= 0) by (nonlinear_arith)
        requires
            params.page_size > 0,
    ;
}

/// The page count covers every item, and the last page is not empty: the
/// count times the size reaches the total, and one page fewer falls short of it.
pub proof fn law_page_count(total: int, size: int)
    requires
        size > 0,
        total >= 0,
    ensures
        page_count(total, size) >= 0,
        page_count(total, size) * size >= total,
        page_count(total, size) == 0 || (page_count(total, size) - 1) * size < total,
{
    let n = page_count(total, size);
    assert(n >= 0) by (nonlinear_arith)
        requires
            total >= 0,
            size > 0,
            n == page_count(total, size),
    ;
    law_page_starts(total, size, n);
    if n > 0 {
        law_page_starts(total, size, n - 1);
    }
}

} // verus!
