use vstd::prelude::*;

verus! {

/// One wrapped line of text together with its rendered height, as handed to
/// the pagination engine by the glyph-metrics layer.
pub struct Row {
    /// Rendered height of this row, in the same unit as the page height.
    pub height: u64,
    /// Character content of the row, without a trailing line break.
    pub text: String,
}

/// Mathematical model of a wrapped row.
#[verifier::ext_equal]
pub ghost struct RowModel {
    pub height: nat,
    pub text: Seq<char>,
}

impl View for Row {
    type V = RowModel;

    open spec fn view(&self) -> RowModel {
        RowModel { height: self.height as nat, text: self.text@ }
    }
}

/// The models of a sequence of rows.
pub open spec fn row_models(rows: Seq<Row>) -> Seq<RowModel> {
    rows.map_values(|r: Row| r@)
}

/// Total height of a sequence of rows.
pub open spec fn heights_sum(rows: Seq<RowModel>) -> int
    decreases rows.len(),
{
    if rows.len() == 0 {
        0
    } else {
        rows[0].height + heights_sum(rows.skip(1))
    }
}

/// How many leading rows a greedy filler takes when `budget` height is left:
/// rows are taken, front to back, as long as each one still fits.
pub open spec fn greedy_take(rows: Seq<RowModel>, budget: int) -> nat
    decreases rows.len(),
{
    if rows.len() == 0 || rows[0].height > budget {
        0
    } else {
        (1 + greedy_take(rows.skip(1), budget - rows[0].height)) as nat
    }
}

/// Number of rows on the first page: the first row is always placed, even if
/// it alone exceeds the page height, and rows follow while they still fit.
pub open spec fn first_page_len(rows: Seq<RowModel>, max_height: int) -> nat {
    if rows.len() == 0 {
        0
    } else {
        (1 + greedy_take(rows.skip(1), max_height - rows[0].height)) as nat
    }
}

proof fn lemma_greedy_take_le(rows: Seq<RowModel>, budget: int)
    ensures
        greedy_take(rows, budget) <= rows.len(),
    decreases rows.len(),
{
    if rows.len() != 0 && rows[0].height <= budget {
        lemma_greedy_take_le(rows.skip(1), budget - rows[0].height);
    }
}

/// The pages produced for `rows` under page height `max_height`: each page is
/// the maximal prefix of the remaining rows that fits, except that a row too
/// tall for any page stands on a page of its own.
pub open spec fn spec_paginate(rows: Seq<RowModel>, max_height: int) -> Seq<Seq<RowModel>>
    decreases rows.len(),
    via spec_paginate_decreases
{
    if rows.len() == 0 {
        Seq::empty()
    } else {
        let k = first_page_len(rows, max_height) as int;
        seq![rows.take(k)] + spec_paginate(rows.skip(k), max_height)
    }
}

#[via_fn]
proof fn spec_paginate_decreases(rows: Seq<RowModel>, max_height: int) {
    if rows.len() != 0 {
        lemma_greedy_take_le(rows.skip(1), max_height - rows[0].height);
    }
}

/// The character content of one page: each row's text followed by a newline.
pub open spec fn page_text(page: Seq<RowModel>) -> Seq<char>
    decreases page.len(),
{
    if page.len() == 0 {
        Seq::empty()
    } else {
        page[0].text + seq!['\n'] + page_text(page.skip(1))
    }
}

/// The page strings for `rows` under page height `max_height`.
pub open spec fn spec_pages(rows: Seq<RowModel>, max_height: int) -> Seq<Seq<char>> {
    spec_paginate(rows, max_height).map_values(|p: Seq<RowModel>| page_text(p))
}

proof fn lemma_heights_sum_push(rows: Seq<RowModel>, x: RowModel)
    ensures
        heights_sum(rows.push(x)) == heights_sum(rows) + x.height,
    decreases rows.len(),
{
    if rows.len() == 0 {
        assert(rows.push(x).skip(1) =~= Seq::<RowModel>::empty());
        assert(heights_sum(Seq::<RowModel>::empty()) == 0);
        assert(heights_sum(rows.push(x).skip(1)) == 0);
        assert(rows.push(x)[0] == x);
    } else {
        assert(rows.push(x).skip(1) =~= rows.skip(1).push(x));
        lemma_heights_sum_push(rows.skip(1), x);
        assert(rows.push(x)[0] == rows[0]);
        assert(heights_sum(rows.push(x)) == rows[0].height + heights_sum(rows.skip(1).push(x)));
    }
}

proof fn lemma_page_text_push(page: Seq<RowModel>, x: RowModel)
    ensures
        page_text(page.push(x)) == page_text(page) + x.text + seq!['\n'],
    decreases page.len(),
{
    if page.len() == 0 {
        assert(page.push(x).skip(1) =~= Seq::<RowModel>::empty());
        assert(page_text(Seq::<RowModel>::empty()) == Seq::<char>::empty());
        assert(page_text(page.push(x).skip(1)) == Seq::<char>::empty());
        assert(page.push(x)[0] == x);
        assert(page_text(page.push(x)) =~= page_text(page) + x.text + seq!['\n']);
    } else {
        assert(page.push(x).skip(1) =~= page.skip(1).push(x));
        lemma_page_text_push(page.skip(1), x);
        assert(page.push(x)[0] == page[0]);
        assert(page_text(page.push(x)) == page[0].text + seq!['\n'] + page_text(
            page.skip(1).push(x),
        ));
        assert(page_text(page.push(x)) =~= page_text(page) + x.text + seq!['\n']);
    }
}

/// If the greedy filler takes all of `a`, then on `a + b` it takes all of `a`
/// and goes on into `b` with the remaining budget.
proof fn lemma_greedy_take_append_all(a: Seq<RowModel>, b: Seq<RowModel>, budget: int)
    requires
        greedy_take(a, budget) == a.len(),
    ensures
        greedy_take(a + b, budget) == a.len() + greedy_take(b, budget - heights_sum(a)),
    decreases a.len(),
{
    if a.len() == 0 {
        assert(a + b =~= b);
    } else {
        assert((a + b).skip(1) =~= a.skip(1) + b);
        lemma_greedy_take_append_all(a.skip(1), b, budget - a[0].height);
    }
}

/// If `a` is exactly one full page, the first page of `a + b` holds all of
/// `a` plus whatever of `b` the leftover budget still admits.
proof fn lemma_first_page_append(a: Seq<RowModel>, b: Seq<RowModel>, max_height: int)
    requires
        a.len() > 0,
        first_page_len(a, max_height) == a.len(),
    ensures
        first_page_len(a + b, max_height) == a.len() + greedy_take(
            b,
            max_height - heights_sum(a),
        ),
{
    assert((a + b).skip(1) =~= a.skip(1) + b);
    lemma_greedy_take_append_all(a.skip(1), b, max_height - a[0].height);
}

/// Concatenating all pages reproduces exactly the given rows, in order, with
/// none dropped or duplicated.
pub proof fn lemma_paginate_flatten(rows: Seq<RowModel>, max_height: int)
    ensures
        spec_paginate(rows, max_height).flatten() == rows,
    decreases rows.len(),
{
    if rows.len() == 0 {
        assert(spec_paginate(rows, max_height).flatten() =~= rows);
    } else {
        let k = first_page_len(rows, max_height) as int;
        lemma_greedy_take_le(rows.skip(1), max_height - rows[0].height);
        lemma_paginate_flatten(rows.skip(k), max_height);
        let pages = spec_paginate(rows, max_height);
        assert(pages[0] == rows.take(k));
        assert(pages.drop_first() =~= spec_paginate(rows.skip(k), max_height));
        assert(pages.flatten() == pages.first() + pages.drop_first().flatten());
        assert(rows.take(k) + rows.skip(k) =~= rows);
    }
}

/// A page is admissible when its rows fit the page height together, except
/// that a single row taller than the page stands on a page of its own.
pub open spec fn page_fits(page: Seq<RowModel>, max_height: int) -> bool {
    heights_sum(page) <= max_height || (page.len() == 1 && page[0].height > max_height)
}

proof fn lemma_greedy_take_sum(rows: Seq<RowModel>, budget: int)
    requires
        greedy_take(rows, budget) > 0,
    ensures
        heights_sum(rows.take(greedy_take(rows, budget) as int)) <= budget,
    decreases rows.len(),
{
    lemma_greedy_take_le(rows, budget);
    let k = greedy_take(rows, budget) as int;
    let k1 = greedy_take(rows.skip(1), budget - rows[0].height) as int;
    lemma_greedy_take_le(rows.skip(1), budget - rows[0].height);
    assert(rows.take(k).skip(1) =~= rows.skip(1).take(k1));
    assert(rows.take(k)[0] == rows[0]);
    assert(heights_sum(rows.take(k)) == rows[0].height + heights_sum(rows.take(k).skip(1)));
    if k1 > 0 {
        lemma_greedy_take_sum(rows.skip(1), budget - rows[0].height);
    } else {
        assert(rows.skip(1).take(0) =~= Seq::<RowModel>::empty());
        assert(heights_sum(Seq::<RowModel>::empty()) == 0);
    }
}

/// Every page fits the page height, except pages consisting of exactly one
/// row whose own height exceeds it.
pub proof fn lemma_paginate_fits(rows: Seq<RowModel>, max_height: int)
    ensures
        forall|i: int|
            0 <= i < spec_paginate(rows, max_height).len() ==> page_fits(
                #[trigger] spec_paginate(rows, max_height)[i],
                max_height,
            ),
    decreases rows.len(),
{
    if rows.len() != 0 {
        let k = first_page_len(rows, max_height) as int;
        lemma_greedy_take_le(rows.skip(1), max_height - rows[0].height);
        lemma_paginate_fits(rows.skip(k), max_height);
        let pages = spec_paginate(rows, max_height);
        let rest_pages = spec_paginate(rows.skip(k), max_height);
        if rows[0].height > max_height {
            assert(greedy_take(rows.skip(1), max_height - rows[0].height) == 0);
            assert(k == 1);
            assert(rows.take(1) =~= seq![rows[0]]);
            lemma_singleton_page(rows[0], max_height);
            assert(page_fits(pages[0], max_height));
        } else {
            assert(greedy_take(rows, max_height) == k);
            lemma_greedy_take_sum(rows, max_height);
            assert(page_fits(pages[0], max_height));
        }
        assert forall|i: int| 0 <= i < pages.len() implies page_fits(
            #[trigger] pages[i],
            max_height,
        ) by {
            if i > 0 {
                assert(pages[i] == rest_pages[i - 1]);
            }
        }
    }
}

/// Pagination of no rows yields no pages.
pub proof fn lemma_paginate_empty(max_height: int)
    ensures
        spec_paginate(Seq::<RowModel>::empty(), max_height) == Seq::<Seq<RowModel>>::empty(),
        spec_pages(Seq::<RowModel>::empty(), max_height) == Seq::<Seq<char>>::empty(),
{
    assert(spec_pages(Seq::<RowModel>::empty(), max_height) =~= Seq::<Seq<char>>::empty());
}

/// Pagination is a pure function of its inputs: any two results that satisfy
/// the pagination contract for the same rows and page height are identical.
pub proof fn lemma_paginate_deterministic(
    rows: Seq<RowModel>,
    max_height: int,
    a: Seq<Seq<char>>,
    b: Seq<Seq<char>>,
)
    requires
        a == spec_pages(rows, max_height),
        b == spec_pages(rows, max_height),
    ensures
        a == b,
{
}

proof fn lemma_singleton_page(x: RowModel, max_height: int)
    ensures
        heights_sum(seq![x]) == x.height,
        page_text(seq![x]) == x.text + seq!['\n'],
        first_page_len(seq![x], max_height) == 1,
{
    assert(seq![x].skip(1) =~= Seq::<RowModel>::empty());
    assert(heights_sum(Seq::<RowModel>::empty()) == 0);
    assert(page_text(Seq::<RowModel>::empty()) == Seq::<char>::empty());
    assert(heights_sum(seq![x]) == x.height + heights_sum(seq![x].skip(1)));
    assert(page_text(seq![x]) =~= x.text + seq!['\n']);
    assert(greedy_take(seq![x].skip(1), max_height - x.height) == 0);
}

/// Partition `rows` into page strings. Rows are accumulated in their given
/// order until the next row would push the filled height over
/// `max_page_height`; a row taller than `max_page_height` forms a page of its
/// own; no row is dropped, split or reordered.
pub fn paginate(rows: &Vec<Row>, max_page_height: u64) -> (pages: Vec<String>)
    ensures
        pages.deep_view() == spec_pages(row_models(rows@), max_page_height as int),
{
    let ghost all = row_models(rows@);
    let ghost h = max_page_height as int;
    let mut pages: Vec<String> = Vec::new();
    let mut cur = String::new();
    let mut filled: u64 = 0;
    let mut cur_count: usize = 0;
    let ghost mut cur_rows: Seq<RowModel> = Seq::empty();
    let ghost mut done: Seq<Seq<RowModel>> = Seq::empty();
    let mut i: usize = 0;
    proof {
        reveal_strlit("\n");
        assert(cur_rows + all.skip(0) =~= all);
        assert(done + spec_paginate(all, h) =~= spec_paginate(all, h));
        assert(page_text(cur_rows) == Seq::<char>::empty());
    }
    while i < rows.len()
        invariant
            0 <= i <= rows.len(),
            all == row_models(rows@),
            h == max_page_height as int,
            cur_count == cur_rows.len(),
            cur_count <= i,
            filled as int == heights_sum(cur_rows),
            cur@ == page_text(cur_rows),
            cur_rows.len() > 0 ==> first_page_len(cur_rows, h) == cur_rows.len(),
            spec_paginate(all, h) == done + spec_paginate(cur_rows + all.skip(i as int), h),
            pages@.len() == done.len(),
            forall|j: int| 0 <= j < done.len() ==> pages@[j]@ == page_text(done[j]),
        decreases rows.len() - i,
    {
        let r = &rows[i];
        let ghost rest = all.skip(i as int);
        proof {
            reveal_strlit("\n");
            assert("\n"@ =~= seq!['\n']);
            assert(all[i as int] == rows@[i as int]@);
            assert(rest[0] == r@);
        }
        if cur_count == 0 {
            cur.append(r.text.as_str());
            cur.append("\n");
            filled = r.height;
            cur_count = 1;
            proof {
                assert(cur_rows + rest =~= rest);
                cur_rows = seq![r@];
                lemma_singleton_page(r@, h);
                assert(cur@ =~= page_text(cur_rows));
                assert(cur_rows + all.skip(i + 1) =~= rest);
            }
        } else if filled > max_page_height || r.height > max_page_height - filled {
            pages.push(cur);
            cur = String::new();
            cur.append(r.text.as_str());
            cur.append("\n");
            filled = r.height;
            cur_count = 1;
            proof {
                // The accumulated page is exactly the first page of what is left.
                let combined = cur_rows + rest;
                lemma_first_page_append(cur_rows, rest, h);
                assert(rest[0].height > h - heights_sum(cur_rows));
                assert(greedy_take(rest, h - heights_sum(cur_rows)) == 0);
                assert(first_page_len(combined, h) == cur_rows.len());
                assert(combined.take(cur_rows.len() as int) =~= cur_rows);
                assert(combined.skip(cur_rows.len() as int) =~= rest);
                assert(spec_paginate(combined, h) == seq![cur_rows] + spec_paginate(rest, h));
                let prev_done = done;
                done = done + seq![cur_rows];
                assert(done[prev_done.len() as int] == cur_rows);
                assert(forall|j: int| 0 <= j < done.len() ==> pages@[j]@ == page_text(done[j]));
                cur_rows = seq![r@];
                lemma_singleton_page(r@, h);
                assert(cur@ =~= page_text(cur_rows));
                assert(cur_rows + all.skip(i + 1) =~= rest);
                assert(spec_paginate(all, h) == done + spec_paginate(
                    cur_rows + all.skip(i + 1),
                    h,
                ));
            }
        } else {
            cur.append(r.text.as_str());
            cur.append("\n");
            filled = filled + r.height;
            cur_count = cur_count + 1;
            proof {
                lemma_singleton_page(r@, h);
                lemma_first_page_append(cur_rows, seq![r@], h);
                assert(seq![r@].skip(1) =~= Seq::<RowModel>::empty());
                assert(seq![r@][0] == r@);
                assert(r@.height <= h - heights_sum(cur_rows));
                assert(greedy_take(
                    Seq::<RowModel>::empty(),
                    h - heights_sum(cur_rows) - r@.height,
                ) == 0);
                assert(greedy_take(seq![r@], h - heights_sum(cur_rows)) == 1);
                assert(cur_rows + seq![r@] =~= cur_rows.push(r@));
                lemma_heights_sum_push(cur_rows, r@);
                lemma_page_text_push(cur_rows, r@);
                let prev = cur_rows;
                cur_rows = cur_rows.push(r@);
                assert(first_page_len(cur_rows, h) == cur_rows.len());
                assert(cur@ == page_text(cur_rows));
                assert(cur_rows + all.skip(i + 1) =~= prev + rest);
            }
        }
        i = i + 1;
    }
    if cur_count > 0 {
        pages.push(cur);
        proof {
            assert(all.skip(rows@.len() as int) =~= Seq::<RowModel>::empty());
            let combined = cur_rows + all.skip(rows@.len() as int);
            assert(combined =~= cur_rows);
            assert(combined.take(cur_rows.len() as int) =~= cur_rows);
            assert(combined.skip(cur_rows.len() as int) =~= Seq::<RowModel>::empty());
            assert(spec_paginate(combined, h) == seq![cur_rows] + spec_paginate(
                Seq::<RowModel>::empty(),
                h,
            ));
            assert(spec_paginate(combined, h) =~= seq![cur_rows]);
            let prev_done = done;
            done = done + seq![cur_rows];
            assert(done[prev_done.len() as int] == cur_rows);
            assert(spec_paginate(all, h) == done);
        }
    } else {
        proof {
            assert(cur_rows + all.skip(rows@.len() as int) =~= Seq::<RowModel>::empty());
            assert(spec_paginate(Seq::<RowModel>::empty(), h) =~= Seq::<Seq<RowModel>>::empty());
            assert(spec_paginate(all, h) =~= done);
        }
    }
    proof {
        assert(forall|j: int| 0 <= j < done.len() ==> pages@[j]@ == page_text(done[j]));
        assert(forall|j: int| 0 <= j < done.len() ==> pages.deep_view()[j] == page_text(
            spec_paginate(all, h)[j],
        ));
        assert(pages.deep_view() =~= spec_pages(all, h));
    }
    pages
}

} // verus!
