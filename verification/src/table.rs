//! Plain-text tables in a monospace block, and ordering rows by a value.

use vstd::prelude::*;
use crate::text::{pad_right, push_char, append_str, push_repeat};

verus! {

/// The length of `s` in bytes once encoded as UTF-8 (`str::len`).
pub open spec fn byte_len(s: Seq<char>) -> nat {
    vstd::utf8::encode_utf8(s).len()
}

/// The cells of a row, as text.
pub open spec fn row_view<const N: usize>(r: [String; N]) -> Seq<Seq<char>> {
    r@.map_values(|s: String| s@)
}

/// The rows of a table, as text.
pub open spec fn table_view<const N: usize>(rows: Seq<[String; N]>) -> Seq<Seq<Seq<char>>> {
    rows.map_values(|r: [String; N]| row_view(r))
}

/// The width of column `c`: two more than the byte length of its longest cell, or zero for
/// a table without rows.
pub open spec fn column_width(table: Seq<Seq<Seq<char>>>, c: int) -> nat
    decreases table.len(),
{
    if table.len() == 0 {
        0
    } else {
        let w = byte_len(table.last()[c]) + 2;
        let prev = column_width(table.drop_last(), c);
        if prev >= w {
            prev
        } else {
            w
        }
    }
}

/// The first `k` cells of `row`, each as `| ` and the cell padded with spaces to one less
/// than its column's width.
pub open spec fn cells_text(table: Seq<Seq<Seq<char>>>, row: Seq<Seq<char>>, k: int) -> Seq<char>
    decreases k,
{
    if k <= 0 {
        Seq::empty()
    } else {
        cells_text(table, row, k - 1) + seq!['|', ' '] + pad_right(
            row[k - 1],
            (column_width(table, k - 1) - 1) as nat,
        )
    }
}

/// The first `k` rows of the table, each closed by `|` and a newline.
pub open spec fn rows_text(table: Seq<Seq<Seq<char>>>, k: int) -> Seq<char>
    decreases k,
{
    if k <= 0 {
        Seq::empty()
    } else {
        rows_text(table, k - 1) + cells_text(table, table[k - 1], table[k - 1].len() as int)
            + seq!['|', '\n']
    }
}

/// The whole table between two fences of three backticks.
pub open spec fn table_text(table: Seq<Seq<Seq<char>>>) -> Seq<char> {
    seq!['`', '`', '`'] + rows_text(table, table.len() as int) + seq!['`', '`', '`']
}

/// A column is at least two bytes wider than each of its cells.
proof fn lemma_column_width_ge(table: Seq<Seq<Seq<char>>>, c: int, j: int)
    requires
        0 <= j < table.len(),
    ensures
        column_width(table, c) >= byte_len(table[j][c]) + 2,
    decreases table.len(),
{
    if j < table.len() - 1 {
        lemma_column_width_ge(table.drop_last(), c, j);
    }
}

/// Lays `rows` out as a table: every column as wide as its longest cell in bytes plus two,
/// cells separated by `|`, the whole in a block fenced by three backticks.
pub fn tabulate<const N: usize>(rows: Vec<[String; N]>) -> (r: String)
    requires
        forall|j: int, c: int|
            0 <= j < rows@.len() && 0 <= c < N ==> byte_len(#[trigger] rows@[j]@[c]@) + 2
                <= usize::MAX,
    ensures
        r@ == table_text(table_view(rows@)),
{
    let ghost table = table_view(rows@);
    let mut sizes: Vec<usize> = Vec::new();
    let mut c: usize = 0;
    while c < N
        invariant
            c <= N,
            sizes@.len() == c,
            forall|k: int| 0 <= k < c ==> sizes@[k] == 0,
        decreases N - c,
    {
        sizes.push(0);
        c = c + 1;
    }
    let mut j: usize = 0;
    assert(table.take(0).len() == 0);
    while j < rows.len()
        invariant
            j <= rows@.len(),
            table == table_view(rows@),
            sizes@.len() == N,
            forall|k: int| 0 <= k < N ==> sizes@[k] == column_width(table.take(j as int), k),
            forall|jj: int, cc: int|
                0 <= jj < rows@.len() && 0 <= cc < N ==> byte_len(#[trigger] rows@[jj]@[cc]@) + 2
                    <= usize::MAX,
        decreases rows@.len() - j,
    {
        let ghost next = table.take(j as int + 1);
        assert(next.drop_last() =~= table.take(j as int));
        assert(next.last() == table[j as int]);
        let row = &rows[j];
        let mut c: usize = 0;
        while c < N
            invariant
                j < rows@.len(),
                c <= N,
                table == table_view(rows@),
                *row == rows@[j as int],
                next == table.take(j as int + 1),
                next.drop_last() == table.take(j as int),
                next.last() == table[j as int],
                sizes@.len() == N,
                forall|k: int| 0 <= k < c ==> sizes@[k] == column_width(next, k),
                forall|k: int| c <= k < N ==> sizes@[k] == column_width(table.take(j as int), k),
                forall|jj: int, cc: int|
                    0 <= jj < rows@.len() && 0 <= cc < N ==> byte_len(#[trigger] rows@[jj]@[cc]@)
                        + 2 <= usize::MAX,
            decreases N - c,
        {
            let cell: &String = &row[c];
            assert(table[j as int][c as int] == rows@[j as int]@[c as int]@);
            let len = cell.as_str().len();
            let w = len + 2;
            if w > sizes[c] {
                sizes.set(c, w);
            }
            c = c + 1;
        }
        j = j + 1;
    }
    assert(table.take(rows@.len() as int) =~= table);

    let mut out = String::new();
    push_char(&mut out, '`');
    push_char(&mut out, '`');
    push_char(&mut out, '`');
    let mut j: usize = 0;
    while j < rows.len()
        invariant
            j <= rows@.len(),
            table == table_view(rows@),
            table.len() == rows@.len(),
            sizes@.len() == N,
            forall|k: int| 0 <= k < N ==> sizes@[k] == column_width(table, k),
            out@ == seq!['`', '`', '`'] + rows_text(table, j as int),
        decreases rows@.len() - j,
    {
        let row = &rows[j];
        assert(table[j as int] == row_view(rows@[j as int]));
        assert(table[j as int].len() == N);
        let mut c: usize = 0;
        while c < N
            invariant
                j < rows@.len(),
                c <= N,
                table == table_view(rows@),
                table.len() == rows@.len(),
                *row == rows@[j as int],
                table[j as int].len() == N,
                sizes@.len() == N,
                forall|k: int| 0 <= k < N ==> sizes@[k] == column_width(table, k),
                out@ == seq!['`', '`', '`'] + rows_text(table, j as int) + cells_text(
                    table,
                    table[j as int],
                    c as int,
                ),
            decreases N - c,
        {
            let cell: &String = &row[c];
            assert(table[j as int][c as int] == cell@);
            proof {
                lemma_column_width_ge(table, c as int, j as int);
            }
            let ghost before = out@;
            push_char(&mut out, '|');
            push_char(&mut out, ' ');
            append_str(&mut out, cell.as_str());
            let width = sizes[c] - 1;
            let n = cell.as_str().unicode_len();
            if n < width {
                push_repeat(&mut out, ' ', width - n);
            }
            assert(out@ =~= before + seq!['|', ' '] + pad_right(cell@, width as nat));
            c = c + 1;
        }
        push_char(&mut out, '|');
        push_char(&mut out, '\n');
        assert(out@ =~= seq!['`', '`', '`'] + rows_text(table, j as int + 1));
        j = j + 1;
    }
    push_char(&mut out, '`');
    push_char(&mut out, '`');
    push_char(&mut out, '`');
    assert(out@ =~= table_text(table));
    out
}

/// Whether index `a` comes before index `b` when ranking by `keys` from highest to lowest,
/// equal keys keeping their order.
pub open spec fn ranks_before(keys: Seq<i64>, a: int, b: int) -> bool {
    keys[a] > keys[b] || (keys[a] == keys[b] && a < b)
}

/// Whether `order` lists every index of `keys` once, highest key first, equal keys in their
/// original order (what a stable sort by descending key gives).
pub open spec fn is_descending_ranking(keys: Seq<i64>, order: Seq<usize>) -> bool {
    &&& order.len() == keys.len()
    &&& forall|i: int| 0 <= i < order.len() ==> #[trigger] order[i] < keys.len()
    &&& forall|i: int, j: int|
        0 <= i < j < order.len() ==> ranks_before(keys, #[trigger] order[i] as int, #[trigger] order[j] as int)
    &&& forall|m: int| 0 <= m < keys.len() ==> #[trigger] lists(order, m)
}

/// Whether `order` holds the index `m`.
pub open spec fn lists(order: Seq<usize>, m: int) -> bool {
    exists|i: int| 0 <= i < order.len() && order[i] == m
}

/// The indices of `keys` ordered from the highest key to the lowest, equal keys in their
/// original order.
pub fn rank_descending(keys: &Vec<i64>) -> (order: Vec<usize>)
    ensures
        is_descending_ranking(keys@, order@),
{
    let n = keys.len();
    let mut order: Vec<usize> = Vec::new();
    let mut k: usize = 0;
    while k < n
        invariant
            n == keys@.len(),
            k <= n,
            order@.len() == k,
            forall|i: int| 0 <= i < order@.len() ==> #[trigger] order@[i] < k,
            forall|i: int, j: int|
                0 <= i < j < order@.len() ==> ranks_before(
                    keys@,
                    #[trigger] order@[i] as int,
                    #[trigger] order@[j] as int,
                ),
            forall|m: int| 0 <= m < k ==> #[trigger] lists(order@, m),
        decreases n - k,
    {
        let key = keys[k];
        let mut p: usize = 0;
        while p < order.len() && keys[order[p]] >= key
            invariant
                n == keys@.len(),
                k < n,
                p <= order@.len(),
                order@.len() == k,
                forall|i: int| 0 <= i < order@.len() ==> #[trigger] order@[i] < k,
                forall|i: int| 0 <= i < p ==> keys@[#[trigger] order@[i] as int] >= key,
            decreases order@.len() - p,
        {
            p = p + 1;
        }
        proof {
            // Everything from `p` on ranks below the new index.
            if p < order@.len() {
                assert forall|i: int| p <= i < order@.len() implies keys@[#[trigger] order@[i] as int]
                    < key by {
                    if i > p {
                        assert(ranks_before(keys@, order@[p as int] as int, order@[i] as int));
                    }
                }
            }
        }
        let ghost old_order = order@;
        order.insert(p, k);
        proof {
            assert(order@ == old_order.insert(p as int, k));
            assert forall|i: int| 0 <= i < order@.len() implies #[trigger] order@[i] < k + 1 by {
                if i < p {
                    assert(order@[i] == old_order[i]);
                } else if i > p {
                    assert(order@[i] == old_order[i - 1]);
                }
            }
            assert forall|i: int, j: int| 0 <= i < j < order@.len() implies ranks_before(
                keys@,
                #[trigger] order@[i] as int,
                #[trigger] order@[j] as int,
            ) by {
                if j < p {
                    assert(order@[i] == old_order[i] && order@[j] == old_order[j]);
                } else if j == p {
                    assert(order@[i] == old_order[i]);
                    assert(keys@[old_order[i] as int] >= key);
                } else if i < p {
                    assert(order@[i] == old_order[i] && order@[j] == old_order[j - 1]);
                } else if i == p {
                    assert(order@[j] == old_order[j - 1]);
                    assert(keys@[old_order[j - 1] as int] < key);
                } else {
                    assert(order@[i] == old_order[i - 1] && order@[j] == old_order[j - 1]);
                }
            }
            assert forall|m: int| 0 <= m < k + 1 implies #[trigger] lists(order@, m) by {
                if m == k {
                    assert(order@[p as int] == m);
                } else {
                    assert(lists(old_order, m));
                    let w = choose|i: int| 0 <= i < old_order.len() && old_order[i] == m;
                    if w < p {
                        assert(order@[w] == m);
                    } else {
                        assert(order@[w + 1] == m);
                    }
                }
            }
        }
        k = k + 1;
    }
    order
}

/// Ranking lists no index twice.
pub proof fn lemma_ranking_distinct(keys: Seq<i64>, order: Seq<usize>)
    requires
        is_descending_ranking(keys, order),
    ensures
        forall|i: int, j: int| 0 <= i < j < order.len() ==> order[i] != order[j],
{
    assert forall|i: int, j: int| 0 <= i < j < order.len() implies order[i] != order[j] by {
        assert(ranks_before(keys, order[i] as int, order[j] as int));
    }
}

/// Whether `firsts` lists, in increasing order, the index of the first occurrence of each
/// distinct value of `ids`.
pub open spec fn is_first_occurrences(ids: Seq<i64>, firsts: Seq<usize>) -> bool {
    &&& forall|a: int, b: int| 0 <= a < b < firsts.len() ==> firsts[a] < firsts[b]
    &&& forall|k: int|
        0 <= k < firsts.len() ==> #[trigger] firsts[k] < ids.len() && forall|j: int|
            0 <= j < firsts[k] ==> #[trigger] ids[j] != ids[firsts[k] as int]
    &&& forall|i: int| 0 <= i < ids.len() ==> #[trigger] occurs_at_first(ids, firsts, ids[i])
}

/// Whether the value `v` is the value at one of the indices `firsts`.
pub open spec fn occurs_at_first(ids: Seq<i64>, firsts: Seq<usize>, v: i64) -> bool {
    exists|k: int| 0 <= k < firsts.len() && ids[firsts[k] as int] == v
}

/// The index of the first occurrence of each distinct value of `ids`, in increasing order.
pub fn first_occurrences(ids: &Vec<i64>) -> (firsts: Vec<usize>)
    ensures
        is_first_occurrences(ids@, firsts@),
{
    let n = ids.len();
    let mut firsts: Vec<usize> = Vec::new();
    let mut i: usize = 0;
    while i < n
        invariant
            n == ids@.len(),
            i <= n,
            forall|a: int, b: int| 0 <= a < b < firsts@.len() ==> firsts@[a] < firsts@[b],
            forall|k: int| 0 <= k < firsts@.len() ==> #[trigger] firsts@[k] < i,
            forall|k: int|
                #![trigger firsts@[k]]
                0 <= k < firsts@.len() ==> forall|j: int|
                    0 <= j < firsts@[k] ==> #[trigger] ids@[j] != ids@[firsts@[k] as int],
            forall|m: int| 0 <= m < i ==> #[trigger] occurs_at_first(ids@, firsts@, ids@[m]),
        decreases n - i,
    {
        let v = ids[i];
        let mut seen = false;
        let mut j: usize = 0;
        while j < i
            invariant
                n == ids@.len(),
                i < n,
                j <= i,
                v == ids@[i as int],
                seen <==> exists|m: int| 0 <= m < j && ids@[m] == v,
            decreases i - j,
        {
            if ids[j] == v {
                seen = true;
            }
            j = j + 1;
        }
        let ghost before = firsts@;
        if seen {
            proof {
                let m = choose|m: int| 0 <= m < i && ids@[m] == v;
                assert(occurs_at_first(ids@, firsts@, ids@[m]));
            }
        } else {
            firsts.push(i);
            proof {
                assert forall|m: int| 0 <= m < i + 1 implies #[trigger] occurs_at_first(
                    ids@,
                    firsts@,
                    ids@[m],
                ) by {
                    if m == i {
                        assert(firsts@[before.len() as int] == i);
                    } else {
                        assert(occurs_at_first(ids@, before, ids@[m]));
                        let k = choose|k: int| 0 <= k < before.len() && ids@[before[k] as int] == ids@[m];
                        assert(firsts@[k] == before[k]);
                    }
                }
                assert forall|k: int| #![trigger firsts@[k]] 0 <= k < firsts@.len() implies forall|jj: int|
                    0 <= jj < firsts@[k] ==> #[trigger] ids@[jj] != ids@[firsts@[k] as int] by {
                    if k < before.len() {
                        assert(firsts@[k] == before[k]);
                    }
                }
            }
        }
        i = i + 1;
    }
    firsts
}

/// Two rankings of the same keys agree on their first `i` places.
proof fn lemma_ranking_prefix(keys: Seq<i64>, o1: Seq<usize>, o2: Seq<usize>, i: int)
    requires
        is_descending_ranking(keys, o1),
        is_descending_ranking(keys, o2),
        0 <= i <= keys.len(),
    ensures
        forall|j: int| 0 <= j < i ==> o1[j] == o2[j],
    decreases i,
{
    if i > 0 {
        lemma_ranking_prefix(keys, o1, o2, i - 1);
        let k = i - 1;
        let a = o1[k];
        let b = o2[k];
        if a != b {
            lemma_ranking_distinct(keys, o1);
            lemma_ranking_distinct(keys, o2);
            // `a` comes later in the second ranking, and `b` later in the first.
            assert(lists(o2, a as int));
            let ja = choose|x: int| 0 <= x < o2.len() && o2[x] == a;
            assert(lists(o1, b as int));
            let jb = choose|x: int| 0 <= x < o1.len() && o1[x] == b;
            if ja < k {
                assert(o1[ja] == o2[ja]);
            }
            if jb < k {
                assert(o1[jb] == o2[jb]);
            }
            assert(ja > k);
            assert(jb > k);
            assert(ranks_before(keys, o2[k] as int, o2[ja] as int));
            assert(ranks_before(keys, o1[k] as int, o1[jb] as int));
        }
    }
}

/// The ranking of a list of keys is unique: stable ordering from the highest key leaves no
/// choice.
pub proof fn lemma_ranking_unique(keys: Seq<i64>, o1: Seq<usize>, o2: Seq<usize>)
    requires
        is_descending_ranking(keys, o1),
        is_descending_ranking(keys, o2),
    ensures
        o1 == o2,
{
    lemma_ranking_prefix(keys, o1, o2, keys.len() as int);
    assert(o1 =~= o2);
}

} // verus!
