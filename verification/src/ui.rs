//! Text shown to users: market and instrument labels and tables.

use vstd::prelude::*;
use crate::blackjack::{
    Blackjack, BlackjackAction, Deck, GameWinner, winner_of, stake_fits, action_valid,
    closed_payout,
};
use crate::cards::{hand_text, card_text, hand_value, hand_total, card_value};
use crate::currency::{Currency, currency_text, lemma_currency_text_len, round_half_even, abs, lemma_round_half_even_magnitude};
use crate::interaction::{TradeAction, get_trade_button_id, get_market_resolve_id, tagged_action_id, tagged_id};
use crate::store::{BlackjackState, DbUser, InstrumentState, MarketState};
use crate::store::{Instrument, Market, InstrumentWithShares, PositionWithUser, find_instrument};
use crate::table::{row_view, table_text, table_view, tabulate, byte_len, is_descending_ranking, rank_descending, lemma_ranking_unique};
use crate::text::{
    lemma_byte_len_bound, lemma_signed_decimal_len, signed_zero_padded, signed_decimal, decimal,
    i64_zero_padded, i64_to_decimal, u64_to_decimal, push_char, append_str, string_from,
};

verus! {

/// How a market id is shown: `#` and the id zero-padded to four characters.
pub open spec fn market_id_text(id: i64) -> Seq<char> {
    seq!['#'] + signed_zero_padded(id as int, 4)
}

/// How an instrument is named to users: its name and its market's id.
pub open spec fn instrument_text(name: Seq<char>, market_id: i64) -> Seq<char> {
    name + " (market "@ + market_id_text(market_id) + ")"@
}

/// A market id as shown to users, such as `#0042`.
pub fn format_market_id(id: i64) -> (r: String)
    ensures
        r@ == market_id_text(id),
{
    let mut r = String::new();
    push_char(&mut r, '#');
    let padded = i64_zero_padded(id, 4);
    append_str(&mut r, padded.as_str());
    assert(r@ =~= market_id_text(id));
    r
}

/// An instrument's name together with its market's id.
pub fn instrument_display_text(instrument: &Instrument, market: &Market) -> (r: String)
    ensures
        r@ == instrument_text(instrument.name@, market.id),
{
    let mut r = string_from(instrument.name.as_str());
    append_str(&mut r, " (market ");
    let id = format_market_id(market.id);
    append_str(&mut r, id.as_str());
    append_str(&mut r, ")");
    assert(r@ =~= instrument_text(instrument.name@, market.id));
    r
}

/// Whether a position counts in the details: it holds shares.
pub open spec fn is_open_position(p: PositionWithUser) -> bool {
    p.position.quantity != 0
}

/// The positions with shares in the instrument `id`, in their original order.
pub open spec fn group_members(ps: Seq<PositionWithUser>, id: i64) -> Seq<PositionWithUser> {
    ps.filter(|p: PositionWithUser| p.position.quantity != 0 && p.position.instrument_id == id)
}

/// Whether some position among the first `j` holds shares in instrument `id`.
pub open spec fn opened_in(ps: Seq<PositionWithUser>, j: int, id: i64) -> bool {
    exists|jj: int| 0 <= jj < j && is_open_position(ps[jj]) && ps[jj].position.instrument_id == id
}

/// Whether `ids` holds `id`.
pub open spec fn lists_id(ids: Seq<i64>, id: i64) -> bool {
    exists|k: int| 0 <= k < ids.len() && ids[k] == id
}

/// Whether `ids` is, in increasing order, every instrument in which one of the first `j`
/// positions holds shares.
pub open spec fn ids_upto(ps: Seq<PositionWithUser>, j: int, ids: Seq<i64>) -> bool {
    &&& forall|a: int, b: int| 0 <= a < b < ids.len() ==> ids[a] < ids[b]
    &&& forall|k: int| 0 <= k < ids.len() ==> #[trigger] opened_in(ps, j, ids[k])
    &&& forall|jj: int|
        0 <= jj < j && is_open_position(ps[jj]) ==> #[trigger] lists_id(ids, ps[jj].position.instrument_id)
}

/// Whether `ids` is, in increasing order, every instrument in which some position holds
/// shares.
pub open spec fn details_ids(ps: Seq<PositionWithUser>, ids: Seq<i64>) -> bool {
    ids_upto(ps, ps.len() as int, ids)
}

/// The share counts of a list of positions.
pub open spec fn quantities(ps: Seq<PositionWithUser>) -> Seq<i64> {
    ps.map_values(|p: PositionWithUser| p.position.quantity)
}

/// One holder's row: name, share count and cost.
pub open spec fn holder_row(p: PositionWithUser) -> Seq<Seq<char>> {
    seq![
        p.user.name@,
        signed_decimal(p.position.quantity as int),
        currency_text(p.position.cost_basis.0 as int),
    ]
}

/// The table of one instrument: a header, then each holder's row in the order `order`.
pub open spec fn details_table(members: Seq<PositionWithUser>, order: Seq<usize>) -> Seq<
    Seq<Seq<char>>,
> {
    seq![seq!["User"@, "Quantity"@, "Paid"@]] + Seq::new(
        order.len(),
        |i: int| holder_row(members[order[i] as int]),
    )
}

/// The name of the first instrument with the given id.
pub open spec fn instrument_name(instruments: Seq<InstrumentWithShares>, id: i64) -> Seq<char> {
    find_instrument(instruments, id)->Some_0.0.name@
}

/// Lines joined with newlines.
pub open spec fn join_lines(lines: Seq<Seq<char>>) -> Seq<char>
    decreases lines.len(),
{
    if lines.len() == 0 {
        Seq::empty()
    } else if lines.len() == 1 {
        lines[0]
    } else {
        join_lines(lines.drop_last()) + seq!['\n'] + lines.last()
    }
}

/// The lines of the details of the first `g` instruments: each instrument's name, then its
/// table.
pub open spec fn details_lines(
    instruments: Seq<InstrumentWithShares>,
    ps: Seq<PositionWithUser>,
    ids: Seq<i64>,
    orders: Seq<Seq<usize>>,
    g: int,
) -> Seq<Seq<char>>
    decreases g,
{
    if g <= 0 {
        Seq::empty()
    } else {
        details_lines(instruments, ps, ids, orders, g - 1).push(instrument_name(instruments, ids[g - 1])).push(
            table_text(details_table(group_members(ps, ids[g - 1]), orders[g - 1])),
        )
    }
}

/// Whether every position with shares can be shown: its instrument is listed, and its cost is
/// not the one amount that cannot be written.
pub open spec fn details_shown(instruments: Seq<InstrumentWithShares>, ps: Seq<PositionWithUser>) -> bool {
    forall|j: int|
        0 <= j < ps.len() && is_open_position(ps[j]) ==> {
            &&& find_instrument(instruments, #[trigger] ps[j].position.instrument_id) is Some
            &&& ps[j].position.cost_basis.0 != i64::MIN
            &&& byte_len(ps[j].user.name@) + 2 <= usize::MAX
        }
}

/// The first instrument with the given id, if any.
fn find_instrument_ref(instruments: &Vec<InstrumentWithShares>, id: i64) -> (r: Option<&InstrumentWithShares>)
    ensures
        match r {
            Some(found) => find_instrument(instruments@, id) == Some(*found),
            None => find_instrument(instruments@, id) is None,
        },
{
    let mut i: usize = 0;
    assert(instruments@.subrange(0, instruments@.len() as int) =~= instruments@);
    while i < instruments.len()
        invariant
            i <= instruments@.len(),
            find_instrument(instruments@, id) == find_instrument(
                instruments@.subrange(i as int, instruments@.len() as int),
                id,
            ),
        decreases instruments@.len() - i,
    {
        let ghost rest = instruments@.subrange(i as int, instruments@.len() as int);
        assert(rest.drop_first() =~= instruments@.subrange(i as int + 1, instruments@.len() as int));
        if instruments[i].0.id == id {
            return Some(&instruments[i]);
        }
        i = i + 1;
    }
    None
}

/// Adding position `j` to those considered keeps `ids` complete when it holds no shares or
/// when its instrument is already listed.
proof fn lemma_ids_step_listed(ps: Seq<PositionWithUser>, j: int, ids: Seq<i64>)
    requires
        0 <= j < ps.len(),
        ids_upto(ps, j, ids),
        is_open_position(ps[j]) ==> lists_id(ids, ps[j].position.instrument_id),
    ensures
        ids_upto(ps, j + 1, ids),
{
    assert forall|k: int| 0 <= k < ids.len() implies #[trigger] opened_in(ps, j + 1, ids[k]) by {
        assert(opened_in(ps, j, ids[k]));
        let jj = choose|jj: int|
            0 <= jj < j && is_open_position(ps[jj]) && ps[jj].position.instrument_id == ids[k];
    }
}

/// Inserting the instrument of position `j` at its place keeps `ids` ordered and complete.
proof fn lemma_ids_step_insert(ps: Seq<PositionWithUser>, j: int, ids: Seq<i64>, q: int)
    requires
        0 <= j < ps.len(),
        is_open_position(ps[j]),
        ids_upto(ps, j, ids),
        0 <= q <= ids.len(),
        forall|a: int| 0 <= a < q ==> ids[a] < ps[j].position.instrument_id,
        forall|a: int| q <= a < ids.len() ==> ps[j].position.instrument_id < ids[a],
    ensures
        ids_upto(ps, j + 1, ids.insert(q, ps[j].position.instrument_id)),
{
    let id = ps[j].position.instrument_id;
    let n = ids.insert(q, id);
    assert forall|a: int, b: int| 0 <= a < b < n.len() implies n[a] < n[b] by {
        if b < q {
            assert(n[a] == ids[a] && n[b] == ids[b]);
        } else if b == q {
            assert(n[a] == ids[a]);
        } else if a < q {
            assert(n[a] == ids[a] && n[b] == ids[b - 1]);
        } else if a == q {
            assert(n[b] == ids[b - 1]);
        } else {
            assert(n[a] == ids[a - 1] && n[b] == ids[b - 1]);
        }
    }
    assert forall|k: int| 0 <= k < n.len() implies #[trigger] opened_in(ps, j + 1, n[k]) by {
        if k == q {
            assert(is_open_position(ps[j]) && ps[j].position.instrument_id == n[k]);
        } else {
            let old_k = if k < q { k } else { k - 1 };
            assert(n[k] == ids[old_k]);
            assert(opened_in(ps, j, ids[old_k]));
            let jj = choose|jj: int|
                0 <= jj < j && is_open_position(ps[jj]) && ps[jj].position.instrument_id == ids[old_k];
        }
    }
    assert forall|jj: int| 0 <= jj < j + 1 && is_open_position(ps[jj]) implies #[trigger] lists_id(
        n,
        ps[jj].position.instrument_id,
    ) by {
        if jj == j {
            assert(n[q] == id);
        } else {
            assert(lists_id(ids, ps[jj].position.instrument_id));
            let k = choose|k: int| 0 <= k < ids.len() && ids[k] == ps[jj].position.instrument_id;
            if k < q {
                assert(n[k] == ids[k]);
            } else {
                assert(n[k + 1] == ids[k]);
            }
        }
    }
}

/// In increasing order, every instrument in which some position holds shares.
fn open_instrument_ids(ps: &Vec<PositionWithUser>) -> (ids: Vec<i64>)
    ensures
        details_ids(ps@, ids@),
{
    let mut ids: Vec<i64> = Vec::new();
    let mut j: usize = 0;
    while j < ps.len()
        invariant
            j <= ps@.len(),
            ids_upto(ps@, j as int, ids@),
        decreases ps@.len() - j,
    {
        let p = &ps[j];
        if p.position.quantity != 0 {
            let id = p.position.instrument_id;
            let mut q: usize = 0;
            while q < ids.len() && ids[q] < id
                invariant
                    q <= ids@.len(),
                    forall|a: int| 0 <= a < q ==> ids@[a] < id,
                decreases ids@.len() - q,
            {
                q = q + 1;
            }
            if q < ids.len() && ids[q] == id {
                proof {
                    assert(lists_id(ids@, id));
                    lemma_ids_step_listed(ps@, j as int, ids@);
                }
            } else {
                let ghost before = ids@;
                proof {
                    assert forall|a: int| q <= a < before.len() implies id < before[a] by {
                        if a > q {
                            assert(before[q as int] < before[a]);
                        }
                    }
                    lemma_ids_step_insert(ps@, j as int, before, q as int);
                }
                ids.insert(q, id);
            }
        } else {
            proof {
                lemma_ids_step_listed(ps@, j as int, ids@);
            }
        }
        j = j + 1;
    }
    ids
}

/// The indices of the positions with shares in instrument `id`, in their original order.
fn group_indices(ps: &Vec<PositionWithUser>, id: i64) -> (r: Vec<usize>)
    ensures
        r@.map_values(|k: usize| ps@[k as int]) == group_members(ps@, id),
        forall|i: int| 0 <= i < r@.len() ==> #[trigger] r@[i] < ps@.len(),
        forall|i: int|
            0 <= i < r@.len() ==> is_open_position(ps@[#[trigger] r@[i] as int])
                && ps@[r@[i] as int].position.instrument_id == id,
{
    let mut r: Vec<usize> = Vec::new();
    let mut j: usize = 0;
    assert(ps@.take(0) =~= Seq::<PositionWithUser>::empty());
    proof {
        reveal(Seq::filter);
    }
    while j < ps.len()
        invariant
            j <= ps@.len(),
            r@.map_values(|k: usize| ps@[k as int]) == ps@.take(j as int).filter(
                |p: PositionWithUser| p.position.quantity != 0 && p.position.instrument_id == id,
            ),
            forall|i: int| 0 <= i < r@.len() ==> #[trigger] r@[i] < ps@.len(),
            forall|i: int|
                0 <= i < r@.len() ==> is_open_position(ps@[#[trigger] r@[i] as int])
                    && ps@[r@[i] as int].position.instrument_id == id,
        decreases ps@.len() - j,
    {
        let ghost pred = |p: PositionWithUser| p.position.quantity != 0 && p.position.instrument_id == id;
        let ghost next = ps@.take(j as int + 1);
        assert(next.drop_last() =~= ps@.take(j as int));
        assert(next.last() == ps@[j as int]);
        proof {
            reveal(Seq::filter);
        }
        let ghost before = r@;
        if ps[j].position.quantity != 0 && ps[j].position.instrument_id == id {
            r.push(j);
            assert(r@.map_values(|k: usize| ps@[k as int]) =~= before.map_values(
                |k: usize| ps@[k as int],
            ).push(ps@[j as int]));
        }
        j = j + 1;
    }
    assert(ps@.take(ps@.len() as int) =~= ps@);
    r
}

/// Whether `orders` ranks, for each instrument of `ids`, its holders by share count from
/// most to fewest, equal counts in their original order.
pub open spec fn details_orders(ps: Seq<PositionWithUser>, ids: Seq<i64>, orders: Seq<Seq<usize>>) -> bool {
    &&& orders.len() == ids.len()
    &&& forall|g: int|
        0 <= g < ids.len() ==> is_descending_ranking(
            quantities(group_members(ps, ids[g])),
            #[trigger] orders[g],
        )
}

/// The text of the details of a market's positions, given the instruments and rankings.
pub open spec fn details_text(
    instruments: Seq<InstrumentWithShares>,
    ps: Seq<PositionWithUser>,
    ids: Seq<i64>,
    orders: Seq<Seq<usize>>,
) -> Seq<char> {
    if ids.len() == 0 {
        "No open positions for this market."@
    } else {
        join_lines(details_lines(instruments, ps, ids, orders, ids.len() as int))
    }
}

/// The lines of the first `g` instruments depend only on the first `g` rankings.
proof fn lemma_details_lines_prefix(
    instruments: Seq<InstrumentWithShares>,
    ps: Seq<PositionWithUser>,
    ids: Seq<i64>,
    o1: Seq<Seq<usize>>,
    o2: Seq<Seq<usize>>,
    g: int,
)
    requires
        0 <= g,
        g <= o1.len(),
        g <= o2.len(),
        forall|h: int| 0 <= h < g ==> o1[h] == o2[h],
    ensures
        details_lines(instruments, ps, ids, o1, g) == details_lines(instruments, ps, ids, o2, g),
    decreases g,
{
    if g > 0 {
        lemma_details_lines_prefix(instruments, ps, ids, o1, o2, g - 1);
    }
}

/// The table of one instrument's holders, from the indices of its positions.
fn holders_table(ps: &Vec<PositionWithUser>, idx: &Vec<usize>, Ghost(id): Ghost<i64>) -> (r: (
    String,
    Ghost<Seq<usize>>,
))
    requires
        idx@.map_values(|k: usize| ps@[k as int]) == group_members(ps@, id),
        forall|i: int| 0 <= i < idx@.len() ==> #[trigger] idx@[i] < ps@.len(),
        forall|i: int|
            0 <= i < idx@.len() ==> ps@[#[trigger] idx@[i] as int].position.cost_basis.0 != i64::MIN
                && byte_len(ps@[idx@[i] as int].user.name@) + 2 <= usize::MAX,
    ensures
        is_descending_ranking(quantities(group_members(ps@, id)), r.1@),
        r.0@ == table_text(details_table(group_members(ps@, id), r.1@)),
{
    let ghost members = group_members(ps@, id);
    assert(members.len() == idx@.len());
    let mut keys: Vec<i64> = Vec::new();
    let mut i: usize = 0;
    while i < idx.len()
        invariant
            i <= idx@.len(),
            members == group_members(ps@, id),
            idx@.map_values(|k: usize| ps@[k as int]) == members,
            forall|m: int| 0 <= m < idx@.len() ==> #[trigger] idx@[m] < ps@.len(),
            keys@.len() == i,
            forall|m: int| 0 <= m < i ==> keys@[m] == #[trigger] members[m].position.quantity,
        decreases idx@.len() - i,
    {
        assert(members[i as int] == ps@[idx@[i as int] as int]);
        keys.push(ps[idx[i]].position.quantity);
        i = i + 1;
    }
    assert(keys@ =~= quantities(members));
    let order = rank_descending(&keys);
    let ghost header = seq!["User"@, "Quantity"@, "Paid"@];
    let ghost ord = order@;
    let mut rows: Vec<[String; 3]> = Vec::new();
    let first = [string_from("User"), string_from("Quantity"), string_from("Paid")];
    assert(row_view(first) =~= header);
    rows.push(first);
    proof {
        reveal_strlit("User");
        reveal_strlit("Quantity");
        reveal_strlit("Paid");
        lemma_byte_len_bound("User"@);
        lemma_byte_len_bound("Quantity"@);
        lemma_byte_len_bound("Paid"@);
        assert(table_view(rows@) =~= seq![header]);
    }
    let mut j: usize = 0;
    while j < order.len()
        invariant
            j <= order@.len(),
            members == group_members(ps@, id),
            idx@.map_values(|k: usize| ps@[k as int]) == members,
            forall|m: int| 0 <= m < idx@.len() ==> #[trigger] idx@[m] < ps@.len(),
            forall|m: int|
                0 <= m < idx@.len() ==> ps@[#[trigger] idx@[m] as int].position.cost_basis.0
                    != i64::MIN && byte_len(ps@[idx@[m] as int].user.name@) + 2 <= usize::MAX,
            keys@ == quantities(members),
            ord == order@,
            is_descending_ranking(keys@, order@),
            order@.len() == members.len(),
            rows@.len() == j + 1,
            table_view(rows@) == seq![header] + Seq::new(j as nat, |i: int| holder_row(members[ord[i] as int])),
            forall|a: int, c: int|
                0 <= a < rows@.len() && 0 <= c < 3 ==> byte_len(#[trigger] rows@[a]@[c]@) + 2
                    <= usize::MAX,
        decreases order@.len() - j,
    {
        let o = order[j];
        assert(order@[j as int] < keys@.len());
        let k = idx[o];
        assert(members[o as int] == ps@[k as int]);
        let p = &ps[k];
        let ghost before = rows@;
        let name = p.user.name.clone();
        let qty = i64_to_decimal(p.position.quantity);
        let paid = p.position.cost_basis.to_string();
        proof {
            lemma_signed_decimal_len(p.position.quantity);
            lemma_currency_text_len(p.position.cost_basis.0);
            lemma_byte_len_bound(qty@);
            lemma_byte_len_bound(paid@);
        }
        let row = [name, qty, paid];
        assert(members[order@[j as int] as int] == *p);
        assert(holder_row(members[ord[j as int] as int]) == holder_row(*p));
        assert(row_view(row) =~= holder_row(members[ord[j as int] as int]));
        rows.push(row);
        proof {
            assert(rows@.drop_last() == before);
            assert(table_view(rows@) =~= table_view(before).push(holder_row(members[ord[j as int] as int])));
            assert(seq![header] + Seq::new(j as nat + 1, |i: int| holder_row(members[ord[i] as int])) =~= (seq![header] + Seq::new(
                j as nat,
                |i: int| holder_row(members[ord[i] as int]),
            )).push(holder_row(members[ord[j as int] as int])));
            assert forall|a: int, c: int|
                0 <= a < rows@.len() && 0 <= c < 3 implies byte_len(#[trigger] rows@[a]@[c]@) + 2
                <= usize::MAX by {
                if a < before.len() {
                    assert(rows@[a] == before[a]);
                }
            }
        }
        j = j + 1;
    }
    assert(seq![header] + Seq::new(order@.len(), |i: int| holder_row(members[ord[i] as int])) =~= details_table(members, order@));
    let table = tabulate(rows);
    (table, Ghost(order@))
}

/// Whether a position holds shares, as a predicate.
pub open spec fn holds_shares() -> spec_fn(PositionWithUser) -> bool {
    |p: PositionWithUser| p.position.quantity != 0
}

/// The positions that hold shares, in their original order.
pub open spec fn open_positions(ps: Seq<PositionWithUser>) -> Seq<PositionWithUser> {
    ps.filter(holds_shares())
}

proof fn lemma_group_of_open(ps: Seq<PositionWithUser>, id: i64)
    ensures
        group_members(open_positions(ps), id) == group_members(ps, id),
    decreases ps.len(),
{
    reveal(Seq::filter);
    if ps.len() > 0 {
        let dl = ps.drop_last();
        let x = ps.last();
        lemma_group_of_open(dl, id);
        let o = open_positions(dl);
        if x.position.quantity != 0 {
            assert(open_positions(ps) == o.push(x));
            assert(o.push(x).drop_last() =~= o);
        } else {
            assert(open_positions(ps) == o);
        }
    }
}

proof fn lemma_opened_open(ps: Seq<PositionWithUser>, id: i64)
    ensures
        opened_in(ps, ps.len() as int, id) == opened_in(
            open_positions(ps),
            open_positions(ps).len() as int,
            id,
        ),
{
    broadcast use vstd::seq_lib::group_filter_ensures;

    let o = open_positions(ps);
    if opened_in(ps, ps.len() as int, id) {
        let jj = choose|jj: int|
            0 <= jj < ps.len() && is_open_position(ps[jj]) && ps[jj].position.instrument_id == id;
        ps.lemma_filter_contains(holds_shares(), jj);
        let i = choose|i: int| 0 <= i < o.len() && o[i] == ps[jj];
        assert(is_open_position(o[i]) && o[i].position.instrument_id == id);
    }
    if opened_in(o, o.len() as int, id) {
        let i = choose|i: int|
            0 <= i < o.len() && is_open_position(o[i]) && o[i].position.instrument_id == id;
        ps.lemma_filter_contains_rev(holds_shares(), o[i]);
        let jj = choose|jj: int| 0 <= jj < ps.len() && ps[jj] == o[i];
        assert(is_open_position(ps[jj]) && ps[jj].position.instrument_id == id);
    }
}

proof fn lemma_ids_of_open(ps: Seq<PositionWithUser>, ids: Seq<i64>)
    ensures
        details_ids(ps, ids) == details_ids(open_positions(ps), ids),
{
    broadcast use vstd::seq_lib::group_filter_ensures;

    let o = open_positions(ps);
    assert forall|k: int| 0 <= k < ids.len() implies opened_in(ps, ps.len() as int, ids[k])
        == opened_in(o, o.len() as int, ids[k]) by {
        lemma_opened_open(ps, ids[k]);
    }
    if forall|jj: int|
        0 <= jj < ps.len() && is_open_position(ps[jj]) ==> #[trigger] lists_id(
            ids,
            ps[jj].position.instrument_id,
        ) {
        assert forall|i: int| 0 <= i < o.len() && is_open_position(o[i]) implies #[trigger] lists_id(
            ids,
            o[i].position.instrument_id,
        ) by {
            ps.lemma_filter_contains_rev(holds_shares(), o[i]);
            let jj = choose|jj: int| 0 <= jj < ps.len() && ps[jj] == o[i];
            assert(lists_id(ids, ps[jj].position.instrument_id));
        }
    }
    if forall|i: int|
        0 <= i < o.len() && is_open_position(o[i]) ==> #[trigger] lists_id(
            ids,
            o[i].position.instrument_id,
        ) {
        assert forall|jj: int| 0 <= jj < ps.len() && is_open_position(ps[jj]) implies #[trigger] lists_id(
            ids,
            ps[jj].position.instrument_id,
        ) by {
            ps.lemma_filter_contains(holds_shares(), jj);
            let i = choose|i: int| 0 <= i < o.len() && o[i] == ps[jj];
            assert(lists_id(ids, o[i].position.instrument_id));
        }
    }
}

proof fn lemma_lines_of_open(
    instruments: Seq<InstrumentWithShares>,
    ps: Seq<PositionWithUser>,
    ids: Seq<i64>,
    orders: Seq<Seq<usize>>,
    g: int,
)
    ensures
        details_lines(instruments, ps, ids, orders, g) == details_lines(
            instruments,
            open_positions(ps),
            ids,
            orders,
            g,
        ),
    decreases g,
{
    if g > 0 {
        lemma_lines_of_open(instruments, ps, ids, orders, g - 1);
        lemma_group_of_open(ps, ids[g - 1]);
    }
}

/// Positions that hold no shares make no difference to a market's details: without them the
/// same instruments are listed, the same rankings order their holders, and the text is the
/// same.
pub proof fn lemma_details_ignore_closed(
    instruments: Seq<InstrumentWithShares>,
    ps: Seq<PositionWithUser>,
    ids: Seq<i64>,
    orders: Seq<Seq<usize>>,
)
    ensures
        details_ids(ps, ids) == details_ids(open_positions(ps), ids),
        details_orders(ps, ids, orders) == details_orders(open_positions(ps), ids, orders),
        details_text(instruments, ps, ids, orders) == details_text(
            instruments,
            open_positions(ps),
            ids,
            orders,
        ),
{
    lemma_ids_of_open(ps, ids);
    assert forall|g: int| 0 <= g < ids.len() implies group_members(open_positions(ps), ids[g])
        == group_members(ps, ids[g]) by {
        lemma_group_of_open(ps, ids[g]);
    }
    lemma_lines_of_open(instruments, ps, ids, orders, ids.len() as int);
}

/// Two increasing lists of ids that hold the same ids are the same list.
proof fn lemma_sorted_same_members(a: Seq<i64>, b: Seq<i64>)
    requires
        forall|i: int, j: int| 0 <= i < j < a.len() ==> a[i] < a[j],
        forall|i: int, j: int| 0 <= i < j < b.len() ==> b[i] < b[j],
        forall|x: i64| lists_id(a, x) == lists_id(b, x),
    ensures
        a == b,
    decreases a.len(),
{
    if a.len() == 0 {
        if b.len() > 0 {
            assert(lists_id(b, b[0]));
        }
    } else if b.len() == 0 {
        assert(lists_id(a, a[0]));
    } else {
        assert(lists_id(a, a[0]));
        assert(lists_id(b, b[0]));
        let ka = choose|k: int| 0 <= k < b.len() && b[k] == a[0];
        let kb = choose|k: int| 0 <= k < a.len() && a[k] == b[0];
        assert(a[0] == b[0]);
        let ta = a.drop_first();
        let tb = b.drop_first();
        assert forall|x: i64| lists_id(ta, x) == lists_id(tb, x) by {
            if lists_id(ta, x) {
                let k = choose|k: int| 0 <= k < ta.len() && ta[k] == x;
                assert(a[k + 1] == x);
                assert(lists_id(a, x));
                let m = choose|m: int| 0 <= m < b.len() && b[m] == x;
                assert(m != 0);
                assert(tb[m - 1] == x);
            }
            if lists_id(tb, x) {
                let k = choose|k: int| 0 <= k < tb.len() && tb[k] == x;
                assert(b[k + 1] == x);
                assert(lists_id(b, x));
                let m = choose|m: int| 0 <= m < a.len() && a[m] == x;
                assert(m != 0);
                assert(ta[m - 1] == x);
            }
        }
        lemma_sorted_same_members(ta, tb);
        assert(a =~= seq![a[0]] + ta);
        assert(b =~= seq![b[0]] + tb);
    }
}

/// A market's details are determined by its positions: every list of instruments and every
/// choice of rankings that describe them give the same lists and rankings, and so the same
/// text; and with no position holding shares the text is the note that nobody does.
pub proof fn lemma_details_determined(
    instruments: Seq<InstrumentWithShares>,
    ps: Seq<PositionWithUser>,
    ids1: Seq<i64>,
    orders1: Seq<Seq<usize>>,
    ids2: Seq<i64>,
    orders2: Seq<Seq<usize>>,
)
    requires
        details_ids(ps, ids1),
        details_orders(ps, ids1, orders1),
        details_ids(ps, ids2),
        details_orders(ps, ids2, orders2),
    ensures
        ids1 == ids2,
        orders1 == orders2,
        details_text(instruments, ps, ids1, orders1) == details_text(
            instruments,
            ps,
            ids2,
            orders2,
        ),
        (forall|j: int| 0 <= j < ps.len() ==> !is_open_position(#[trigger] ps[j]))
            ==> details_text(instruments, ps, ids1, orders1) == "No open positions for this market."@,
{
    let n = ps.len() as int;
    assert forall|x: i64| lists_id(ids1, x) == lists_id(ids2, x) by {
        if lists_id(ids1, x) {
            let k = choose|k: int| 0 <= k < ids1.len() && ids1[k] == x;
            assert(opened_in(ps, n, ids1[k]));
            let jj = choose|jj: int|
                0 <= jj < n && is_open_position(ps[jj]) && ps[jj].position.instrument_id == x;
            assert(lists_id(ids2, ps[jj].position.instrument_id));
        }
        if lists_id(ids2, x) {
            let k = choose|k: int| 0 <= k < ids2.len() && ids2[k] == x;
            assert(opened_in(ps, n, ids2[k]));
            let jj = choose|jj: int|
                0 <= jj < n && is_open_position(ps[jj]) && ps[jj].position.instrument_id == x;
            assert(lists_id(ids1, ps[jj].position.instrument_id));
        }
    }
    lemma_sorted_same_members(ids1, ids2);
    assert forall|g: int| 0 <= g < ids1.len() implies orders1[g] == orders2[g] by {
        lemma_ranking_unique(quantities(group_members(ps, ids1[g])), orders1[g], orders2[g]);
    }
    assert(orders1 =~= orders2);
    if forall|j: int| 0 <= j < ps.len() ==> !is_open_position(#[trigger] ps[j]) {
        if ids1.len() > 0 {
            assert(opened_in(ps, n, ids1[0]));
        }
    }
}

/// The details of a market's positions read the same with or without the positions that hold
/// no shares, whichever lists and rankings describe each.
pub proof fn lemma_details_render_ignore_closed(
    instruments: Seq<InstrumentWithShares>,
    ps: Seq<PositionWithUser>,
    ids1: Seq<i64>,
    orders1: Seq<Seq<usize>>,
    ids2: Seq<i64>,
    orders2: Seq<Seq<usize>>,
)
    requires
        details_ids(ps, ids1),
        details_orders(ps, ids1, orders1),
        details_ids(open_positions(ps), ids2),
        details_orders(open_positions(ps), ids2, orders2),
    ensures
        details_text(instruments, ps, ids1, orders1) == details_text(
            instruments,
            open_positions(ps),
            ids2,
            orders2,
        ),
{
    lemma_details_ignore_closed(instruments, ps, ids1, orders1);
    lemma_details_determined(instruments, open_positions(ps), ids1, orders1, ids2, orders2);
}

/// The details of a market's open positions: for each instrument in which someone holds
/// shares, in increasing order of id, its name and then a table of its holders (name, share
/// count, cost) from most shares to fewest, all joined with newlines; or a note that nobody
/// holds shares.
pub fn render_details_message(
    instruments: &Vec<InstrumentWithShares>,
    all_positions: &Vec<PositionWithUser>,
) -> (r: String)
    requires
        details_shown(instruments@, all_positions@),
    ensures
        exists|ids: Seq<i64>, orders: Seq<Seq<usize>>|
            {
                &&& details_ids(all_positions@, ids)
                &&& details_orders(all_positions@, ids, orders)
                &&& r@ == details_text(instruments@, all_positions@, ids, orders)
            },
{
    let ids = open_instrument_ids(all_positions);
    if ids.len() == 0 {
        let r = string_from("No open positions for this market.");
        assert(details_orders(all_positions@, ids@, Seq::empty()));
        return r;
    }
    let ghost mut orders: Seq<Seq<usize>> = Seq::empty();
    let mut out = String::new();
    let mut g: usize = 0;
    while g < ids.len()
        invariant
            g <= ids@.len(),
            details_ids(all_positions@, ids@),
            details_shown(instruments@, all_positions@),
            orders.len() == g,
            forall|h: int|
                0 <= h < g ==> is_descending_ranking(
                    quantities(group_members(all_positions@, ids@[h])),
                    #[trigger] orders[h],
                ),
            out@ == join_lines(details_lines(instruments@, all_positions@, ids@, orders, g as int)),
        decreases ids@.len() - g,
    {
        let id = ids[g];
        let idx = group_indices(all_positions, id);
        proof {
            assert forall|i: int| 0 <= i < idx@.len() implies all_positions@[
                #[trigger] idx@[i] as int].position.cost_basis.0 != i64::MIN && byte_len(
                all_positions@[idx@[i] as int].user.name@,
            ) + 2 <= usize::MAX by {
                assert(is_open_position(all_positions@[idx@[i] as int]));
                assert(find_instrument(instruments@, all_positions@[idx@[i] as int].position.instrument_id) is Some);
            }
            assert(opened_in(all_positions@, all_positions@.len() as int, ids@[g as int]));
            let jj = choose|jj: int|
                0 <= jj < all_positions@.len() && is_open_position(all_positions@[jj])
                    && all_positions@[jj].position.instrument_id == id;
            assert(find_instrument(instruments@, all_positions@[jj].position.instrument_id) is Some);
        }
        let (table, Ghost(order)) = holders_table(all_positions, &idx, Ghost(id));
        let found = find_instrument_ref(instruments, id);
        let name = match found {
            Some(inst) => inst.0.name.clone(),
            None => {
                proof {
                    assert(false);
                }
                String::new()
            },
        };
        let ghost prev_orders = orders;
        proof {
            orders = orders.push(order);
        }
        if g > 0 {
            push_char(&mut out, '\n');
        }
        append_str(&mut out, name.as_str());
        push_char(&mut out, '\n');
        append_str(&mut out, table.as_str());
        proof {
            lemma_details_lines_prefix(instruments@, all_positions@, ids@, orders, prev_orders, g as int);
            let lines = details_lines(instruments@, all_positions@, ids@, prev_orders, g as int);
            let next = details_lines(instruments@, all_positions@, ids@, orders, g as int + 1);
            assert(next == lines.push(name@).push(table@));
            assert(next.drop_last() =~= lines.push(name@));
            assert(lines.push(name@).drop_last() =~= lines);
            assert(join_lines(next) == join_lines(lines.push(name@)) + seq!['\n'] + table@);
            if g > 0 {
                assert(lines.len() > 0);
                assert(join_lines(lines.push(name@)) == join_lines(lines) + seq!['\n'] + name@);
            } else {
                assert(lines.len() == 0);
                assert(join_lines(lines.push(name@)) == name@);
            }
        }
        g = g + 1;
    }
    assert(details_orders(all_positions@, ids@, orders));
    assert(out@ == details_text(instruments@, all_positions@, ids@, orders));
    out
}

/// The texts of a blackjack table's message and the actions its buttons offer.
pub struct BlackjackMessage {
    /// The owner's name and the stake.
    pub info: String,
    /// How the game stands.
    pub status: String,
    /// The dealer's cards as shown, and their value.
    pub dealer: String,
    /// The player's cards and their value.
    pub player: String,
    /// The actions allowed now, in the order hit, stand, double down, reveal.
    pub buttons: Vec<BlackjackAction>,
}

/// How a game stands, as told to its owner.
pub open spec fn blackjack_status_text(
    state: BlackjackState,
    winner: GameWinner,
    owner: Seq<char>,
    staked: Currency,
) -> Seq<char> {
    match state {
        BlackjackState::Betting => "Betting in progress."@,
        BlackjackState::Stand => "Player stood. Click to reveal dealer's cards."@,
        BlackjackState::PlayerBust => "Player busted. Click to reveal dealer's cards."@,
        BlackjackState::Closed => match winner {
            GameWinner::Dealer => "Dealer wins. You lost "@ + currency_text(staked.0 as int) + "."@,
            GameWinner::Player => owner + " wins "@ + currency_text(staked.0 * 2) + "."@,
            GameWinner::Push | GameWinner::PushNatural => "Push. "@ + owner + " receives "@
                + currency_text(staked.0 as int) + " back."@,
            GameWinner::DealerNatural => "Dealer gets natural 21. You lost "@ + currency_text(
                staked.0 as int,
            ),
            GameWinner::PlayerNatural => "You got a natural 21. You win "@ + currency_text(
                round_half_even(staked.0 * 5, 2),
            ),
        },
    }
}

/// A closed game's status tells what the game settled: when it pays nothing, that the stake
/// was lost; when it pays, the amount paid; and for a push, that the owner gets the stake back.
pub proof fn lemma_closed_status_tells_settlement(w: GameWinner, owner: Seq<char>, staked: Currency)
    requires
        stake_fits(staked),
    ensures
        ({
            let st = blackjack_status_text(BlackjackState::Closed, w, owner, staked);
            match closed_payout(w, staked) {
                None => st == "Dealer wins. You lost "@ + currency_text(staked.0 as int) + "."@
                    || st == "Dealer gets natural 21. You lost "@ + currency_text(staked.0 as int),
                Some(p) => st == owner + " wins "@ + currency_text(p.0 as int) + "."@ || st
                    == "You got a natural 21. You win "@ + currency_text(p.0 as int) || st
                    == "Push. "@ + owner + " receives "@ + currency_text(p.0 as int) + " back."@,
            }
        }),
        (w == GameWinner::Push || w == GameWinner::PushNatural) ==> closed_payout(w, staked)
            == Some(staked) && blackjack_status_text(BlackjackState::Closed, w, owner, staked)
            == "Push. "@ + owner + " receives "@ + currency_text(staked.0 as int) + " back."@,
{
    lemma_round_half_even_magnitude(staked.0 * 5, 2);
}

/// The actions allowed in a game, in the order hit, stand, double down, reveal.
pub open spec fn allowed_actions(state: BlackjackState, player_len: nat) -> Seq<BlackjackAction> {
    (if action_valid(state, player_len, BlackjackAction::Hit) {
        seq![BlackjackAction::Hit]
    } else {
        Seq::empty()
    }) + (if action_valid(state, player_len, BlackjackAction::Stand) {
        seq![BlackjackAction::Stand]
    } else {
        Seq::empty()
    }) + (if action_valid(state, player_len, BlackjackAction::DoubleDown) {
        seq![BlackjackAction::DoubleDown]
    } else {
        Seq::empty()
    }) + (if action_valid(state, player_len, BlackjackAction::Reveal) {
        seq![BlackjackAction::Reveal]
    } else {
        Seq::empty()
    })
}

/// The hand a side shows and its value: `label: cards (value)`.
pub open spec fn hand_line(label: Seq<char>, cards: Seq<char>, value: int) -> Seq<char> {
    label + ": "@ + cards + " ("@ + decimal(value as nat) + ")"@
}

fn make_hand_line(label: &str, cards: &String, value: u8) -> (r: String)
    ensures
        r@ == hand_line(label@, cards@, value as int),
{
    let mut r = string_from(label);
    append_str(&mut r, ": ");
    append_str(&mut r, cards.as_str());
    append_str(&mut r, " (");
    let v = u64_to_decimal(value as u64);
    append_str(&mut r, v.as_str());
    append_str(&mut r, ")");
    r
}

/// What a blackjack table shows its owner: name and stake, how the game stands, both hands
/// (the dealer's hidden card kept back until the game closes) and the buttons of the allowed
/// actions.
pub fn render_blackjack_message<D: Deck>(blackjack: &Blackjack<D>, owner: &DbUser) -> (r:
    BlackjackMessage)
    requires
        hand_total(blackjack.player@) <= 255,
        hand_total(blackjack.dealer@) <= 255,
        blackjack.dealer@.len() > 0,
        blackjack.staked.0 != i64::MIN,
        blackjack.state == BlackjackState::Closed ==> stake_fits(blackjack.staked),
    ensures
        r.info@ == owner.name@ + " ("@ + currency_text(blackjack.staked.0 as int) + " bet)"@,
        r.status@ == blackjack_status_text(
            blackjack.state,
            winner_of(blackjack.player@, blackjack.dealer@),
            owner.name@,
            blackjack.staked,
        ),
        r.dealer@ == hand_line(
            "Dealer"@,
            if blackjack.state == BlackjackState::Closed {
                hand_text(blackjack.dealer@)
            } else {
                card_text(blackjack.dealer@[0]) + seq![' ', '?']
            },
            if blackjack.state == BlackjackState::Closed {
                hand_value(blackjack.dealer@)
            } else {
                card_value(blackjack.dealer@[0]) as int
            },
        ),
        r.player@ == hand_line("Player"@, hand_text(blackjack.player@), hand_value(blackjack.player@)),
        r.buttons@ == allowed_actions(blackjack.state, blackjack.player@.len()),
{
    let staked = blackjack.staked;
    proof {
        if blackjack.state == BlackjackState::Closed {
            assert(abs(staked.0 as int) * 5 <= 2 * (i64::MAX as int));
        }
    }
    let mut info = string_from(owner.name.as_str());
    append_str(&mut info, " (");
    let stake_text = staked.to_string();
    append_str(&mut info, stake_text.as_str());
    append_str(&mut info, " bet)");

    let status = match blackjack.state {
        BlackjackState::Betting => string_from("Betting in progress."),
        BlackjackState::Stand => string_from("Player stood. Click to reveal dealer's cards."),
        BlackjackState::PlayerBust => string_from("Player busted. Click to reveal dealer's cards."),
        BlackjackState::Closed => match blackjack.winner() {
            GameWinner::Dealer => {
                let mut s = string_from("Dealer wins. You lost ");
                append_str(&mut s, stake_text.as_str());
                append_str(&mut s, ".");
                s
            },
            GameWinner::Player => {
                let mut s = string_from(owner.name.as_str());
                append_str(&mut s, " wins ");
                let won = staked.mul_int(2).to_string();
                append_str(&mut s, won.as_str());
                append_str(&mut s, ".");
                s
            },
            GameWinner::Push | GameWinner::PushNatural => {
                let mut s = string_from("Push. ");
                append_str(&mut s, owner.name.as_str());
                append_str(&mut s, " receives ");
                append_str(&mut s, stake_text.as_str());
                append_str(&mut s, " back.");
                s
            },
            GameWinner::DealerNatural => {
                let mut s = string_from("Dealer gets natural 21. You lost ");
                append_str(&mut s, stake_text.as_str());
                s
            },
            GameWinner::PlayerNatural => {
                proof {
                    lemma_round_half_even_magnitude(staked.0 * 5, 2);
                }
                let mut s = string_from("You got a natural 21. You win ");
                let won = staked.mul_fraction(5, 2).to_string();
                append_str(&mut s, won.as_str());
                s
            },
        },
    };

    let dealer_cards = blackjack.dealer_display();
    let dealer = make_hand_line("Dealer", &dealer_cards, blackjack.dealer_value());
    let player_cards = blackjack.player_display();
    let player = make_hand_line("Player", &player_cards, blackjack.player_value());

    let mut buttons: Vec<BlackjackAction> = Vec::new();
    if blackjack.is_action_valid(BlackjackAction::Hit) {
        buttons.push(BlackjackAction::Hit);
    }
    if blackjack.is_action_valid(BlackjackAction::Stand) {
        buttons.push(BlackjackAction::Stand);
    }
    if blackjack.is_action_valid(BlackjackAction::DoubleDown) {
        buttons.push(BlackjackAction::DoubleDown);
    }
    if blackjack.is_action_valid(BlackjackAction::Reveal) {
        buttons.push(BlackjackAction::Reveal);
    }
    assert(buttons@ =~= allowed_actions(blackjack.state, blackjack.player@.len()));
    BlackjackMessage { info, status, dealer, player, buttons }
}

/// One instrument of a market's message: its line of text, and for an open instrument the
/// identifiers of its buy and sell buttons.
pub struct InstrumentLine {
    pub text: String,
    pub trade_buttons: Option<(String, String)>,
}

/// The texts of a market's message and the identifiers of its buttons.
pub struct MarketMessage {
    /// `## OPEN MARKET #0042` or `## CLOSED MARKET #0042`.
    pub title: String,
    pub owner_name: String,
    pub description: String,
    pub instruments: Vec<InstrumentLine>,
    /// The resolve button's identifier, while the market is open.
    pub resolve_button: Option<String>,
}

/// The title of a market's message.
pub open spec fn market_title(state: MarketState, id: i64) -> Seq<char> {
    "## "@ + (if state == MarketState::Open {
        "OPEN"@
    } else {
        "CLOSED"@
    }) + " MARKET "@ + market_id_text(id)
}

/// An instrument's line: an open one with its price, a winner with a check mark, a loser with
/// a cross.
pub open spec fn instrument_line_text(name: Seq<char>, state: InstrumentState, price: Currency) -> Seq<
    char,
> {
    match state {
        InstrumentState::Open => name + " ("@ + currency_text(price.0 as int) + ")"@,
        InstrumentState::Winner => name + " \u{2705}"@,
        InstrumentState::Loser => name + " \u{274c}"@,
    }
}

/// What a market's message shows: its state and id, its owner, its question, each instrument
/// (open ones with their price, given in `prices` at the same index, and buy and sell buttons)
/// and, while the market is open, a resolve button.
pub fn render_market_message(
    market: &Market,
    owner: &DbUser,
    instruments: &Vec<InstrumentWithShares>,
    prices: &Vec<Currency>,
) -> (r: MarketMessage)
    requires
        prices@.len() == instruments@.len(),
        forall|i: int|
            0 <= i < instruments@.len() && instruments@[i].0.state == InstrumentState::Open ==> (
            #[trigger] prices@[i]).0 != i64::MIN,
    ensures
        r.title@ == market_title(market.state, market.id),
        r.owner_name@ == owner.name@,
        r.description@ == market.description@,
        r.instruments@.len() == instruments@.len(),
        forall|i: int|
            0 <= i < instruments@.len() ==> {
                let inst = instruments@[i].0;
                &&& (#[trigger] r.instruments@[i]).text@ == instrument_line_text(
                    inst.name@,
                    inst.state,
                    prices@[i],
                )
                &&& match r.instruments@[i].trade_buttons {
                    Some((buy, sell)) => inst.state == InstrumentState::Open && buy@
                        == tagged_action_id("trade_button"@, TradeAction::Buy, inst.id) && sell@
                        == tagged_action_id("trade_button"@, TradeAction::Sell, inst.id),
                    None => inst.state != InstrumentState::Open,
                }
            },
        match r.resolve_button {
            Some(id) => market.state == MarketState::Open && id@ == tagged_id(
                "resolve_button"@,
                market.id,
            ),
            None => market.state != MarketState::Open,
        },
{
    let mut title = string_from("## ");
    match market.state {
        MarketState::Open => append_str(&mut title, "OPEN"),
        MarketState::Closed => append_str(&mut title, "CLOSED"),
    }
    append_str(&mut title, " MARKET ");
    let id_text = format_market_id(market.id);
    append_str(&mut title, id_text.as_str());
    assert(title@ =~= market_title(market.state, market.id));

    let mut lines: Vec<InstrumentLine> = Vec::new();
    let mut i: usize = 0;
    while i < instruments.len()
        invariant
            i <= instruments@.len(),
            prices@.len() == instruments@.len(),
            forall|k: int|
                0 <= k < instruments@.len() && instruments@[k].0.state == InstrumentState::Open
                    ==> (#[trigger] prices@[k]).0 != i64::MIN,
            lines@.len() == i,
            forall|k: int|
                0 <= k < i ==> {
                    let inst = instruments@[k].0;
                    &&& (#[trigger] lines@[k]).text@ == instrument_line_text(
                        inst.name@,
                        inst.state,
                        prices@[k],
                    )
                    &&& match lines@[k].trade_buttons {
                        Some((buy, sell)) => inst.state == InstrumentState::Open && buy@
                            == tagged_action_id("trade_button"@, TradeAction::Buy, inst.id) && sell@
                            == tagged_action_id("trade_button"@, TradeAction::Sell, inst.id),
                        None => inst.state != InstrumentState::Open,
                    }
                },
        decreases instruments@.len() - i,
    {
        let inst = &instruments[i].0;
        let mut text = string_from(inst.name.as_str());
        let line = match inst.state {
            InstrumentState::Open => {
                assert(prices@[i as int].0 != i64::MIN);
                append_str(&mut text, " (");
                let price = prices[i].to_string();
                append_str(&mut text, price.as_str());
                append_str(&mut text, ")");
                let buy = get_trade_button_id(inst, TradeAction::Buy);
                let sell = get_trade_button_id(inst, TradeAction::Sell);
                InstrumentLine { text, trade_buttons: Some((buy, sell)) }
            },
            InstrumentState::Winner => {
                append_str(&mut text, " \u{2705}");
                InstrumentLine { text, trade_buttons: None }
            },
            InstrumentState::Loser => {
                append_str(&mut text, " \u{274c}");
                InstrumentLine { text, trade_buttons: None }
            },
        };
        lines.push(line);
        i = i + 1;
    }
    let resolve_button = match market.state {
        MarketState::Open => Some(get_market_resolve_id(market)),
        MarketState::Closed => None,
    };
    MarketMessage {
        title,
        owner_name: owner.name.clone(),
        description: market.description.clone(),
        instruments: lines,
        resolve_button,
    }
}

/// Whether every position with shares has its instrument listed and a cost that can be
/// written out (the byte lengths of names, which a string cannot push past the machine's
/// limit, are not checked here).
pub fn details_computable(instruments: &Vec<InstrumentWithShares>, positions: &Vec<PositionWithUser>) -> (r:
    bool)
    ensures
        r == forall|j: int|
            0 <= j < positions@.len() && is_open_position(positions@[j]) ==> {
                &&& find_instrument(instruments@, (#[trigger] positions@[j]).position.instrument_id) is Some
                &&& positions@[j].position.cost_basis.0 != i64::MIN
            },
{
    let mut j: usize = 0;
    while j < positions.len()
        invariant
            j <= positions@.len(),
            forall|k: int|
                0 <= k < j && is_open_position(positions@[k]) ==> {
                    &&& find_instrument(instruments@, (#[trigger] positions@[k]).position.instrument_id) is Some
                    &&& positions@[k].position.cost_basis.0 != i64::MIN
                },
        decreases positions@.len() - j,
    {
        let p = &positions[j].position;
        if p.quantity != 0 {
            let found = find_instrument_ref(instruments, p.instrument_id);
            if found.is_none() || p.cost_basis.0 == i64::MIN {
                assert(is_open_position(positions@[j as int]));
                return false;
            }
        }
        j = j + 1;
    }
    true
}

} // verus!
