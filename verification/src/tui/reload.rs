//! Writing a board to its cards file and loading it back gives the same board.

use vstd::prelude::*;

use crate::domain::column::Column;
use crate::domain::ids::{CardId, ColumnId};
use crate::domain::private_state::{CardsFile, LocalCard};
use crate::domain::task::Task;
use crate::domain::workspace::ColumnConfig;
use crate::scan::reconcile::{entry_index, insert_index, ordering_view};

use super::board::{
    archive_cards_view, archived_view, board_archive, board_cards, board_ordering, board_tasks,
    last_card, local_of, ordered_columns, ordered_tasks, ordering_of, task_of, tasks_view,
    unplaced_added, ArchivedTask,
};

verus! {

/// A card as loading gives it back: numbered by its place, not done, the rest unchanged.
pub open spec fn reloaded_task(t: Task, order: int) -> Task {
    Task {
        id: t.id,
        title: t.title,
        description: t.description,
        priority: t.priority,
        order: order as usize,
        done: false,
        archived_by_sync: t.archived_by_sync,
    }
}

/// A column's cards as loading gives them back.
pub open spec fn reloaded_column(s: Seq<Task>) -> Seq<Task> {
    s.map(|k: int, t: Task| reloaded_task(t, k))
}

/// The columns of cards as loading gives them back.
pub open spec fn reloaded_columns(ts: Seq<Seq<Task>>) -> Seq<Seq<Task>> {
    ts.map_values(|s: Seq<Task>| reloaded_column(s))
}

/// The archive as loading gives it back.
pub open spec fn reloaded_archive(a: Seq<(ColumnId, Task)>) -> Seq<(ColumnId, Task)> {
    a.map_values(|x: (ColumnId, Task)| (x.0, reloaded_task(x.1, 0)))
}

/// Whether no two columns share an identity.
pub open spec fn distinct_columns(cols: Seq<Column>) -> bool {
    forall|a: int, b: int| 0 <= a < b < cols.len() ==> #[trigger] cols[a].id@ != #[trigger] cols[b].id@
}

/// Whether no two stored cards share an identity.
pub open spec fn distinct_cards(cards: Seq<LocalCard>) -> bool {
    forall|a: int, b: int| 0 <= a < b < cards.len() ==> #[trigger] cards[a].id != #[trigger] cards[b].id
}

/// The identities of a column's cards, in order.
pub open spec fn card_ids(c: Column) -> Seq<CardId> {
    c.tasks@.map_values(|t: Task| t.id)
}

/// Whether the card order has the entry.
pub open spec fn has_entry(s: Seq<(Seq<char>, Seq<CardId>)>, key: Seq<char>, ids: Seq<CardId>) -> bool {
    exists|j: int| 0 <= j < s.len() && s[j] == (key, ids)
}

/// The card order of the first `n` columns: one entry per column, each with its cards, and
/// no other.
pub open spec fn ordering_holds(cols: Seq<Column>, s: Seq<(Seq<char>, Seq<CardId>)>, n: int) -> bool {
    &&& s.len() == n
    &&& forall|a: int, b: int| 0 <= a < b < s.len() ==> #[trigger] s[a].0 != #[trigger] s[b].0
    &&& forall|i: int| 0 <= i < n ==> #[trigger] has_entry(s, cols[i].id@, card_ids(cols[i]))
    &&& forall|j: int|
        #![trigger s[j]]
        0 <= j < s.len() ==> exists|i: int| 0 <= i < n && s[j].0 == cols[i].id@
}

proof fn lemma_no_entry(s: Seq<(Seq<char>, Seq<CardId>)>, key: Seq<char>, k: int)
    requires
        0 <= k,
        forall|j: int| 0 <= j < s.len() ==> #[trigger] s[j].0 != key,
    ensures
        entry_index(s, key, k) == s.len(),
    decreases s.len() - k,
{
    if k < s.len() {
        lemma_no_entry(s, key, k + 1);
    }
}

proof fn lemma_entry_at(s: Seq<(Seq<char>, Seq<CardId>)>, key: Seq<char>, j: int, k: int)
    requires
        0 <= k <= j < s.len(),
        s[j].0 == key,
        forall|a: int, b: int| 0 <= a < b < s.len() ==> #[trigger] s[a].0 != #[trigger] s[b].0,
    ensures
        entry_index(s, key, k) == j,
    decreases j - k,
{
    if k < j {
        assert(s[k].0 != s[j].0);
        lemma_entry_at(s, key, j, k + 1);
    }
}

proof fn lemma_insert_point(s: Seq<(Seq<char>, Seq<CardId>)>, key: Seq<char>, k: int)
    requires
        0 <= k <= s.len(),
    ensures
        k <= insert_index(s, key, k) <= s.len(),
    decreases s.len() - k,
{
    if k < s.len() {
        lemma_insert_point(s, key, k + 1);
    }
}

proof fn lemma_ordering_built(cols: Seq<Column>, n: int)
    requires
        0 <= n <= cols.len(),
        distinct_columns(cols),
    ensures
        ordering_holds(cols, board_ordering(cols, n), n),
    decreases n,
{
    if n > 0 {
        lemma_ordering_built(cols, n - 1);
        let prev = board_ordering(cols, n - 1);
        let key = cols[n - 1].id@;
        let ids = card_ids(cols[n - 1]);
        assert forall|j: int| 0 <= j < prev.len() implies #[trigger] prev[j].0 != key by {
            let i = choose|i: int| 0 <= i < n - 1 && prev[j].0 == cols[i].id@;
            assert(cols[i].id@ != cols[n - 1].id@);
        }
        lemma_no_entry(prev, key, 0);
        lemma_insert_point(prev, key, 0);
        let p = insert_index(prev, key, 0);
        prev.insert_ensures(p, (key, ids));
        let s = board_ordering(cols, n);
        assert(s == prev.insert(p, (key, ids)));
        assert forall|a: int, b: int| 0 <= a < b < s.len() implies #[trigger] s[a].0
            != #[trigger] s[b].0 by {
            if a < p {
                if b < p {
                    assert(prev[a].0 != prev[b].0);
                } else if b == p {
                    assert(prev[a].0 != key);
                } else {
                    assert(s[b] == prev[b - 1]);
                    assert(prev[a].0 != prev[b - 1].0);
                }
            } else if a == p {
                assert(s[b] == prev[b - 1]);
                assert(prev[b - 1].0 != key);
            } else {
                assert(s[a] == prev[a - 1]);
                assert(s[b] == prev[b - 1]);
                assert(prev[a - 1].0 != prev[b - 1].0);
            }
        }
        assert forall|i: int| 0 <= i < n implies #[trigger] has_entry(
            s,
            cols[i].id@,
            card_ids(cols[i]),
        ) by {
            if i == n - 1 {
                assert(s[p] == (key, ids));
            } else {
                assert(has_entry(prev, cols[i].id@, card_ids(cols[i])));
                let j = choose|j: int| 0 <= j < prev.len() && prev[j] == (cols[i].id@, card_ids(cols[i]));
                if j < p {
                    assert(s[j] == prev[j]);
                } else {
                    assert(s[j + 1] == prev[j]);
                }
            }
        }
        assert forall|j: int| #![trigger s[j]] 0 <= j < s.len() implies exists|i: int|
            0 <= i < n && s[j].0 == cols[i].id@ by {
            if j == p {
                assert(s[j].0 == cols[n - 1].id@);
            } else if j < p {
                assert(s[j] == prev[j]);
                let i = choose|i: int| 0 <= i < n - 1 && prev[j].0 == cols[i].id@;
                assert(s[j].0 == cols[i].id@);
            } else {
                assert(s[j] == prev[j - 1]);
                let i = choose|i: int| 0 <= i < n - 1 && prev[j - 1].0 == cols[i].id@;
                assert(s[j].0 == cols[i].id@);
            }
        }
    }
}

/// With distinct column identities, the card order of a board gives each column its cards.
proof fn lemma_ordering_lookup(cols: Seq<Column>, c: int)
    requires
        0 <= c < cols.len(),
        distinct_columns(cols),
    ensures
        ordering_of(board_ordering(cols, cols.len() as int), cols[c].id@) == card_ids(cols[c]),
{
    let s = board_ordering(cols, cols.len() as int);
    lemma_ordering_built(cols, cols.len() as int);
    assert(has_entry(s, cols[c].id@, card_ids(cols[c])));
    let j = choose|j: int| 0 <= j < s.len() && s[j] == (cols[c].id@, card_ids(cols[c]));
    lemma_entry_at(s, cols[c].id@, j, 0);
}

proof fn lemma_last_unique(cards: Seq<LocalCard>, id: CardId, p: int, n: int)
    requires
        0 <= p < n <= cards.len(),
        cards[p].id == id,
        distinct_cards(cards),
    ensures
        last_card(cards, id, n) == Some(p),
    decreases n,
{
    if n - 1 != p {
        assert(cards[p].id != cards[n - 1].id);
        lemma_last_unique(cards, id, p, n - 1);
    }
}

/// The stored cards of the first `n` columns are not archived, their identities are those of
/// the columns' cards, and each card of those columns is among them.
proof fn lemma_board_cards(cols: Seq<Column>, n: int)
    requires
        0 <= n <= cols.len(),
    ensures
        forall|p: int|
            0 <= p < board_cards(cols, n).len() ==> !(#[trigger] board_cards(cols, n)[p]).archived,
        forall|c: int, k: int|
            0 <= c < n && 0 <= k < cols[c].tasks@.len() ==> exists|p: int|
                0 <= p < board_cards(cols, n).len() && #[trigger] board_cards(cols, n)[p]
                    == local_of(#[trigger] cols[c].tasks@[k], cols[c].id, false),
    decreases n,
{
    if n > 0 {
        lemma_board_cards(cols, n - 1);
        let prev = board_cards(cols, n - 1);
        let m = cols[n - 1].tasks@.map_values(|t: Task| local_of(t, cols[n - 1].id, false));
        let bc = board_cards(cols, n);
        assert(bc == prev + m);
        assert forall|p: int| 0 <= p < bc.len() implies !(#[trigger] bc[p]).archived by {
            if p < prev.len() {
                assert(bc[p] == prev[p]);
            } else {
                assert(bc[p] == m[p - prev.len()]);
            }
        }
        assert forall|c: int, k: int|
            0 <= c < n && 0 <= k < cols[c].tasks@.len() implies exists|p: int|
                0 <= p < bc.len() && #[trigger] bc[p] == local_of(
                    #[trigger] cols[c].tasks@[k],
                    cols[c].id,
                    false,
                ) by {
            if c == n - 1 {
                let p = prev.len() + k;
                assert(bc[p] == m[k]);
            } else {
                let p = choose|p: int|
                    0 <= p < prev.len() && prev[p] == local_of(cols[c].tasks@[k], cols[c].id, false);
                assert(bc[p] == prev[p]);
            }
        }
    }
}

/// The stored cards of the board and of its archive.
pub open spec fn stored_cards(cols: Seq<Column>, archived: Seq<ArchivedTask>) -> Seq<LocalCard> {
    board_cards(cols, cols.len() as int) + archive_cards_view(archived)
}

proof fn lemma_column_reloaded(cols: Seq<Column>, archived: Seq<ArchivedTask>, c: int, m: int)
    requires
        0 <= c < cols.len(),
        0 <= m <= cols[c].tasks@.len(),
        distinct_cards(stored_cards(cols, archived)),
    ensures
        ordered_tasks(stored_cards(cols, archived), card_ids(cols[c]), m).0 == reloaded_column(
            cols[c].tasks@,
        ).subrange(0, m),
        ordered_tasks(stored_cards(cols, archived), card_ids(cols[c]), m).1 == card_ids(
            cols[c],
        ).subrange(0, m),
    decreases m,
{
    let cards = stored_cards(cols, archived);
    let ids = card_ids(cols[c]);
    if m > 0 {
        lemma_column_reloaded(cols, archived, c, m - 1);
        lemma_board_cards(cols, cols.len() as int);
        let bc = board_cards(cols, cols.len() as int);
        let t = cols[c].tasks@[m - 1];
        let p = choose|p: int| 0 <= p < bc.len() && bc[p] == local_of(t, cols[c].id, false);
        assert(cards[p] == bc[p]);
        assert(ids[m - 1] == t.id);
        lemma_last_unique(cards, t.id, p, cards.len() as int);
        let r = ordered_tasks(cards, ids, m - 1);
        assert(!cards[p].archived);
        assert(task_of(cards[p], (m - 1) as usize) == reloaded_task(t, m - 1));
        assert(ordered_tasks(cards, ids, m).0 =~= reloaded_column(cols[c].tasks@).subrange(0, m));
        assert(ordered_tasks(cards, ids, m).1 =~= ids.subrange(0, m));
    } else {
        assert(ordered_tasks(cards, ids, m).0 =~= reloaded_column(cols[c].tasks@).subrange(0, m));
        assert(ordered_tasks(cards, ids, m).1 =~= ids.subrange(0, m));
    }
}

/// The identities of the stored cards of the first `n` columns.
pub open spec fn placed_ids(cols: Seq<Column>, n: int) -> Seq<CardId> {
    board_cards(cols, n).map_values(|l: LocalCard| l.id)
}

proof fn lemma_columns_reloaded(
    cols: Seq<Column>,
    archived: Seq<ArchivedTask>,
    config: Seq<ColumnConfig>,
    n: int,
)
    requires
        0 <= n <= cols.len(),
        config.len() == cols.len(),
        forall|i: int| 0 <= i < cols.len() ==> #[trigger] config[i].id@ == cols[i].id@,
        distinct_columns(cols),
        distinct_cards(stored_cards(cols, archived)),
    ensures
        ordered_columns(
            config,
            stored_cards(cols, archived),
            board_ordering(cols, cols.len() as int),
            n,
        ).0 == reloaded_columns(tasks_view(cols)).subrange(0, n),
        ordered_columns(
            config,
            stored_cards(cols, archived),
            board_ordering(cols, cols.len() as int),
            n,
        ).1 == placed_ids(cols, n),
    decreases n,
{
    let cards = stored_cards(cols, archived);
    let o = board_ordering(cols, cols.len() as int);
    if n > 0 {
        lemma_columns_reloaded(cols, archived, config, n - 1);
        assert(config[n - 1].id@ == cols[n - 1].id@);
        lemma_ordering_lookup(cols, n - 1);
        let ids = card_ids(cols[n - 1]);
        assert(ordering_of(o, config[n - 1].id@) == ids);
        lemma_column_reloaded(cols, archived, n - 1, ids.len() as int);
        let col = ordered_tasks(cards, ids, ids.len() as int);
        assert(col.0 =~= reloaded_column(cols[n - 1].tasks@));
        assert(col.1 =~= ids);
        let prev = board_cards(cols, n - 1);
        let m = cols[n - 1].tasks@.map_values(|t: Task| local_of(t, cols[n - 1].id, false));
        assert(board_cards(cols, n) == prev + m);
        assert(m.map_values(|l: LocalCard| l.id) =~= ids);
        assert(placed_ids(cols, n) =~= placed_ids(cols, n - 1) + ids);
        assert(ordered_columns(config, cards, o, n).0 =~= reloaded_columns(tasks_view(cols)).subrange(0, n));
    } else {
        assert(ordered_columns(config, cards, o, n).0 =~= reloaded_columns(tasks_view(cols)).subrange(0, n));
        assert(placed_ids(cols, n) =~= Seq::empty());
    }
}

proof fn lemma_nothing_unplaced(
    ts: Seq<Seq<Task>>,
    config: Seq<ColumnConfig>,
    cols: Seq<Column>,
    archived: Seq<ArchivedTask>,
    n: int,
)
    requires
        0 <= n <= stored_cards(cols, archived).len(),
    ensures
        unplaced_added(
            ts,
            config,
            stored_cards(cols, archived),
            placed_ids(cols, cols.len() as int),
            n,
        ) == ts,
    decreases n,
{
    if n > 0 {
        lemma_nothing_unplaced(ts, config, cols, archived, n - 1);
        let cards = stored_cards(cols, archived);
        let bc = board_cards(cols, cols.len() as int);
        let placed = placed_ids(cols, cols.len() as int);
        if n - 1 < bc.len() {
            assert(cards[n - 1] == bc[n - 1]);
            assert(placed[n - 1] == cards[n - 1].id);
            assert(placed.contains(cards[n - 1].id));
        } else {
            assert(cards[n - 1] == archive_cards_view(archived)[n - 1 - bc.len()]);
        }
    }
}

proof fn lemma_archive_reloaded(cols: Seq<Column>, archived: Seq<ArchivedTask>, n: int)
    requires
        0 <= n <= stored_cards(cols, archived).len(),
    ensures
        board_archive(stored_cards(cols, archived), n) == (if n <= board_cards(
            cols,
            cols.len() as int,
        ).len() {
            Seq::empty()
        } else {
            reloaded_archive(archived_view(archived)).subrange(
                0,
                n - board_cards(cols, cols.len() as int).len(),
            )
        }),
    decreases n,
{
    let cards = stored_cards(cols, archived);
    let bc = board_cards(cols, cols.len() as int);
    if n > 0 {
        lemma_archive_reloaded(cols, archived, n - 1);
        lemma_board_cards(cols, cols.len() as int);
        if n - 1 < bc.len() {
            assert(cards[n - 1] == bc[n - 1]);
        } else {
            let x = archived[n - 1 - bc.len()];
            assert(cards[n - 1] == local_of(x.task, x.column_id, true));
            assert(board_archive(cards, n) =~= reloaded_archive(archived_view(archived)).subrange(
                0,
                n - bc.len(),
            ));
        }
    }
}

/// Loading the cards file of a board onto the board's own columns gives the board back:
/// every column has the same cards in the same order, and the archive the same cards, each
/// card numbered by its place and not done. This holds where column identities are distinct
/// and no two cards of the board and its archive share an identity.
pub proof fn lemma_cards_file_round_trip(
    columns: Seq<Column>,
    archived: Seq<ArchivedTask>,
    config: Seq<ColumnConfig>,
    file: CardsFile,
)
    requires
        config.len() == columns.len(),
        forall|i: int| 0 <= i < columns.len() ==> #[trigger] config[i].id@ == columns[i].id@,
        distinct_columns(columns),
        distinct_cards(file.cards@),
        file.cards@ == stored_cards(columns, archived),
        ordering_view(file.ordering@) == board_ordering(columns, columns.len() as int),
    ensures
        board_tasks(config, file) == reloaded_columns(tasks_view(columns)),
        board_archive(file.cards@, file.cards@.len() as int) == reloaded_archive(
            archived_view(archived),
        ),
{
    let n = columns.len() as int;
    lemma_columns_reloaded(columns, archived, config, n);
    let r = ordered_columns(config, file.cards@, ordering_view(file.ordering@), n);
    assert(r.0 =~= reloaded_columns(tasks_view(columns)));
    lemma_nothing_unplaced(r.0, config, columns, archived, file.cards@.len() as int);
    lemma_archive_reloaded(columns, archived, file.cards@.len() as int);
    assert(reloaded_archive(archived_view(archived)).subrange(
        0,
        file.cards@.len() - board_cards(columns, n).len(),
    ) =~= reloaded_archive(archived_view(archived)));
    if file.cards@.len() <= board_cards(columns, n).len() {
        assert(archived.len() == 0);
        assert(reloaded_archive(archived_view(archived)) =~= Seq::empty());
    }
}

} // verus!
