//! Catfishing games: putting stored games together with their articles, and the form in which
//! they are listed.

use vstd::prelude::*;
use crate::store::{CatfishingArticle, CatfishingGame};

verus! {

/// A stored game, without its articles.
#[derive(Debug, Clone, Copy, PartialEq, Eq, Structural)]
pub struct CatfishingGameRow {
    pub id: i32,
    pub published: bool,
}

/// A stored article with the game it belongs to.
#[derive(Debug, Clone, PartialEq, Eq)]
pub struct CatfishingArticleRow {
    pub id: i32,
    pub names: Vec<String>,
    pub categories: Vec<String>,
    pub game_id: i32,
}

/// The views of the strings of a list.
pub open spec fn string_views(v: Seq<String>) -> Seq<Seq<char>> {
    v.map_values(|s: String| s@)
}

/// Whether an article holds what its row held.
pub open spec fn article_from_row(a: CatfishingArticle, row: CatfishingArticleRow) -> bool {
    &&& a.id == row.id
    &&& string_views(a.names@) == string_views(row.names@)
    &&& string_views(a.categories@) == string_views(row.categories@)
}

/// The rows of the articles of game `game_id`, in their order.
pub open spec fn rows_of_game(rows: Seq<CatfishingArticleRow>, game_id: i32) -> Seq<CatfishingArticleRow>
    decreases rows.len(),
{
    if rows.len() == 0 {
        Seq::empty()
    } else if rows.last().game_id == game_id {
        rows_of_game(rows.drop_last(), game_id).push(rows.last())
    } else {
        rows_of_game(rows.drop_last(), game_id)
    }
}

/// Whether `id` is the id of a game row before index `k`.
pub open spec fn game_listed_before(games: Seq<CatfishingGameRow>, k: int, id: i32) -> bool {
    exists|j: int| 0 <= j < k && games[j].id == id
}

/// Whether `game` is the game row at index `k` with its articles: all the article rows of its
/// id, in order, for the first row of that id, and none for a repeated id.
pub open spec fn assembled_game(
    game: CatfishingGame,
    games: Seq<CatfishingGameRow>,
    k: int,
    rows: Seq<CatfishingArticleRow>,
) -> bool {
    let expected = if game_listed_before(games, k, games[k].id) {
        Seq::empty()
    } else {
        rows_of_game(rows, games[k].id)
    };
    &&& game.id == games[k].id
    &&& game.published == games[k].published
    &&& game.articles@.len() == expected.len()
    &&& forall|i: int| 0 <= i < expected.len() ==> article_from_row(#[trigger] game.articles@[i], expected[i])
}

fn copy_strings(v: &Vec<String>) -> (r: Vec<String>)
    ensures
        string_views(r@) == string_views(v@),
{
    let mut r: Vec<String> = Vec::new();
    let mut i: usize = 0;
    while i < v.len()
        invariant
            i <= v@.len(),
            string_views(r@) == string_views(v@).take(i as int),
        decreases v@.len() - i,
    {
        let ghost before = r@;
        let c = v[i].clone();
        r.push(c);
        assert(string_views(r@) =~= string_views(before).push(c@));
        assert(string_views(r@) =~= string_views(v@).take(i as int + 1));
        i = i + 1;
    }
    assert(string_views(v@).take(v@.len() as int) =~= string_views(v@));
    r
}

/// The articles of game `game_id`, in the order of their rows.
fn articles_of_game(rows: &Vec<CatfishingArticleRow>, game_id: i32) -> (r: Vec<CatfishingArticle>)
    ensures
        r@.len() == rows_of_game(rows@, game_id).len(),
        forall|i: int|
            0 <= i < r@.len() ==> article_from_row(#[trigger] r@[i], rows_of_game(rows@, game_id)[i]),
{
    let mut r: Vec<CatfishingArticle> = Vec::new();
    let mut j: usize = 0;
    assert(rows@.take(0) =~= Seq::<CatfishingArticleRow>::empty());
    while j < rows.len()
        invariant
            j <= rows@.len(),
            r@.len() == rows_of_game(rows@.take(j as int), game_id).len(),
            forall|i: int|
                0 <= i < r@.len() ==> article_from_row(
                    #[trigger] r@[i],
                    rows_of_game(rows@.take(j as int), game_id)[i],
                ),
        decreases rows@.len() - j,
    {
        let ghost next = rows@.take(j as int + 1);
        assert(next.drop_last() =~= rows@.take(j as int));
        assert(next.last() == rows@[j as int]);
        let row = &rows[j];
        if row.game_id == game_id {
            let a = CatfishingArticle {
                id: row.id,
                names: copy_strings(&row.names),
                categories: copy_strings(&row.categories),
            };
            r.push(a);
        }
        j = j + 1;
    }
    assert(rows@.take(rows@.len() as int) =~= rows@);
    r
}

/// The games of the game rows, in order, each with the articles whose rows name it, in the
/// order of those rows; a game id listed twice gets its articles only the first time.
pub fn assemble_games(game_rows: &Vec<CatfishingGameRow>, article_rows: &Vec<CatfishingArticleRow>) -> (r:
    Vec<CatfishingGame>)
    ensures
        r@.len() == game_rows@.len(),
        forall|k: int|
            0 <= k < game_rows@.len() ==> assembled_game(#[trigger] r@[k], game_rows@, k, article_rows@),
{
    let mut games: Vec<CatfishingGame> = Vec::new();
    let mut k: usize = 0;
    while k < game_rows.len()
        invariant
            k <= game_rows@.len(),
            games@.len() == k,
            forall|m: int|
                0 <= m < k ==> assembled_game(#[trigger] games@[m], game_rows@, m, article_rows@),
        decreases game_rows@.len() - k,
    {
        let row = game_rows[k];
        let mut seen = false;
        let mut j: usize = 0;
        while j < k
            invariant
                j <= k,
                k < game_rows@.len(),
                row == game_rows@[k as int],
                seen <==> game_listed_before(game_rows@, j as int, row.id),
            decreases k - j,
        {
            if game_rows[j].id == row.id {
                seen = true;
            }
            j = j + 1;
        }
        let articles = if seen {
            Vec::new()
        } else {
            articles_of_game(article_rows, row.id)
        };
        games.push(CatfishingGame { id: row.id, published: row.published, articles });
        k = k + 1;
    }
    games
}

/// An article as listed: its names and categories.
#[derive(Debug, Clone)]
pub struct ListCatfishingArticle {
    pub names: Vec<String>,
    pub categories: Vec<String>,
}

impl From<CatfishingArticle> for ListCatfishingArticle {
    fn from(value: CatfishingArticle) -> (r: ListCatfishingArticle) {
        ListCatfishingArticle { names: value.names, categories: value.categories }
    }
}

impl vstd::std_specs::convert::FromSpecImpl<CatfishingArticle> for ListCatfishingArticle {
    open spec fn obeys_from_spec() -> bool {
        true
    }

    open spec fn from_spec(v: CatfishingArticle) -> ListCatfishingArticle {
        ListCatfishingArticle { names: v.names, categories: v.categories }
    }
}

/// A game as listed: its id and its articles.
#[derive(Debug, Clone)]
pub struct ListCatfishingGame {
    pub id: i64,
    pub articles: Vec<ListCatfishingArticle>,
}

impl ListCatfishingGame {
    /// The listing of a game: its id, and each of its articles' names and categories, in order.
    pub fn from(value: CatfishingGame) -> (r: ListCatfishingGame)
        ensures
            r.id == value.id as i64,
            r.articles@.len() == value.articles@.len(),
            forall|i: int|
                0 <= i < value.articles@.len() ==> (#[trigger] r.articles@[i]).names
                    == value.articles@[i].names && r.articles@[i].categories
                    == value.articles@[i].categories,
    {
        let mut source = value.articles;
        let ghost all = source@;
        let mut reversed: Vec<ListCatfishingArticle> = Vec::new();
        while source.len() > 0
            invariant
                source@ == all.take(source@.len() as int),
                source@.len() + reversed@.len() == all.len(),
                forall|i: int|
                    0 <= i < reversed@.len() ==> (#[trigger] reversed@[i]).names == all[all.len() - 1 - i].names
                        && reversed@[i].categories == all[all.len() - 1 - i].categories,
            decreases source@.len(),
        {
            let ghost before = source@;
            let a = source.pop().unwrap();
            assert(source@ =~= all.take(source@.len() as int));
            reversed.push(ListCatfishingArticle::from(a));
        }
        let mut articles: Vec<ListCatfishingArticle> = Vec::new();
        while reversed.len() > 0
            invariant
                source@.len() == 0,
                reversed@.len() + articles@.len() == all.len(),
                forall|i: int|
                    0 <= i < reversed@.len() ==> (#[trigger] reversed@[i]).names == all[all.len() - 1 - i].names
                        && reversed@[i].categories == all[all.len() - 1 - i].categories,
                forall|i: int|
                    0 <= i < articles@.len() ==> (#[trigger] articles@[i]).names == all[i].names
                        && articles@[i].categories == all[i].categories,
            decreases reversed@.len(),
        {
            let a = reversed.pop().unwrap();
            articles.push(a);
        }
        ListCatfishingGame { id: value.id as i64, articles }
    }
}

} // verus!
