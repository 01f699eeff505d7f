use catshi::catfishing::{assemble_games, CatfishingArticleRow, CatfishingGameRow, ListCatfishingArticle, ListCatfishingGame};
use catshi::store::{CatfishingArticle, CatfishingGame};

fn strings(v: &[&str]) -> Vec<String> {
    v.iter().map(|s| s.to_string()).collect()
}

fn article_row(id: i32, name: &str, game_id: i32) -> CatfishingArticleRow {
    CatfishingArticleRow { id, names: strings(&[name]), categories: strings(&["c"]), game_id }
}

#[test]
fn games_get_their_articles_in_order() {
    let games = vec![
        CatfishingGameRow { id: 2, published: true },
        CatfishingGameRow { id: 1, published: false },
        CatfishingGameRow { id: 3, published: true },
    ];
    let articles = vec![
        article_row(10, "a", 1),
        article_row(11, "b", 2),
        article_row(12, "c", 1),
        article_row(13, "d", 4),
    ];
    let assembled = assemble_games(&games, &articles);
    assert_eq!(assembled.len(), 3);
    assert_eq!(assembled[0].id, 2);
    assert_eq!(assembled[0].articles.iter().map(|a| a.id).collect::<Vec<_>>(), vec![11]);
    assert_eq!(assembled[1].id, 1);
    assert!(!assembled[1].published);
    assert_eq!(assembled[1].articles.iter().map(|a| a.id).collect::<Vec<_>>(), vec![10, 12]);
    assert_eq!(assembled[1].articles[1].names, strings(&["c"]));
    assert!(assembled[2].articles.is_empty());
}

#[test]
fn repeated_game_gets_articles_once() {
    let games = vec![CatfishingGameRow { id: 1, published: true }, CatfishingGameRow { id: 1, published: true }];
    let articles = vec![article_row(10, "a", 1)];
    let assembled = assemble_games(&games, &articles);
    assert_eq!(assembled[0].articles.len(), 1);
    assert!(assembled[1].articles.is_empty());
}

#[test]
fn listing_keeps_names_and_categories() {
    let game = CatfishingGame {
        id: 5,
        published: true,
        articles: vec![
            CatfishingArticle { id: 1, names: strings(&["Cat", "Kitty"]), categories: strings(&["Animals"]) },
            CatfishingArticle { id: 2, names: strings(&["Fish"]), categories: strings(&[]) },
        ],
    };
    let listed = ListCatfishingGame::from(game);
    assert_eq!(listed.id, 5);
    assert_eq!(listed.articles.len(), 2);
    assert_eq!(listed.articles[0].names, strings(&["Cat", "Kitty"]));
    assert_eq!(listed.articles[0].categories, strings(&["Animals"]));
    assert_eq!(listed.articles[1].names, strings(&["Fish"]));
    let single: ListCatfishingArticle =
        CatfishingArticle { id: 3, names: strings(&["x"]), categories: strings(&["y"]) }.into();
    assert_eq!(single.names, strings(&["x"]));
}
