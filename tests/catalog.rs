use dailystoic::catalog::{Catalog, LoadError, Quote};

fn quote(author: &str, text: &str) -> Quote {
    Quote { author: author.to_string(), text: text.to_string() }
}

#[test]
fn load_rejects_empty() {
    assert!(matches!(Catalog::load(vec![]), Err(LoadError::Empty)));
}

#[test]
fn load_rejects_first_quote_without_author() {
    let quotes = vec![quote("Seneca", "a"), quote("", "b"), quote("", "c")];
    assert!(matches!(Catalog::load(quotes), Err(LoadError::MissingAuthor { index: 1 })));
}

#[test]
fn pick_wraps_random_value() {
    let c = Catalog::load(vec![quote("A", "1"), quote("B", "2"), quote("C", "3")]).unwrap();
    assert_eq!(c.len(), 3);
    assert_eq!(c.pick_index(7), 1);
    assert_eq!(c.pick(5).author, "C");
    assert_eq!(c.pick_index(usize::MAX), usize::MAX % 3);
    assert_eq!(c.get(0).text, "1");
}

#[test]
fn pick_random_reaches_every_quote() {
    let quotes: Vec<Quote> = (0..5).map(|i| quote(&format!("author {i}"), &format!("text {i}"))).collect();
    let c = Catalog::load(quotes).unwrap();
    let mut seen = [false; 5];
    for _ in 0..10_000 {
        let q = c.pick_random();
        let i: usize = q.author["author ".len()..].parse().unwrap();
        assert!(i < 5);
        seen[i] = true;
    }
    assert!(seen.iter().all(|s| *s));
}
