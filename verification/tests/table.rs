use mandelbrot::table::{sort_works, Table, TableEntry};

fn entry(artist: &str, works: &[&str]) -> TableEntry {
    TableEntry {
        artist: artist.to_string(),
        works: works.iter().map(|w| w.to_string()).collect(),
    }
}

#[test]
fn test_sort_works() {
    let mut table: Table = vec![
        entry("Gesualdo", &["many madrigals", "tenebrae"]),
        entry("Caravaggio", &["The Musicians", "The Calling of St. Mattehew"]),
        entry("Cellini", &["Preseus with the head of Medusa", "a salt celler"]),
    ];

    sort_works(&mut table);

    assert_eq!(table[0].artist, "Gesualdo");
    assert_eq!(table[0].works, vec!["many madrigals", "tenebrae"]);
    assert_eq!(table[1].artist, "Caravaggio");
    assert_eq!(
        table[1].works,
        vec!["The Calling of St. Mattehew", "The Musicians"]
    );
    assert_eq!(table[2].artist, "Cellini");
    assert_eq!(
        table[2].works,
        vec!["Preseus with the head of Medusa", "a salt celler"]
    );
}
