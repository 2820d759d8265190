use cineteca::names::{compare, Rank};

#[test]
fn equal_names_rank_same() {
    assert_eq!(compare("A.mkv", "A.mkv"), Rank::Same);
    assert_eq!(compare("", ""), Rank::Same);
}

#[test]
fn a_prefix_comes_first() {
    assert_eq!(compare("A", "A.mkv"), Rank::Before);
    assert_eq!(compare("A.mkv", "A"), Rank::After);
    assert_eq!(compare("", "a"), Rank::Before);
}

#[test]
fn first_differing_byte_decides() {
    assert_eq!(compare("Alien.mkv", "Amelie.mkv"), Rank::Before);
    assert_eq!(compare("b", "a"), Rank::After);
    // upper case letters have smaller bytes than lower case ones
    assert_eq!(compare("Z", "a"), Rank::Before);
}

#[test]
fn order_agrees_with_the_order_of_strings() {
    let names = ["", "a", "A", "é", "e", "ab", "a b", "日本", "zz", "Zz", "a.mkv", "a-mkv"];
    for a in names.iter() {
        for b in names.iter() {
            let expected = if a < b {
                Rank::Before
            } else if a > b {
                Rank::After
            } else {
                Rank::Same
            };
            assert_eq!(compare(a, b), expected);
        }
    }
}
