use zhtta::bytes::{bytes_eq, split, starts_with, to_vec};
use zhtta::table::Table;

fn pieces(v: &[&[u8]]) -> Vec<Vec<u8>> {
    v.iter().map(|p| p.to_vec()).collect()
}

#[test]
fn split_cuts_at_every_separator() {
    assert_eq!(split(b"a,b,,c", b','), pieces(&[b"a", b"b", b"", b"c"]));
}

#[test]
fn split_of_empty_is_one_empty_piece() {
    assert_eq!(split(b"", b','), pieces(&[b""]));
}

#[test]
fn split_keeps_trailing_empty_piece() {
    assert_eq!(split(b"x\ny\n", b'\n'), pieces(&[b"x", b"y", b""]));
}

#[test]
fn split_then_join_gives_back_the_bytes() {
    let request: &[u8] = b"GET /index.html HTTP/1.1";
    let parts = split(request, b' ');
    assert_eq!(parts.join(&b' '), request.to_vec());
    assert!(parts.iter().all(|p| !p.contains(&b' ')));
}

#[test]
fn byte_equality_and_prefixes() {
    assert!(bytes_eq(b"abc", b"abc"));
    assert!(!bytes_eq(b"abc", b"abd"));
    assert!(!bytes_eq(b"abc", b"ab"));
    assert!(starts_with(b"./login?x", b"./login"));
    assert!(!starts_with(b"./log", b"./login"));
    assert!(starts_with(b"anything", b""));
    assert_eq!(to_vec(b"xyz"), b"xyz".to_vec());
}

#[test]
fn table_later_insert_wins() {
    let mut t: Table<u32> = Table::new();
    t.insert(b"k".to_vec(), 1);
    t.insert(b"j".to_vec(), 2);
    t.insert(b"k".to_vec(), 3);
    assert_eq!(t.get(b"k"), Some(&3));
    assert_eq!(t.get(b"j"), Some(&2));
    assert_eq!(t.get(b"x"), None);
    assert!(t.contains_key(b"j"));
    assert!(!t.contains_key(b"x"));
}

#[test]
fn table_remove_takes_the_current_value_out() {
    let mut t: Table<u32> = Table::new();
    t.insert(b"k".to_vec(), 1);
    t.insert(b"j".to_vec(), 2);
    t.insert(b"k".to_vec(), 3);
    assert_eq!(t.remove(b"k"), Some(3));
    assert_eq!(t.get(b"k"), None);
    assert_eq!(t.remove(b"k"), None);
    assert_eq!(t.get(b"j"), Some(&2));
}
