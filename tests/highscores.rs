use tetris::highscores::{parse_highscores, save_highscores_and_lines, slice_to_string, update_vec};

#[test]
fn update_under_capacity_sorts() {
    let mut v: Vec<u32> = Vec::new();
    assert!(update_vec(&mut v, 30));
    assert!(update_vec(&mut v, 10));
    assert!(update_vec(&mut v, 20));
    assert_eq!(v, vec![10, 20, 30]);
    assert!(update_vec(&mut v, 0));
    assert_eq!(v, vec![0, 10, 20, 30]);
}

#[test]
fn update_at_capacity() {
    let mut v: Vec<u32> = vec![10, 20, 30, 40, 50];
    assert!(!update_vec(&mut v, 5));
    assert_eq!(v, vec![10, 20, 30, 40, 50]);
    assert!(!update_vec(&mut v, 10));
    assert_eq!(v, vec![10, 20, 30, 40, 50]);
    assert!(update_vec(&mut v, 25));
    assert_eq!(v, vec![25, 20, 30, 40, 50]);
}

#[test]
fn highscores_text() {
    assert_eq!(slice_to_string(&[]), "");
    assert_eq!(slice_to_string(&[0]), "0");
    assert_eq!(slice_to_string(&[1, 20, 300]), "1 20 300");
    assert_eq!(slice_to_string(&[u32::MAX]), "4294967295");
    assert_eq!(save_highscores_and_lines(&[10, 250], &[3, 7]), "10 250\n3 7\n");
    assert_eq!(save_highscores_and_lines(&[], &[]), "\n\n");
}

#[test]
fn parse_highscore_file() {
    assert_eq!(
        parse_highscores("10 250\n3 7\n"),
        Some((vec![10, 250], vec![3, 7]))
    );
    assert_eq!(parse_highscores("5\n"), Some((vec![5], vec![])));
    assert_eq!(parse_highscores("1 2\r\n3\r\nextra"), Some((vec![1, 2], vec![3])));
    assert_eq!(parse_highscores("4294967295\n0\n"), Some((vec![u32::MAX], vec![0])));
    assert_eq!(parse_highscores("4294967296\n0\n"), None);
    assert_eq!(parse_highscores("1 x\n2\n"), None);
    assert_eq!(parse_highscores("1 2"), None);
    assert_eq!(parse_highscores(""), None);
}

#[test]
fn saved_text_reads_back() {
    let h = vec![0, 42, 1000, u32::MAX];
    let l = vec![7];
    let text = save_highscores_and_lines(&h, &l);
    assert_eq!(parse_highscores(&text), Some((h, l)));
}

#[test]
fn parse_rejects_other_characters() {
    assert_eq!(parse_highscores("1 é\n2\n"), None);
    assert_eq!(parse_highscores("-1\n2\n"), None);
    assert_eq!(parse_highscores("\n\n"), Some((vec![], vec![])));
    assert_eq!(parse_highscores("1  2\n 3\n"), Some((vec![1, 2], vec![3])));
}
