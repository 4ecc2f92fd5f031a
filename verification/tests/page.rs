use termseq::page::{
    infix_positions, menu_text, page_key, search_hits, search_select_text, select_list_text,
    text_input_text, PageAction, PageKind, KEY_BACK, KEY_DOWN, KEY_LEFT, KEY_RETURN, KEY_RIGHT,
    KEY_UP, MIN_HEIGHT,
};

fn strings(v: &[&str]) -> Vec<String> {
    v.iter().map(|s| s.to_string()).collect()
}

#[test]
fn menu_marks_the_selected_title_and_lists_what_follows() {
    let titles = strings(&["Home", "Settings", "About", "Exit"]);
    assert_eq!(menu_text(&titles, 1, 8), "Choose a Page:\n>Settings<\nAbout\nExit\n");
}

#[test]
fn menu_lists_only_what_fits() {
    let titles = strings(&["a", "b", "c", "d", "e"]);
    assert_eq!(menu_text(&titles, 0, MIN_HEIGHT), "Choose a Page:\n>a<\nb\n");
    assert_eq!(menu_text(&titles, 0, 6), "Choose a Page:\n>a<\n");
    assert_eq!(menu_text(&titles, 4, 20), "Choose a Page:\n>e<\n");
}

#[test]
fn select_list_with_and_without_answers() {
    let q = "Pick".to_string();
    let answers = strings(&["red", "green", "blue"]);
    assert_eq!(select_list_text(&q, &answers, 0, 8), "Pick:\n>red<\ngreen\nblue\n");
    assert_eq!(select_list_text(&q, &Vec::new(), 0, 0), "Pick:\n>Nothing in here<\n");
}

#[test]
fn search_select_follows_the_hits() {
    let answers = strings(&["apple", "banana", "cherry", "avocado"]);
    let hits = vec![0usize, 3];
    let s = search_select_text(&"a".to_string(), &"Fruit".to_string(), &hits, &answers, 0, 9);
    assert_eq!(s, "Fruit:\nSearch: \"a\"\n>apple<\navocado\n");
    let none = search_select_text(&"z".to_string(), &"Fruit".to_string(), &Vec::new(), &answers, 0, 0);
    assert_eq!(none, "Fruit:\nSearch: \"z\"\n>Nothing found<\n");
}

#[test]
fn text_input_shows_what_was_entered() {
    assert_eq!(text_input_text(&"Name".to_string(), &"Ada".to_string()), "Name:\n>Ada<");
}

#[test]
fn search_ignores_case() {
    let answers = strings(&["Apple", "banana", "CHERRY", "pineapple"]);
    assert_eq!(search_hits(&"APP".to_string(), &answers), vec![0, 3]);
    assert_eq!(search_hits(&"".to_string(), &answers), vec![0, 1, 2, 3]);
    assert_eq!(search_hits(&"rr".to_string(), &answers), vec![2]);
    assert_eq!(search_hits(&"kiwi".to_string(), &answers), Vec::<usize>::new());
}

#[test]
fn infix_positions_finds_runs() {
    let hays: Vec<Vec<char>> = vec!["abc".chars().collect(), "b".chars().collect(), "cab".chars().collect()];
    assert_eq!(infix_positions(&"ab".chars().collect(), &hays), vec![0, 2]);
    assert_eq!(infix_positions(&"abcd".chars().collect(), &hays), Vec::<usize>::new());
}

fn is(a: PageAction, b: PageAction) -> bool {
    a == b
}

#[test]
fn page_keys_move_open_and_close() {
    assert!(matches!(page_key(PageKind::Menu, 3, 1, KEY_LEFT, '\0'), (1, PageAction::Close)));
    assert!(matches!(page_key(PageKind::Menu, 3, 1, KEY_RIGHT, '\0'), (1, PageAction::Open)));
    assert!(matches!(page_key(PageKind::Menu, 0, 0, KEY_RIGHT, '\0'), (0, PageAction::Redraw)));
    assert!(matches!(page_key(PageKind::Info, 9, 2, KEY_RIGHT, '\0'), (2, PageAction::Redraw)));
    assert!(matches!(page_key(PageKind::Confirm, 1, 0, KEY_RIGHT, '\0'), (0, PageAction::Open)));
    assert!(matches!(page_key(PageKind::Select, 3, 1, KEY_UP, '\0'), (0, PageAction::Moved)));
    assert!(matches!(page_key(PageKind::Select, 3, 0, KEY_UP, '\0'), (0, PageAction::Ignore)));
    assert!(matches!(page_key(PageKind::Select, 3, 1, KEY_DOWN, '\0'), (2, PageAction::Moved)));
    assert!(matches!(page_key(PageKind::Select, 3, 2, KEY_DOWN, '\0'), (2, PageAction::Ignore)));
    assert!(matches!(page_key(PageKind::Select, 0, 0, KEY_DOWN, '\0'), (0, PageAction::Ignore)));
}

#[test]
fn page_keys_edit_text_and_search() {
    let (l, a) = page_key(PageKind::TextInput, 1, 0, 0x41, 'a');
    assert_eq!(l, 0);
    assert!(is(a, PageAction::Type('a')));
    assert!(matches!(page_key(PageKind::TextInput, 1, 0, KEY_BACK, '\0'), (0, PageAction::Erase)));
    assert!(matches!(page_key(PageKind::TextInput, 1, 0, KEY_RETURN, '\r'), (0, PageAction::Redraw)));
    assert!(matches!(page_key(PageKind::SearchSelect, 5, 3, 0x42, 'b'), (0, PageAction::Type('b'))));
    assert!(matches!(page_key(PageKind::SearchSelect, 5, 3, KEY_BACK, '\0'), (0, PageAction::Erase)));
    assert!(matches!(page_key(PageKind::SearchSelect, 5, 3, KEY_RETURN, '\r'), (3, PageAction::Ignore)));
    assert!(matches!(page_key(PageKind::Custom, 0, 0, 0x41, 'a'), (0, PageAction::Custom)));
    assert!(matches!(page_key(PageKind::Menu, 3, 1, 0x41, 'a'), (1, PageAction::Ignore)));
}
