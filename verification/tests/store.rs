use envy::envy::{entry_line, init_hashmap, read_items, DEBUG_FILE, RELEASE_FILE, TEST_FILE};
use envy::{Envy, Files, Mode, OpenError};

fn one_file(path: &str, text: &str) -> Files {
    let mut files = Files::new();
    files.insert(path, text.as_bytes().to_vec());
    files
}

fn sorted(mut entries: Vec<(String, String)>) -> Vec<(String, String)> {
    entries.sort();
    entries
}

#[test]
fn a_file_with_one_entry_gives_that_entry() {
    let envy = Envy::parse(b"K=V");
    assert_eq!(envy.get("K"), "V");
    assert_eq!(envy.amount(), 1);
    let envy = Envy::parse(b"K=V\n");
    assert_eq!(envy.get("K"), "V");
    assert_eq!(envy.amount(), 1);
    let envy = Envy::parse(b"  K  =  V  \r\n");
    assert_eq!(envy.get("K"), "V");
    assert_eq!(envy.amount(), 1);
}

#[test]
fn an_empty_file_gives_an_empty_store() {
    let envy = Envy::parse(b"");
    assert_eq!(envy.amount(), 0);
    assert_eq!(envy.get("K"), "");
    assert_eq!(envy.entries(), Vec::<(String, String)>::new());
}

#[test]
fn an_absent_key_gives_the_empty_string() {
    let envy = Envy::parse(b"K=V\n");
    assert_eq!(envy.get("Q"), String::new());
    assert_eq!(envy.get(""), String::new());
    assert_eq!(envy.get("k"), String::new());
    assert_eq!(envy.get(" K"), String::new());
}

#[test]
fn comments_and_broken_lines_leave_no_entry() {
    let envy = Envy::parse(b"# first\nA=1\n#A=2\nB\nC=\n=D\n");
    assert_eq!(envy.amount(), 1);
    assert_eq!(envy.get("A"), "1");
    assert_eq!(envy.get("#A"), "");
    assert_eq!(envy.get("B"), "");
    assert_eq!(envy.get("C"), "");
    assert_eq!(envy.get("D"), "");
}

#[test]
fn the_last_line_with_a_key_wins() {
    let envy = Envy::parse(b"A=1\nB=2\nA=3\nA = 4 #last\nB=5\n");
    assert_eq!(envy.get("A"), "4");
    assert_eq!(envy.get("B"), "5");
    assert_eq!(envy.amount(), 2);
}

#[test]
fn a_fixture_with_every_kind_of_line() {
    let text = "KEY=VALUE\nKEY2=#VALUE\nCOMMENT= #notvisible\nBROKEN\nBROKEN2=\nCOMMENT2=OK #trailing\nENV=DEBUG\n";
    let envy = Envy::parse(text.as_bytes());
    assert_eq!(envy.get("KEY"), "VALUE");
    assert_eq!(envy.get("KEY2"), "#VALUE");
    assert_eq!(envy.get("COMMENT"), "");
    assert_eq!(envy.get("BROKEN"), "");
    assert_eq!(envy.get("BROKEN2"), "");
    assert_eq!(envy.get("COMMENT2"), "OK");
    assert_eq!(envy.get("ENV"), "DEBUG");
    assert_eq!(envy.amount(), 4);
}

#[test]
fn a_value_that_begins_with_a_hash_is_a_value() {
    let envy = Envy::parse(b"KEY2=#VALUE\nCOMMENT=#notvisible\n");
    assert_eq!(envy.get("KEY2"), "#VALUE");
    assert_eq!(envy.get("COMMENT"), "#notvisible");
    assert_eq!(envy.amount(), 2);
}

#[test]
fn entries_hold_each_key_once() {
    let envy = Envy::parse(b"B=2\nA=1\nB=3\nC=4\n");
    let entries = envy.entries();
    assert_eq!(entries.len(), envy.amount());
    assert_eq!(
        sorted(entries),
        vec![
            (String::from("A"), String::from("1")),
            (String::from("B"), String::from("3")),
            (String::from("C"), String::from("4")),
        ]
    );
}

#[test]
fn a_clone_holds_the_same_entries() {
    let envy = Envy::parse(b"B=2\nA=1\nB=3\n");
    let copy = envy.clone();
    assert_eq!(copy.amount(), 2);
    assert_eq!(copy.get("A"), "1");
    assert_eq!(copy.get("B"), "3");
    assert_eq!(copy.get("C"), "");
    assert_eq!(sorted(copy.entries()), sorted(envy.entries()));
}

#[test]
fn an_entry_is_shown_with_an_equals_sign_between_spaces() {
    assert_eq!(entry_line("K", "V"), "K = V");
    assert_eq!(entry_line("KEY2", "#VALUE"), "KEY2 = #VALUE");
    assert_eq!(entry_line("", ""), " = ");
}

#[test]
fn profiles_have_their_files() {
    assert_eq!(TEST_FILE, ".env.test");
    assert_eq!(DEBUG_FILE, ".env.debug");
    assert_eq!(RELEASE_FILE, ".env");
    assert_eq!(Mode::Test.path(), ".env.test");
    assert_eq!(Mode::Debug.path(), ".env.debug");
    assert_eq!(Mode::Release.path(), ".env");
}

#[test]
fn test_comes_before_debug_and_debug_before_release() {
    assert_eq!(Mode::select(true, true), Mode::Test);
    assert_eq!(Mode::select(true, false), Mode::Test);
    assert_eq!(Mode::select(false, true), Mode::Debug);
    assert_eq!(Mode::select(false, false), Mode::Release);
}

#[test]
fn each_profile_is_read_from_its_own_file() {
    let mut files = Files::new();
    files.insert(".env.test", b"ENV=TEST\n".to_vec());
    files.insert(".env.debug", b"ENV=DEBUG\n".to_vec());
    files.insert(".env", b"ENV=RELEASE\n".to_vec());
    assert_eq!(Envy::test(&files).unwrap().get("ENV"), "TEST");
    assert_eq!(Envy::debug(&files).unwrap().get("ENV"), "DEBUG");
    assert_eq!(Envy::release(&files).unwrap().get("ENV"), "RELEASE");
    assert_eq!(Envy::detect(Mode::Test, &files).unwrap().get("ENV"), "TEST");
    assert_eq!(Envy::detect(Mode::Debug, &files).unwrap().get("ENV"), "DEBUG");
    assert_eq!(Envy::detect(Mode::Release, &files).unwrap().get("ENV"), "RELEASE");
}

#[test]
fn a_file_that_cannot_be_opened_gives_no_store() {
    let files = one_file(".env.debug", "ENV=DEBUG\n");
    assert!(Envy::debug(&files).is_ok());
    assert!(Envy::detect(Mode::Debug, &files).is_ok());
    match Envy::release(&files) {
        Err(OpenError { path }) => assert_eq!(path, ".env"),
        Ok(_) => panic!("a store came from a file that is not there"),
    }
    match Envy::test(&files) {
        Err(OpenError { path }) => assert_eq!(path, ".env.test"),
        Ok(_) => panic!("a store came from a file that is not there"),
    }
    match Envy::detect(Mode::Release, &files) {
        Err(OpenError { path }) => assert_eq!(path, ".env"),
        Ok(_) => panic!("a store came from a file that is not there"),
    }
    match Envy::try_from("elsewhere/.env", &files) {
        Err(OpenError { path }) => assert_eq!(path, "elsewhere/.env"),
        Ok(_) => panic!("a store came from a file that is not there"),
    }
    assert!(Envy::try_from("", &Files::new()).is_err());
}

#[test]
fn an_empty_file_that_is_there_gives_an_empty_store() {
    let files = one_file(".custom.env", "");
    let envy = Envy::try_from(".custom.env", &files).unwrap();
    assert_eq!(envy.amount(), 0);
}

#[test]
fn a_later_file_at_a_path_takes_the_place_of_the_earlier() {
    let mut files = Files::new();
    files.insert("a", b"K=1\n".to_vec());
    files.insert("b", b"K=2\n".to_vec());
    files.insert("a", b"K=3\n".to_vec());
    assert_eq!(files.open("a").unwrap(), b"K=3\n");
    assert_eq!(files.open("b").unwrap(), b"K=2\n");
    assert_eq!(files.open("c").unwrap_err().path, "c");
    assert_eq!(Envy::try_from("a", &files).unwrap().get("K"), "3");
}

#[test]
fn items_are_read_from_the_file_at_the_path() {
    let files = one_file("p", "A=1\nA=2\n");
    assert_eq!(
        read_items("p", &files).unwrap(),
        vec![
            (String::from("A"), String::from("1")),
            (String::from("A"), String::from("2")),
        ]
    );
    assert_eq!(read_items("q", &files).unwrap_err().path, "q");
    let envy = init_hashmap("p", &files).unwrap();
    assert_eq!(envy.get("A"), "2");
    assert_eq!(envy.amount(), 1);
    assert!(init_hashmap("q", &files).is_err());
}
