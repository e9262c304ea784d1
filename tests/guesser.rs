use tv_rename::guesser::Guesser;

#[test]
fn test_good() {
    let guesser = Guesser {
        files: vec![
            String::from("three.s03e01.mp4"),
            String::from("three.s03e02.mp4"),
            String::from("three.s04e03.mp4"),
            String::from("three.s04e04.mp4"),
            String::from("four.s04e05.mp4"),
        ]
    };

    assert_eq!(guesser.get_season_number(), Some(4));
    assert_eq!(guesser.get_show_name(), Some(String::from("three.")));
}

#[test]
fn test_bad_season() {
    let guesser = Guesser {
        files: vec![
            String::from("three.episode.1.mp4"),
        ]
    };

    assert_eq!(guesser.get_season_number(), None);
    assert_eq!(guesser.get_show_name(), Some(String::from("three.")));
}

#[test]
fn test_bad_show_name() {
    let guesser = Guesser {
        files: vec![
            String::from("s01e01-whatever.mp4"),
        ]
    };

    assert_eq!(guesser.get_season_number(), Some(1));
    assert_eq!(guesser.get_show_name(), None);
}

#[test]
fn ties_go_to_the_first_seen() {
    let guesser = Guesser::new(vec![
        String::from("b.s02e01.mp4"),
        String::from("a.s01e01.mp4"),
        String::from("a.s01e02.mp4"),
        String::from("b.s02e02.mp4"),
    ]);
    assert_eq!(guesser.get_season_number(), Some(2));
    assert_eq!(guesser.get_show_name(), Some(String::from("b.")));
}

#[test]
fn empty_batch_guesses_nothing() {
    let guesser = Guesser::new(Vec::new());
    assert_eq!(guesser.get_season_number(), None);
    assert_eq!(guesser.get_show_name(), None);
}
