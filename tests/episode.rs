use tv_rename::episode::Episode;

fn create_episode(episode: u32, season: u32) -> Episode {
    Episode {
        path: String::from("one/two/three.mp4"),
        episode: episode,
        season: season,
        name: String::from("The One With The Baby Shower"),
        show_name: String::from("Friends"),
        extension: String::from("mp4"),
    }
}

#[test]
fn test_episode_filename() {
    let episode = create_episode(20, 8);

    let actual = episode.file_name();
    let expected = "Friends S08E20 - The One With The Baby Shower.mp4";

    assert_eq!(expected, actual);
}

#[test]
fn test_episode_compare() {
    let mut episodes = vec![
        create_episode(20, 8),
        create_episode(10, 8),
        create_episode(30, 4),
    ];

    episodes.sort_by(|a, b| a.partial_cmp(b).unwrap());

    assert_eq!(episodes[0].identifier(), "S04E30");
    assert_eq!(episodes[1].identifier(), "S08E10");
    assert_eq!(episodes[2].identifier(), "S08E20");
}

#[test]
fn file_name_without_title() {
    let mut episode = create_episode(3, 1);
    episode.name = String::new();
    assert_eq!(episode.file_name(), "Friends S01E03.mp4");
}

#[test]
fn identifier_pads_to_two_digits_only() {
    assert_eq!(create_episode(5, 100).identifier(), "S100E05");
    assert_eq!(create_episode(0, 0).identifier(), "S00E00");
    assert_eq!(create_episode(1234, 7).identifier(), "S07E1234");
}

#[test]
fn equality_is_by_season_and_episode() {
    let a = create_episode(2, 1);
    let mut b = create_episode(2, 1);
    b.name = String::from("Other");
    b.path = String::from("elsewhere.mkv");
    assert!(a == b);
    assert!(a != create_episode(3, 1));
    assert!(create_episode(9, 1) < create_episode(1, 2));
    assert!(create_episode(1, 2) < create_episode(2, 2));
}
