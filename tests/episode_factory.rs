use tv_rename::cleaner::Cleaner;
use tv_rename::episode_factory::{EpisodeError, EpisodeFactory};

#[test]
fn test_create() {
    let cleaner = Cleaner::new(vec!["lol", "ftw"]);
    let factory = EpisodeFactory::new("Friends", 1, &cleaner);

    let episode = factory.create("friends.1x01.the.one.[ftw]-LOL.mp4");

    let actual = episode.unwrap().file_name();
    let expected = "Friends S01E01 - The One.mp4";

    assert_eq!(expected, actual);
}

#[test]
fn test_insert() {
    let cleaner = Cleaner::new(vec!["lol", "ftw"]);
    let mut factory = EpisodeFactory::new("friends", 1, &cleaner);

    factory.insert("friends.1x03.mp4").unwrap();
    factory.insert("friends.1x01.mp4").unwrap();
    factory.insert("friends.1x02.mp4").unwrap();

    let sorted = factory.get_all();

    assert_eq!(sorted[0].identifier(), "S01E01");
    assert_eq!(sorted[1].identifier(), "S01E02");
    assert_eq!(sorted[2].identifier(), "S01E03");
}

#[test]
fn duplicate_insert_is_refused() {
    let cleaner = Cleaner::new(vec!["lol"]);
    let mut factory = EpisodeFactory::new("Friends", 1, &cleaner);
    factory.insert("dir/friends.1x01.first.mp4").unwrap();
    match factory.insert("friends.s01e01.second.mkv") {
        Err(EpisodeError::DuplicateEpisode(id)) => assert_eq!(id, "S01E01"),
        _ => panic!("expected a duplicate"),
    }
    let all = factory.get_all();
    assert_eq!(all.len(), 1);
    assert_eq!(all[0].name, "First");
    assert_eq!(all[0].path, "dir/friends.1x01.first.mp4");
}

#[test]
fn create_uses_file_name_only() {
    let cleaner = Cleaner::new(vec!["lol"]);
    let factory = EpisodeFactory::new("Show", 2, &cleaner);
    let episode = factory.create("season 9/Show.ep.4.mkv").unwrap();
    assert_eq!(episode.season, 2);
    assert_eq!(episode.episode, 4);
    assert_eq!(episode.extension, "mkv");
    assert_eq!(episode.name, "");
    assert_eq!(episode.file_name(), "Show S02E04.mkv");
    let episode = factory.create("dir.2of9/Show.1x05.mkv").unwrap();
    assert_eq!(episode.episode, 5);
}

#[test]
fn marker_before_extension_gives_no_title() {
    let cleaner = Cleaner::new(vec!["lol", "ftw"]);
    let factory = EpisodeFactory::new("Friends", 1, &cleaner);
    let episode = factory.create("friends.s05e02.mp4").unwrap();
    assert_eq!(episode.season, 1);
    assert_eq!(episode.episode, 2);
    assert_eq!(episode.name, "");
    assert_eq!(episode.file_name(), "Friends S01E02.mp4");
}

#[test]
fn create_from_file_name_reads_the_given_name() {
    let cleaner = Cleaner::new(vec!["lol"]);
    let factory = EpisodeFactory::new("Show", 3, &cleaner);
    let made = factory.create_from_file_name("any/where.1x09.mp4", "show.2x07.pilot-LOL.avi");
    let episode = made.unwrap();
    assert_eq!(episode.path, "any/where.1x09.mp4");
    assert_eq!(episode.episode, 7);
    assert_eq!(episode.extension, "avi");
    assert_eq!(episode.file_name(), "Show S03E07 - Pilot.avi");
    assert!(matches!(
        factory.create_from_file_name("x.mp4", "no number.mp4"),
        Err(EpisodeError::MissingEpisodeNumber)
    ));
    assert!(matches!(
        factory.create_from_file_name("x", "show 1x02"),
        Err(EpisodeError::MissingExtension)
    ));
}

#[test]
fn create_errors() {
    let cleaner = Cleaner::new(vec!["lol"]);
    let factory = EpisodeFactory::new("Show", 1, &cleaner);
    assert!(matches!(factory.create(".."), Err(EpisodeError::MissingFileName)));
    assert!(matches!(factory.create("friends - yep.mp4"), Err(EpisodeError::MissingEpisodeNumber)));
    assert!(matches!(factory.create("friends 1x02"), Err(EpisodeError::MissingExtension)));
}

#[test]
fn error_messages() {
    assert_eq!(EpisodeError::MissingFileName.message(), "Cannot get file name.");
    assert_eq!(EpisodeError::MissingEpisodeNumber.message(), "Failed to parse episode number.");
    assert_eq!(EpisodeError::MissingExtension.message(), "Failed to parse file extension.");
    assert_eq!(
        EpisodeError::DuplicateEpisode(String::from("S01E02")).message(),
        "Duplicate episode S01E02"
    );
}
