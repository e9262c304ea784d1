use tv_rename::parsers::{
    parse_episode_name,
    parse_episode_number,
    parse_extension,
    parse_season_number,
    parse_show_name,
};

#[test]
fn se_token_gives_both_numbers() {
    assert_eq!(parse_season_number("Friends.s05e02.mp4"), Some(5));
    assert_eq!(parse_episode_number("Friends.s05e02.mp4"), Some(2));
    assert_eq!(parse_season_number("Show.S12E345.mkv"), Some(12));
    assert_eq!(parse_episode_number("Show.S12E345.mkv"), Some(345));
}

#[test]
fn se_token_needs_two_digits() {
    assert_eq!(parse_season_number("Show.s5e2.mkv"), None);
    assert_eq!(parse_episode_number("Show.s5e2.mkv"), None);
}

#[test]
fn x_token_gives_both_numbers() {
    assert_eq!(parse_season_number("Grand.Designs.5x2.mp4"), Some(5));
    assert_eq!(parse_episode_number("Grand.Designs.5x2.mp4"), Some(2));
    assert_eq!(parse_season_number("Show.10X07.avi"), Some(10));
    assert_eq!(parse_episode_number("Show.10X07.avi"), Some(7));
}

#[test]
fn of_comes_before_season_word() {
    assert_eq!(parse_episode_number("Grand.Designs.Series.5.2of9.mp4"), Some(2));
    assert_eq!(parse_season_number("Grand.Designs.Series.5.2of9.mp4"), Some(5));
    assert_eq!(parse_episode_number("Show 3 of 10.mp4"), Some(3));
}

#[test]
fn season_word_comes_first() {
    assert_eq!(parse_season_number("Show.Season 2.s05e03.mp4"), Some(2));
    assert_eq!(parse_season_number("Show.COLLECTION-7.ep1.mp4"), Some(7));
}

#[test]
fn number_too_large_is_no_number() {
    assert_eq!(parse_season_number("Show.season.99999999999.mp4"), None);
    assert_eq!(parse_season_number("Show.season.4294967295.mp4"), Some(4294967295));
    assert_eq!(parse_episode_number("Show.episode.4294967296.mp4"), None);
}

#[test]
fn show_name_needs_a_marker() {
    assert_eq!(parse_show_name("just a film.mp4"), None);
    assert_eq!(parse_show_name("The.Show.Episode.4.mp4"), Some(String::from("The.Show.")));
    assert_eq!(parse_show_name("The.Show.S01E01.mp4"), Some(String::from("The.Show.")));
    assert_eq!(parse_show_name("Mr.Robot.3x04.mp4"), Some(String::from("Mr.Robot.")));
}

#[test]
fn show_name_marker_must_be_a_whole_word() {
    let expected = Some(String::from("Departures.Parts."));
    assert_eq!(parse_show_name("Departures.Parts.1x01.mp4"), expected);
}

#[test]
fn title_follows_the_whole_marker() {
    assert_eq!(parse_episode_name("Show.s01e123.mp4"), Some(String::new()));
    assert_eq!(parse_episode_name("friends.1x03.mp4"), Some(String::new()));
    assert_eq!(parse_episode_name("Show.3x04.A.B.mkv"), Some(String::from(".A.B")));
    assert_eq!(parse_episode_name("Show.3x04-Title.tar.gz"), Some(String::from("-Title.tar")));
    assert_eq!(parse_episode_name("Show.ep.7.Pilot.MKV"), Some(String::from(".Pilot")));
    assert_eq!(parse_episode_name("no marker here.mp4"), Some(String::new()));
}

#[test]
fn extension_edge_cases() {
    assert_eq!(parse_extension("a.b.c_d"), Some(String::from("c_d")));
    assert_eq!(parse_extension("trailing.dot."), None);
    assert_eq!(parse_extension("a.b-c"), Some(String::from("b-c")));
    assert_eq!(parse_extension("name.with space"), Some(String::from("with space")));
    assert_eq!(parse_extension(""), None);
}
