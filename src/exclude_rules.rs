//! The rules that a new rules file starts with, and the text of a rules file.
use vstd::prelude::*;

verus! {

/// The in-built noise tokens: codecs, resolutions, containers and release
/// group tags.
pub open spec fn default_rules_spec() -> Seq<Seq<char>> {
    seq![
        "aac"@,
        "ac3"@,
        "hdtv"@,
        "org"@,
        "net"@,
        "com"@,
        "webrip"@,
        "480p"@,
        "576p"@,
        "720p"@,
        "1080p"@,
        "x264"@,
        "x265"@,
        "h264"@,
        "h265"@,
        "xvid"@,
        "mvgroup"@,
        "yify"@,
        "yts"@,
        "eztv"@,
        "mp4"@,
        "mp3"@,
        "mkv"@,
        "dvdrip"@,
        "bdrip"@,
        "hd"@,
    ]
}

/// Each rule followed by a line break.
pub open spec fn rules_text_of(rules: Seq<Seq<char>>) -> Seq<char>
    decreases rules.len(),
{
    if rules.len() == 0 {
        Seq::empty()
    } else {
        rules_text_of(rules.drop_last()) + rules.last() + seq!['\n']
    }
}

/// The in-built rules, in the order in which they are written out.
pub fn default_rules() -> (r: Vec<&'static str>)
    ensures
        r@.map_values(|s: &str| s@) == default_rules_spec(),
{
    let mut v: Vec<&'static str> = Vec::new();
    v.push("aac");
    v.push("ac3");
    v.push("hdtv");
    v.push("org");
    v.push("net");
    v.push("com");
    v.push("webrip");
    v.push("480p");
    v.push("576p");
    v.push("720p");
    v.push("1080p");
    v.push("x264");
    v.push("x265");
    v.push("h264");
    v.push("h265");
    v.push("xvid");
    v.push("mvgroup");
    v.push("yify");
    v.push("yts");
    v.push("eztv");
    v.push("mp4");
    v.push("mp3");
    v.push("mkv");
    v.push("dvdrip");
    v.push("bdrip");
    v.push("hd");
    assert(v@.map_values(|s: &str| s@) =~= default_rules_spec());
    v
}

/// The text of a rules file that holds `rules`, one per line.
pub fn rules_text(rules: &Vec<&str>) -> (r: String)
    ensures
        r@ == rules_text_of(rules@.map_values(|s: &str| s@)),
{
    let mut out = String::new();
    let mut i: usize = 0;
    proof {
        reveal_strlit("\n");
        assert(rules@.subrange(0, 0).map_values(|s: &str| s@) =~= Seq::<Seq<char>>::empty());
    }
    while i < rules.len()
        invariant
            i <= rules@.len(),
            out@ == rules_text_of(rules@.subrange(0, i as int).map_values(|s: &str| s@)),
        decreases rules@.len() - i,
    {
        out.append(rules[i]);
        out.append("\n");
        proof {
            reveal_strlit("\n");
            let next = rules@.subrange(0, i + 1).map_values(|s: &str| s@);
            assert(next.last() == rules@[i as int]@);
            assert(next.drop_last() =~= rules@.subrange(0, i as int).map_values(|s: &str| s@));
            assert(out@ =~= rules_text_of(next));
        }
        i += 1;
    }
    assert(rules@.subrange(0, i as int) =~= rules@);
    out
}

} // verus!
