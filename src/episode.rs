//! One episode file: where it is, what it is, and the name it should have.
use vstd::prelude::*;
use core::cmp::Ordering;

verus! {

/// The character of decimal digit `d`.
pub open spec fn digit_char(d: nat) -> char {
    "0123456789"@[d as int]
}

/// The decimal digits of `n`, without leading zeros.
pub open spec fn decimal_of(n: nat) -> Seq<char>
    decreases n,
{
    if n < 10 {
        seq![digit_char(n)]
    } else {
        decimal_of(n / 10).push(digit_char(n % 10))
    }
}

/// The decimal digits of `n`, padded with zeros to at least two.
pub open spec fn two_digits(n: nat) -> Seq<char> {
    if n < 10 {
        seq!['0'] + decimal_of(n)
    } else {
        decimal_of(n)
    }
}

/// `S<season>E<episode>`, each number of at least two digits.
pub open spec fn identifier_of(season: u32, episode: u32) -> Seq<char> {
    seq!['S'] + two_digits(season as nat) + seq!['E'] + two_digits(episode as nat)
}

/// `<show> <identifier>.<ext>`, or `<show> <identifier> - <title>.<ext>`
/// where there is a title.
pub open spec fn file_name_of(
    show_name: Seq<char>,
    season: u32,
    episode: u32,
    title: Seq<char>,
    extension: Seq<char>,
) -> Seq<char> {
    if title.len() == 0 {
        show_name + seq![' '] + identifier_of(season, episode) + seq!['.'] + extension
    } else {
        show_name + seq![' '] + identifier_of(season, episode) + seq![' ', '-', ' '] + title
            + seq!['.'] + extension
    }
}

/// The order of episodes: by season, then by episode.
pub open spec fn key_order(a: (u32, u32), b: (u32, u32)) -> Ordering {
    if a.0 < b.0 || (a.0 == b.0 && a.1 < b.1) {
        Ordering::Less
    } else if a == b {
        Ordering::Equal
    } else {
        Ordering::Greater
    }
}

fn digit_text(d: u32) -> (r: &'static str)
    requires
        d < 10,
    ensures
        r@ == seq![digit_char(d as nat)],
{
    let digits = "0123456789";
    proof {
        reveal_strlit("0123456789");
    }
    let r = digits.substring_char(d as usize, d as usize + 1);
    assert(r@ =~= seq![digit_char(d as nat)]);
    r
}

fn append_decimal(out: &mut String, n: u32)
    ensures
        final(out)@ == old(out)@ + decimal_of(n as nat),
    decreases n,
{
    if n >= 10 {
        append_decimal(out, n / 10);
    }
    out.append(digit_text(n % 10));
    assert(out@ =~= old(out)@ + decimal_of(n as nat));
}

fn append_two_digits(out: &mut String, n: u32)
    ensures
        final(out)@ == old(out)@ + two_digits(n as nat),
{
    proof {
        reveal_strlit("0123456789");
    }
    if n < 10 {
        out.append(digit_text(0));
    }
    append_decimal(out, n);
    assert(out@ =~= old(out)@ + two_digits(n as nat));
}

/// An episode file and the parts of its new name.
#[derive(Clone, Debug)]
pub struct Episode {
    pub path: String,
    pub episode: u32,
    pub season: u32,
    pub name: String,
    pub show_name: String,
    pub extension: String,
}

impl Episode {
    /// What tells episodes apart: season and episode number.
    pub open spec fn key(&self) -> (u32, u32) {
        (self.season, self.episode)
    }

    /// The new file name that the parts give.
    pub open spec fn file_name_spec(&self) -> Seq<char> {
        file_name_of(self.show_name@, self.season, self.episode, self.name@, self.extension@)
    }

    /// The unique identifier of the episode, `S<season>E<episode>`.
    pub fn identifier(&self) -> (r: String)
        ensures
            r@ == identifier_of(self.season, self.episode),
    {
        let mut r = String::new();
        proof {
            reveal_strlit("S");
            reveal_strlit("E");
        }
        r.append("S");
        append_two_digits(&mut r, self.season);
        r.append("E");
        append_two_digits(&mut r, self.episode);
        assert(r@ =~= identifier_of(self.season, self.episode));
        r
    }

    /// The new file name of the episode.
    pub fn file_name(&self) -> (r: String)
        ensures
            r@ == self.file_name_spec(),
    {
        proof {
            reveal_strlit(" ");
            reveal_strlit(" - ");
            reveal_strlit(".");
        }
        let mut r = String::from_str(self.show_name.as_str());
        r.append(" ");
        let id = self.identifier();
        r.append(id.as_str());
        if self.name.unicode_len() > 0 {
            r.append(" - ");
            r.append(self.name.as_str());
        }
        r.append(".");
        r.append(self.extension.as_str());
        assert(r@ =~= self.file_name_spec());
        r
    }

    /// Compares by season, then by episode.
    pub fn compare(&self, other: &Episode) -> (r: Ordering)
        ensures
            r == key_order(self.key(), other.key()),
    {
        if self.season == other.season {
            if self.episode == other.episode {
                Ordering::Equal
            } else if self.episode > other.episode {
                Ordering::Greater
            } else {
                Ordering::Less
            }
        } else if self.season > other.season {
            Ordering::Greater
        } else {
            Ordering::Less
        }
    }
}

impl PartialEq for Episode {
    fn eq(&self, other: &Episode) -> (r: bool) {
        self.season == other.season && self.episode == other.episode
    }
}

impl vstd::std_specs::cmp::PartialEqSpecImpl for Episode {
    open spec fn obeys_eq_spec() -> bool {
        true
    }

    open spec fn eq_spec(&self, other: &Episode) -> bool {
        self.key() == other.key()
    }
}

impl Eq for Episode {
}

impl PartialOrd for Episode {
    fn partial_cmp(&self, other: &Episode) -> (r: Option<Ordering>) {
        Some(self.compare(other))
    }
}

impl vstd::std_specs::cmp::PartialOrdSpecImpl for Episode {
    open spec fn obeys_partial_cmp_spec() -> bool {
        true
    }

    open spec fn partial_cmp_spec(&self, other: &Episode) -> Option<Ordering> {
        Some(key_order(self.key(), other.key()))
    }
}

} // verus!
