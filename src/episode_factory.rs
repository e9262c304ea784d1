//! Building episodes from paths for one show and season, refusing
//! duplicates and keeping them in order.
use vstd::prelude::*;
use crate::cleaner::{Cleaner, cleaned};
use crate::episode::{Episode, identifier_of, key_order};
use crate::parsers::{
    parse_episode_name,
    parse_episode_number,
    parse_extension,
    episode_number_of,
    extension_of,
    episode_title_of,
};
use core::cmp::Ordering;

verus! {

/// What `Path::file_name` gives for a path.
pub uninterp spec fn base_name_of(path: Seq<char>) -> Option<Seq<char>>;

/// Relies on `std::path::Path::file_name`: the final component of the path,
/// none where the path ends in `..`, is a root or is empty; it depends on the
/// path alone.
#[verifier::external_body]
fn file_name_of_path(path: &str) -> (r: Option<String>)
    ensures
        r.deep_view() == base_name_of(path@),
{
    match std::path::Path::new(path).file_name() {
        Some(name) => match name.to_str() {
            Some(text) => Some(text.to_string()),
            None => None,
        },
        None => None,
    }
}

/// Why an episode could not be made or kept.
#[derive(Debug)]
pub enum EpisodeError {
    /// The path has no file name.
    MissingFileName,
    /// No episode number could be read from the file name.
    MissingEpisodeNumber,
    /// The file name has no extension.
    MissingExtension,
    /// An episode with the same season and number is already there; it
    /// carries the identifier of that episode.
    DuplicateEpisode(String),
}

impl EpisodeError {
    /// A message that describes the error.
    pub fn message(&self) -> (r: String)
        ensures
            r@ == match self {
                EpisodeError::MissingFileName => "Cannot get file name."@,
                EpisodeError::MissingEpisodeNumber => "Failed to parse episode number."@,
                EpisodeError::MissingExtension => "Failed to parse file extension."@,
                EpisodeError::DuplicateEpisode(id) => "Duplicate episode "@ + id@,
            },
    {
        match self {
            EpisodeError::MissingFileName => String::from_str("Cannot get file name."),
            EpisodeError::MissingEpisodeNumber => String::from_str(
                "Failed to parse episode number.",
            ),
            EpisodeError::MissingExtension => String::from_str("Failed to parse file extension."),
            EpisodeError::DuplicateEpisode(id) => {
                let mut r = String::from_str("Duplicate episode ");
                r.append(id.as_str());
                r
            },
        }
    }
}

/// The error that making an episode from `path` ends in, if any.
pub open spec fn create_failure(path: Seq<char>) -> Option<EpisodeError> {
    match base_name_of(path) {
        None => Some(EpisodeError::MissingFileName),
        Some(f) => file_failure(f),
    }
}

/// The error that making an episode from file name `f` ends in, if any.
pub open spec fn file_failure(f: Seq<char>) -> Option<EpisodeError> {
    if episode_number_of(f) is None {
        Some(EpisodeError::MissingEpisodeNumber)
    } else if extension_of(f) is None {
        Some(EpisodeError::MissingExtension)
    } else {
        None
    }
}

/// The title of the episode in file `f`: the cleaned title, or nothing.
pub open spec fn title_for(rules: Seq<Seq<char>>, f: Seq<char>) -> Seq<char> {
    if episode_title_of(f).len() == 0 {
        Seq::empty()
    } else {
        cleaned(rules, episode_title_of(f))
    }
}

/// The episode number that `path` gives.
pub open spec fn number_for(path: Seq<char>) -> u32 {
    episode_number_of(base_name_of(path)->0)->0
}

/// The episodes are in strictly increasing order of season and episode.
pub open spec fn in_order(eps: Seq<Episode>) -> bool {
    forall|i: int, j: int|
        0 <= i < j < eps.len() ==> key_order(#[trigger] eps[i].key(), #[trigger] eps[j].key())
            == Ordering::Less
}

proof fn lemma_insert_in_order(eps: Seq<Episode>, pos: int, e: Episode)
    requires
        in_order(eps),
        0 <= pos <= eps.len(),
        forall|j: int| 0 <= j < pos ==> key_order(#[trigger] eps[j].key(), e.key()) == Ordering::Less,
        forall|j: int|
            pos <= j < eps.len() ==> key_order(e.key(), #[trigger] eps[j].key()) == Ordering::Less,
    ensures
        in_order(eps.insert(pos, e)),
{
    let s = eps.insert(pos, e);
    assert forall|i: int, j: int| 0 <= i < j < s.len() implies key_order(
        #[trigger] s[i].key(),
        #[trigger] s[j].key(),
    ) == Ordering::Less by {
        if j < pos {
            assert(s[i] == eps[i] && s[j] == eps[j]);
        } else if j == pos {
            assert(s[i] == eps[i]);
        } else if i < pos {
            assert(s[i] == eps[i] && s[j] == eps[j - 1]);
        } else if i == pos {
            assert(s[j] == eps[j - 1]);
        } else {
            assert(s[i] == eps[i - 1] && s[j] == eps[j - 1]);
        }
    }
}

/// Makes episodes for one show and season, and keeps the ones inserted.
pub struct EpisodeFactory<'c> {
    pub season: u32,
    pub show_name: String,
    pub cleaner: &'c Cleaner,
    pub episodes: Vec<Episode>,
}

impl<'c> EpisodeFactory<'c> {
    /// The inserted episodes are in order, hence none has the key of another.
    pub open spec fn wf(&self) -> bool {
        in_order(self.episodes@)
    }

    /// An inserted episode has season and episode number `key`.
    pub open spec fn holds_key(&self, key: (u32, u32)) -> bool {
        exists|i: int|
            0 <= i < self.episodes@.len() && (#[trigger] self.episodes@[i]).key() == key
    }

    /// `e` is the episode that this factory makes from `path`.
    pub open spec fn made_from(&self, path: Seq<char>, e: Episode) -> bool {
        self.made_from_file(path, base_name_of(path)->0, e)
    }

    /// `e` is the episode that this factory makes from `path`, whose file
    /// name is `f`.
    pub open spec fn made_from_file(&self, path: Seq<char>, f: Seq<char>, e: Episode) -> bool {
        &&& e.path@ == path
        &&& e.season == self.season
        &&& e.show_name@ == self.show_name@
        &&& Some(e.episode) == episode_number_of(f)
        &&& Some(e.extension@) == extension_of(f)
        &&& e.name@ == title_for(self.cleaner.rules_view(), f)
    }

    /// `path` makes an episode whose season and number are already inserted.
    pub open spec fn is_duplicate(&self, path: Seq<char>) -> bool {
        create_failure(path) is None && self.holds_key((self.season, number_for(path)))
    }

    /// `after` is this factory with the episode made from `path` added in
    /// its place.
    pub open spec fn inserted(&self, after: &EpisodeFactory, path: Seq<char>) -> bool {
        &&& after.season == self.season
        &&& after.show_name@ == self.show_name@
        &&& after.cleaner == self.cleaner
        &&& exists|i: int, e: Episode|
            0 <= i <= self.episodes@.len() && self.made_from(path, e) && after.episodes@
                == self.episodes@.insert(i, e)
    }

    /// A factory for `show_name` and `season` that cleans titles with
    /// `cleaner` and holds no episode yet.
    pub fn new(show_name: &str, season: u32, cleaner: &'c Cleaner) -> (r: EpisodeFactory<'c>)
        ensures
            r.show_name@ == show_name@,
            r.season == season,
            r.cleaner == cleaner,
            r.episodes@.len() == 0,
            r.wf(),
    {
        EpisodeFactory {
            show_name: String::from_str(show_name),
            season,
            cleaner,
            episodes: Vec::new(),
        }
    }

    /// Makes the episode of the file at `path`: episode number, extension
    /// and title from its file name; show and season from the factory.
    pub fn create(&self, path: &str) -> (r: Result<Episode, EpisodeError>)
        ensures
            match create_failure(path@) {
                Some(err) => r == Err::<Episode, EpisodeError>(err),
                None => r matches Ok(e) && self.made_from(path@, e),
            },
    {
        match file_name_of_path(path) {
            Some(name) => self.create_from_file_name(path, name.as_str()),
            None => Err(EpisodeError::MissingFileName),
        }
    }

    /// Makes the episode of the file at `path` whose file name is
    /// `file_name`: episode number, extension and title from the file name;
    /// show and season from the factory.
    pub fn create_from_file_name(&self, path: &str, file_name: &str) -> (r: Result<
        Episode,
        EpisodeError,
    >)
        ensures
            match file_failure(file_name@) {
                Some(err) => r == Err::<Episode, EpisodeError>(err),
                None => r matches Ok(e) && self.made_from_file(path@, file_name@, e),
            },
    {
        let episode_number = match parse_episode_number(file_name) {
            Some(num) => num,
            None => return Err(EpisodeError::MissingEpisodeNumber),
        };
        let extension = match parse_extension(file_name) {
            Some(ext) => ext,
            None => return Err(EpisodeError::MissingExtension),
        };
        let episode_name = match parse_episode_name(file_name) {
            Some(title) => {
                if title.unicode_len() == 0 {
                    assert(title@ =~= Seq::<char>::empty());
                    title
                } else {
                    self.cleaner.clean(title.as_str())
                }
            },
            None => String::new(),
        };
        Ok(
            Episode {
                path: String::from_str(path),
                season: self.season,
                show_name: self.show_name.clone(),
                episode: episode_number,
                extension,
                name: episode_name,
            },
        )
    }

    /// Makes the episode of the file at `path` and keeps it, unless an
    /// episode with the same season and number is already kept.
    pub fn insert(&mut self, path: &str) -> (r: Result<(), EpisodeError>)
        requires
            old(self).wf(),
        ensures
            final(self).wf(),
            match create_failure(path@) {
                Some(err) => r == Err::<(), EpisodeError>(err) && *final(self) == *old(self),
                None => if old(self).is_duplicate(path@) {
                    &&& r matches Err(EpisodeError::DuplicateEpisode(id)) && id@ == identifier_of(
                        old(self).season,
                        number_for(path@),
                    )
                    &&& *final(self) == *old(self)
                } else {
                    r is Ok && old(self).inserted(final(self), path@)
                },
            },
    {
        let episode = match self.create(path) {
            Ok(e) => e,
            Err(err) => return Err(err),
        };
        let n = self.episodes.len();
        let ghost before = self.episodes@;
        let mut pos: usize = 0;
        loop
            invariant
                *self == *old(self),
                before == self.episodes@,
                in_order(before),
                create_failure(path@) is None,
                old(self).made_from(path@, episode),
                n == before.len(),
                pos <= n,
                forall|j: int|
                    0 <= j < pos ==> key_order(#[trigger] before[j].key(), episode.key())
                        == Ordering::Less,
            ensures
                *self == *old(self),
                pos <= n,
                forall|j: int|
                    0 <= j < pos ==> key_order(#[trigger] before[j].key(), episode.key())
                        == Ordering::Less,
                forall|j: int|
                    pos <= j < n ==> key_order(episode.key(), #[trigger] before[j].key())
                        == Ordering::Less,
            decreases n - pos,
        {
            if pos == n {
                break;
            }
            match self.episodes[pos].compare(&episode) {
                Ordering::Less => {},
                Ordering::Equal => {
                    return Err(EpisodeError::DuplicateEpisode(episode.identifier()));
                },
                Ordering::Greater => {
                    proof {
                        assert forall|j: int| pos <= j < n implies key_order(
                            episode.key(),
                            #[trigger] before[j].key(),
                        ) == Ordering::Less by {
                            if j > pos {
                                assert(key_order(before[pos as int].key(), before[j].key())
                                    == Ordering::Less);
                            }
                        }
                    }
                    break;
                },
            }
            pos += 1;
        }
        proof {
            assert forall|j: int| 0 <= j < n implies (#[trigger] before[j]).key()
                != episode.key() by {
                if j < pos {
                    assert(key_order(before[j].key(), episode.key()) == Ordering::Less);
                } else {
                    assert(key_order(episode.key(), before[j].key()) == Ordering::Less);
                }
            }
            lemma_insert_in_order(before, pos as int, episode);
        }
        self.episodes.insert(pos, episode);
        proof {
            assert(self.episodes@ == before.insert(pos as int, episode));
        }
        Ok(())
    }

    /// Every inserted episode, ordered by season, then by episode.
    pub fn get_all(&self) -> (r: Vec<&Episode>)
        requires
            self.wf(),
        ensures
            r@.len() == self.episodes@.len(),
            forall|i: int| 0 <= i < r@.len() ==> *r@[i] == self.episodes@[i],
            forall|i: int, j: int|
                0 <= i < j < r@.len() ==> key_order(r@[i].key(), r@[j].key()) == Ordering::Less,
    {
        let mut r: Vec<&Episode> = Vec::new();
        let mut i: usize = 0;
        while i < self.episodes.len()
            invariant
                i <= self.episodes@.len(),
                r@.len() == i,
                forall|k: int| 0 <= k < i ==> *r@[k] == self.episodes@[k],
            decreases self.episodes@.len() - i,
        {
            r.push(&self.episodes[i]);
            i += 1;
        }
        r
    }
}

/// Once a path has been inserted, a second path that gives the same episode
/// number is a duplicate, and the first insertion added exactly one episode.
pub proof fn lemma_same_episode_twice<'c>(
    before: EpisodeFactory<'c>,
    after: EpisodeFactory<'c>,
    first: Seq<char>,
    second: Seq<char>,
)
    requires
        before.inserted(&after, first),
        create_failure(second) is None,
        number_for(second) == number_for(first),
    ensures
        after.is_duplicate(second),
        after.episodes@.len() == before.episodes@.len() + 1,
{
    let (i, e) = choose|i: int, e: Episode|
        0 <= i <= before.episodes@.len() && before.made_from(first, e) && after.episodes@
            == before.episodes@.insert(i, e);
    assert(after.episodes@[i] == e);
    assert(after.episodes@[i].key() == (after.season, number_for(second)));
}

} // verus!
