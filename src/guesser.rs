//! Guessing the show and the season of a batch of files by majority vote.
use vstd::prelude::*;
use crate::parsers::{parse_show_name, parse_season_number, show_name_of, season_number_of};

verus! {

/// How many of `vals` are `Some(v)`.
pub open spec fn count_in<V>(vals: Seq<Option<V>>, v: V) -> nat
    decreases vals.len(),
{
    if vals.len() == 0 {
        0
    } else {
        count_in(vals.drop_last(), v) + if vals.last() == Some(v) {
            1nat
        } else {
            0nat
        }
    }
}

/// `vals[i]` wins the vote: no value occurs more often, and every value first
/// seen before it occurs less often.
pub open spec fn wins_at<V>(vals: Seq<Option<V>>, i: int) -> bool {
    &&& 0 <= i < vals.len()
    &&& vals[i] is Some
    &&& forall|j: int|
        0 <= j < vals.len() && vals[j] is Some ==> count_in(vals, #[trigger] vals[j]->0)
            <= count_in(vals, vals[i]->0)
    &&& forall|j: int|
        0 <= j < i && vals[j] is Some ==> count_in(vals, #[trigger] vals[j]->0) < count_in(
            vals,
            vals[i]->0,
        )
}

/// The most frequent value of `vals`; among values that occur equally often,
/// the one seen first. Nothing where `vals` holds no value.
pub open spec fn most_common<V>(vals: Seq<Option<V>>) -> Option<V> {
    if exists|i: int| wins_at(vals, i) {
        Some(vals[choose|i: int| wins_at(vals, i)]->0)
    } else {
        None
    }
}

/// The show name that each file name gives.
pub open spec fn show_names_of(files: Seq<String>) -> Seq<Option<Seq<char>>> {
    Seq::new(files.len(), |i: int| show_name_of(files[i]@))
}

/// The season number that each file name gives.
pub open spec fn season_numbers_of(files: Seq<String>) -> Seq<Option<u32>> {
    Seq::new(files.len(), |i: int| season_number_of(files[i]@))
}

/// The vote has at most one winner.
pub proof fn lemma_one_winner<V>(vals: Seq<Option<V>>, i: int, k: int)
    requires
        wins_at(vals, i),
        wins_at(vals, k),
    ensures
        i == k,
{
    if i < k {
        assert(count_in(vals, vals[i]->0) < count_in(vals, vals[k]->0));
    } else if k < i {
        assert(count_in(vals, vals[k]->0) < count_in(vals, vals[i]->0));
    }
}

proof fn lemma_count_prefix<V>(vals: Seq<Option<V>>, i: int, v: V)
    requires
        0 <= i < vals.len(),
    ensures
        count_in(vals.subrange(0, i + 1), v) == count_in(vals.subrange(0, i), v) + if vals[i]
            == Some(v) {
            1nat
        } else {
            0nat
        },
{
    assert(vals.subrange(0, i + 1).drop_last() =~= vals.subrange(0, i));
}

proof fn lemma_count_present<V>(vals: Seq<Option<V>>, i: int)
    requires
        0 <= i < vals.len(),
        vals[i] is Some,
    ensures
        count_in(vals, vals[i]->0) >= 1,
    decreases vals.len(),
{
    if i < vals.len() - 1 {
        lemma_count_present(vals.drop_last(), i);
    }
}

/// The winner found is the one that `most_common` names.
proof fn lemma_found_winner<V>(vals: Seq<Option<V>>, b: int)
    requires
        wins_at(vals, b),
    ensures
        most_common(vals) == Some(vals[b]->0),
{
    let c = choose|i: int| wins_at(vals, i);
    lemma_one_winner(vals, b, c);
}

fn count_names(
    vals: &Vec<Option<String>>,
    v: &String,
    Ghost(sv): Ghost<Seq<Option<Seq<char>>>>,
) -> (c: usize)
    requires
        sv.len() == vals@.len(),
        forall|k: int| 0 <= k < sv.len() ==> (#[trigger] vals@[k]).deep_view() == sv[k],
    ensures
        c == count_in(sv, v@),
{
    let mut c: usize = 0;
    let mut i: usize = 0;
    assert(sv.subrange(0, 0) =~= Seq::<Option<Seq<char>>>::empty());
    while i < vals.len()
        invariant
            sv.len() == vals@.len(),
            forall|k: int| 0 <= k < sv.len() ==> (#[trigger] vals@[k]).deep_view() == sv[k],
            i <= vals@.len(),
            c <= i,
            c == count_in(sv.subrange(0, i as int), v@),
        decreases vals@.len() - i,
    {
        proof {
            lemma_count_prefix(sv, i as int, v@);
        }
        assert(vals@[i as int].deep_view() == sv[i as int]);
        match &vals[i] {
            Some(s) => {
                assert(sv[i as int] == Some(s@));
                if *s == *v {
                    c += 1;
                }
            },
            None => {},
        }
        i += 1;
    }
    assert(sv.subrange(0, i as int) =~= sv);
    c
}

fn count_seasons(vals: &Vec<Option<u32>>, v: u32) -> (c: usize)
    ensures
        c == count_in(vals@, v),
{
    let mut c: usize = 0;
    let mut i: usize = 0;
    assert(vals@.subrange(0, 0) =~= Seq::<Option<u32>>::empty());
    while i < vals.len()
        invariant
            i <= vals@.len(),
            c <= i,
            c == count_in(vals@.subrange(0, i as int), v),
        decreases vals@.len() - i,
    {
        proof {
            lemma_count_prefix(vals@, i as int, v);
        }
        if vals[i] == Some(v) {
            c += 1;
        }
        i += 1;
    }
    assert(vals@.subrange(0, i as int) =~= vals@);
    c
}

/// The position of the winner of the vote over `sv`, given how often the
/// value at each position occurs (zero where there is none).
fn pick_winner<V>(counts: &Vec<usize>, Ghost(sv): Ghost<Seq<Option<V>>>) -> (r: Option<usize>)
    requires
        counts@.len() == sv.len(),
        forall|k: int|
            0 <= k < sv.len() ==> #[trigger] counts@[k] == if sv[k] is Some {
                count_in(sv, sv[k]->0)
            } else {
                0
            },
    ensures
        r is None <==> forall|k: int| 0 <= k < sv.len() ==> sv[k] is None,
        r matches Some(b) ==> wins_at(sv, b as int),
{
    let n = counts.len();
    let mut best: Option<usize> = None;
    let mut best_count: usize = 0;
    let mut i: usize = 0;
    while i < n
        invariant
            n == counts@.len() == sv.len(),
            forall|k: int|
                0 <= k < sv.len() ==> #[trigger] counts@[k] == if sv[k] is Some {
                    count_in(sv, sv[k]->0)
                } else {
                    0
                },
            i <= n,
            best is None ==> best_count == 0 && forall|j: int| 0 <= j < i ==> sv[j] is None,
            best matches Some(b) ==> {
                &&& b < i
                &&& sv[b as int] is Some
                &&& best_count == count_in(sv, sv[b as int]->0)
                &&& forall|j: int|
                    0 <= j < b && sv[j] is Some ==> count_in(sv, #[trigger] sv[j]->0) < best_count
            },
            forall|j: int|
                0 <= j < i && sv[j] is Some ==> count_in(sv, #[trigger] sv[j]->0) <= best_count,
        decreases n - i,
    {
        proof {
            if sv[i as int] is Some {
                lemma_count_present(sv, i as int);
            }
        }
        if counts[i] > best_count {
            best = Some(i);
            best_count = counts[i];
        }
        i += 1;
    }
    best
}

/// Guesses the show and the season of a batch from its file names.
pub struct Guesser {
    pub files: Vec<String>,
}

impl Guesser {
    /// A guesser over the given file names (base names, not paths).
    pub fn new(files: Vec<String>) -> (r: Guesser)
        ensures
            r.files@ == files@,
    {
        Guesser { files }
    }

    /// The most likely show name.
    pub fn get_show_name(&self) -> (r: Option<String>)
        ensures
            r.deep_view() == most_common(show_names_of(self.files@)),
    {
        let ghost sv = show_names_of(self.files@);
        let n = self.files.len();
        let mut vals: Vec<Option<String>> = Vec::new();
        let mut i: usize = 0;
        while i < n
            invariant
                n == self.files@.len() == sv.len(),
                sv == show_names_of(self.files@),
                i <= n,
                vals@.len() == i,
                forall|k: int| 0 <= k < i ==> (#[trigger] vals@[k]).deep_view() == sv[k],
            decreases n - i,
        {
            vals.push(parse_show_name(self.files[i].as_str()));
            i += 1;
        }
        let mut counts: Vec<usize> = Vec::new();
        let mut i: usize = 0;
        while i < n
            invariant
                n == vals@.len() == sv.len(),
                forall|k: int| 0 <= k < n ==> (#[trigger] vals@[k]).deep_view() == sv[k],
                i <= n,
                counts@.len() == i,
                forall|k: int|
                    0 <= k < i ==> #[trigger] counts@[k] == if sv[k] is Some {
                        count_in(sv, sv[k]->0)
                    } else {
                        0
                    },
            decreases n - i,
        {
            assert(vals@[i as int].deep_view() == sv[i as int]);
            match &vals[i] {
                Some(v) => counts.push(count_names(&vals, v, Ghost(sv))),
                None => counts.push(0),
            }
            i += 1;
        }
        match pick_winner::<Seq<char>>(&counts, Ghost(sv)) {
            Some(b) => {
                proof {
                    lemma_found_winner(sv, b as int);
                }
                assert(vals@[b as int].deep_view() == sv[b as int]);
                match &vals[b] {
                    Some(v) => Some(v.clone()),
                    None => None,
                }
            },
            None => None,
        }
    }

    /// The most likely season number.
    pub fn get_season_number(&self) -> (r: Option<u32>)
        ensures
            r == most_common(season_numbers_of(self.files@)),
    {
        let ghost sv = season_numbers_of(self.files@);
        let n = self.files.len();
        let mut vals: Vec<Option<u32>> = Vec::new();
        let mut i: usize = 0;
        while i < n
            invariant
                n == self.files@.len() == sv.len(),
                sv == season_numbers_of(self.files@),
                i <= n,
                vals@ == sv.subrange(0, i as int),
            decreases n - i,
        {
            vals.push(parse_season_number(self.files[i].as_str()));
            i += 1;
            assert(vals@ =~= sv.subrange(0, i as int));
        }
        assert(vals@ =~= sv);
        let mut counts: Vec<usize> = Vec::new();
        let mut i: usize = 0;
        while i < n
            invariant
                n == vals@.len() == sv.len(),
                vals@ == sv,
                i <= n,
                counts@.len() == i,
                forall|k: int|
                    0 <= k < i ==> #[trigger] counts@[k] == if sv[k] is Some {
                        count_in(sv, sv[k]->0)
                    } else {
                        0
                    },
            decreases n - i,
        {
            match vals[i] {
                Some(v) => counts.push(count_seasons(&vals, v)),
                None => counts.push(0),
            }
            i += 1;
        }
        match pick_winner::<u32>(&counts, Ghost(sv)) {
            Some(b) => {
                proof {
                    lemma_found_winner(sv, b as int);
                }
                vals[b]
            },
            None => None,
        }
    }
}

} // verus!
