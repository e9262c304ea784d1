//! Reading season, episode, show name, title and extension out of a file name.
//!
//! Each field has an ordered cascade of detectors. A detector looks for its
//! pattern at every position of the name, from the left, and captures a span
//! at the first position where the pattern holds; the cascade takes the first
//! detector that captures anything. Keywords and the `s`, `e`, `x` and `of`
//! separators are matched without regard to ASCII case; digits and word
//! characters are ASCII ones.
use vstd::prelude::*;
use crate::chars::{is_digit, is_word, ci_eq, chars_of, digit, word, same_letter};

verus! {

/// End of the run of digits that starts at `i` (`i` itself when there is none).
pub open spec fn digit_run_end(s: Seq<char>, i: int) -> int
    decreases s.len() - i,
{
    if 0 <= i < s.len() && is_digit(s[i]) {
        digit_run_end(s, i + 1)
    } else {
        i
    }
}

/// End of the run of non-word characters that starts at `i`.
pub open spec fn nonword_run_end(s: Seq<char>, i: int) -> int
    decreases s.len() - i,
{
    if 0 <= i < s.len() && !is_word(s[i]) {
        nonword_run_end(s, i + 1)
    } else {
        i
    }
}

/// Position of the last `.` before `j`; -1 where there is none.
pub open spec fn last_dot_before(s: Seq<char>, j: int) -> int
    decreases j,
{
    if j <= 0 || j > s.len() {
        -1
    } else if s[j - 1] == '.' {
        j - 1
    } else {
        last_dot_before(s, j - 1)
    }
}

/// Position of the last `.` of the text; -1 where there is none.
pub open spec fn last_dot(s: Seq<char>) -> int {
    last_dot_before(s, s.len() as int)
}

/// The text has a `.` and something after its last one.
pub open spec fn has_extension(s: Seq<char>) -> bool {
    0 <= last_dot(s) && last_dot(s) + 1 < s.len()
}

pub open spec fn digit_at(s: Seq<char>, i: int) -> bool {
    0 <= i < s.len() && is_digit(s[i])
}

/// Position `i` holds the letter `k`, in either case.
pub open spec fn letter_at(s: Seq<char>, i: int, k: char) -> bool {
    0 <= i < s.len() && ci_eq(s[i], k)
}

/// The keyword `kw` (lower case) starts at `p`, in any case.
pub open spec fn keyword_at(s: Seq<char>, p: int, kw: Seq<char>) -> bool {
    &&& 0 <= p
    &&& p + kw.len() <= s.len()
    &&& forall|j: int| 0 <= j < kw.len() ==> ci_eq(#[trigger] s[p + j], kw[j])
}

pub open spec fn or_else<A>(a: Option<A>, b: Option<A>) -> Option<A> {
    if a is Some {
        a
    } else {
        b
    }
}

/// The keyword `kw` at `p`, then any non-word characters, then digits: the
/// span of those digits.
pub open spec fn number_after(s: Seq<char>, p: int, kw: Seq<char>) -> Option<(int, int)> {
    let w = nonword_run_end(s, p + kw.len());
    if keyword_at(s, p, kw) && digit_at(s, w) {
        Some((w, digit_run_end(s, w)))
    } else {
        None
    }
}

/// `s`, two or more digits, `e`, two or more digits, starting at `p`.
pub open spec fn se_at(s: Seq<char>, p: int) -> bool {
    let b = digit_run_end(s, p + 1);
    &&& letter_at(s, p, 's')
    &&& b - (p + 1) >= 2
    &&& letter_at(s, b, 'e')
    &&& digit_run_end(s, b + 1) - (b + 1) >= 2
}

/// Digits, `x`, digits, starting at `p`.
pub open spec fn x_at(s: Seq<char>, p: int) -> bool {
    let b = digit_run_end(s, p);
    &&& digit_at(s, p)
    &&& letter_at(s, b, 'x')
    &&& digit_at(s, b + 1)
}

/// Digits, non-word characters, `of`, non-word characters, digits, starting at `p`.
pub open spec fn of_at(s: Seq<char>, p: int) -> bool {
    let w = nonword_run_end(s, digit_run_end(s, p));
    &&& digit_at(s, p)
    &&& letter_at(s, w, 'o')
    &&& letter_at(s, w + 1, 'f')
    &&& digit_at(s, nonword_run_end(s, w + 2))
}

/// Position `e` ends a word (or the text).
pub open spec fn word_ends(s: Seq<char>, e: int) -> bool {
    e >= s.len() || !is_word(s[e])
}

pub open spec fn whole_word_at(s: Seq<char>, k: int, kw: Seq<char>) -> bool {
    keyword_at(s, k, kw) && word_ends(s, k + kw.len())
}

/// A season or episode marker starts a word at `k` and ends one: one of the
/// words collection, series, episode, ep, part, or a token `s<n>e<m>`,
/// `<n>of<m>` or `<n>x<m>`.
pub open spec fn marker_at(s: Seq<char>, k: int) -> bool {
    let d = digit_run_end(s, k);
    let t = digit_run_end(s, k + 1);
    &&& 1 <= k < s.len()
    &&& !is_word(s[k - 1])
    &&& {
        ||| whole_word_at(s, k, "collection"@)
        ||| whole_word_at(s, k, "series"@)
        ||| whole_word_at(s, k, "episode"@)
        ||| whole_word_at(s, k, "ep"@)
        ||| whole_word_at(s, k, "part"@)
        ||| (letter_at(s, k, 's') && digit_at(s, k + 1) && letter_at(s, t, 'e')
            && digit_at(s, t + 1) && word_ends(s, digit_run_end(s, t + 1)))
        ||| (digit_at(s, k) && letter_at(s, d, 'o') && letter_at(s, d + 1, 'f')
            && digit_at(s, d + 2) && word_ends(s, digit_run_end(s, d + 2)))
        ||| (digit_at(s, k) && letter_at(s, d, 'x') && digit_at(s, d + 1) && word_ends(
            s,
            digit_run_end(s, d + 1),
        ))
    }
}

/// The nearest `k >= j` at which a marker starts, with no line break in
/// `s[j - 1..k]`.
pub open spec fn marker_from(s: Seq<char>, j: int) -> Option<int>
    decreases s.len() - j,
{
    if j < 1 || j >= s.len() {
        None
    } else if s[j - 1] == '\n' {
        None
    } else if marker_at(s, j) {
        Some(j)
    } else {
        marker_from(s, j + 1)
    }
}

/// A marker that ends at `e` stands before the extension: `Some(e)`.
pub open spec fn before_extension(s: Seq<char>, e: int) -> Option<int> {
    if has_extension(s) && e <= last_dot(s) {
        Some(e)
    } else {
        None
    }
}

/// The keyword `kw` at `p`, then non-word characters and digits, ending
/// before the extension: where the digits end.
pub open spec fn word_number_end(s: Seq<char>, p: int, kw: Seq<char>) -> Option<int> {
    let w = nonword_run_end(s, p + kw.len());
    if keyword_at(s, p, kw) && digit_at(s, w) {
        before_extension(s, digit_run_end(s, w))
    } else {
        None
    }
}

/// Where the marker that starts at `p` ends, its digit groups taken whole,
/// where it ends before the extension. The alternatives are tried in order:
/// `s<n>e<m>`, `<n>of<m>`, `<n>x<m>`, then ep, episode or part, non-word
/// characters and digits.
pub open spec fn title_marker_end(s: Seq<char>, p: int) -> Option<int> {
    let d = digit_run_end(s, p);
    let t = digit_run_end(s, p + 1);
    let se = if letter_at(s, p, 's') && digit_at(s, p + 1) && letter_at(s, t, 'e') && digit_at(
        s,
        t + 1,
    ) {
        before_extension(s, digit_run_end(s, t + 1))
    } else {
        None
    };
    let of = if digit_at(s, p) && letter_at(s, d, 'o') && letter_at(s, d + 1, 'f') && digit_at(
        s,
        d + 2,
    ) {
        before_extension(s, digit_run_end(s, d + 2))
    } else {
        None
    };
    let x = if digit_at(s, p) && letter_at(s, d, 'x') && digit_at(s, d + 1) {
        before_extension(s, digit_run_end(s, d + 1))
    } else {
        None
    };
    or_else(
        se,
        or_else(
            of,
            or_else(
                x,
                or_else(
                    word_number_end(s, p, "ep"@),
                    or_else(
                        word_number_end(s, p, "episode"@),
                        word_number_end(s, p, "part"@),
                    ),
                ),
            ),
        ),
    )
}

/// The detectors that the cascades are made of.
#[derive(Clone, Copy)]
pub enum Detector {
    /// Digits after season, series or collection.
    SeasonByName,
    /// The first digits of `s<n>e<m>`.
    SeasonBySe,
    /// The first digits of `<n>x<m>`.
    SeasonByX,
    /// The first digits of `<n> of <m>`.
    EpisodeByOf,
    /// The last digits of `s<n>e<m>`.
    EpisodeBySe,
    /// The last digits of `<n>x<m>`.
    EpisodeByX,
    /// Digits after episode, ep or part.
    EpisodeByName,
    /// Everything before the first marker.
    ShowName,
    /// Everything between a marker and the extension.
    EpisodeTitle,
}

/// The span that detector `d` captures when its match starts at `p`.
pub open spec fn capture_at(d: Detector, s: Seq<char>, p: int) -> Option<(int, int)> {
    match d {
        Detector::SeasonByName => or_else(
            number_after(s, p, "season"@),
            or_else(number_after(s, p, "series"@), number_after(s, p, "collection"@)),
        ),
        Detector::SeasonBySe => if se_at(s, p) {
            Some((p + 1, digit_run_end(s, p + 1)))
        } else {
            None
        },
        Detector::SeasonByX => if x_at(s, p) {
            Some((p, digit_run_end(s, p)))
        } else {
            None
        },
        Detector::EpisodeByOf => if of_at(s, p) {
            Some((p, digit_run_end(s, p)))
        } else {
            None
        },
        Detector::EpisodeBySe => if se_at(s, p) {
            let b = digit_run_end(s, p + 1);
            Some((b + 1, digit_run_end(s, b + 1)))
        } else {
            None
        },
        Detector::EpisodeByX => if x_at(s, p) {
            let b = digit_run_end(s, p);
            Some((b + 1, digit_run_end(s, b + 1)))
        } else {
            None
        },
        Detector::EpisodeByName => or_else(
            number_after(s, p, "episode"@),
            or_else(number_after(s, p, "ep"@), number_after(s, p, "part"@)),
        ),
        Detector::ShowName => match marker_from(s, p + 1) {
            Some(k) => Some((p, k)),
            None => None,
        },
        Detector::EpisodeTitle => match title_marker_end(s, p) {
            Some(e) => Some((e, last_dot(s))),
            None => None,
        },
    }
}

/// The capture of detector `d` at the first position `>= p` where it matches.
pub open spec fn first_capture(d: Detector, s: Seq<char>, p: int) -> Option<(int, int)>
    decreases s.len() - p,
{
    if 0 <= p < s.len() {
        if capture_at(d, s, p) is Some {
            capture_at(d, s, p)
        } else {
            first_capture(d, s, p + 1)
        }
    } else {
        None
    }
}

/// The capture of detector `d` at its leftmost match in `s`.
pub open spec fn find(d: Detector, s: Seq<char>) -> Option<(int, int)> {
    first_capture(d, s, 0)
}


/// The value of a string of decimal digits.
pub open spec fn decimal_value(ds: Seq<char>) -> nat
    decreases ds.len(),
{
    if ds.len() == 0 {
        0
    } else {
        10 * decimal_value(ds.drop_last()) + ((ds.last() as u32) - ('0' as u32)) as nat
    }
}

/// The captured digits as a `u32`; nothing where the value does not fit.
pub open spec fn number_in(s: Seq<char>, span: Option<(int, int)>) -> Option<u32> {
    match span {
        Some((a, b)) => if decimal_value(s.subrange(a, b)) <= u32::MAX {
            Some(decimal_value(s.subrange(a, b)) as u32)
        } else {
            None
        },
        None => None,
    }
}

/// The season: digits after season, series or collection; else the first
/// digits of `s<n>e<m>`; else the first digits of `<n>x<m>`.
pub open spec fn season_number_of(s: Seq<char>) -> Option<u32> {
    number_in(
        s,
        or_else(
            find(Detector::SeasonByName, s),
            or_else(find(Detector::SeasonBySe, s), find(Detector::SeasonByX, s)),
        ),
    )
}

/// The episode: the first digits of `<n> of <m>`; else the last digits of
/// `s<n>e<m>`; else the last digits of `<n>x<m>`; else digits after episode,
/// ep or part.
pub open spec fn episode_number_of(s: Seq<char>) -> Option<u32> {
    number_in(
        s,
        or_else(
            find(Detector::EpisodeByOf, s),
            or_else(
                find(Detector::EpisodeBySe, s),
                or_else(find(Detector::EpisodeByX, s), find(Detector::EpisodeByName, s)),
            ),
        ),
    )
}

/// The show name: the text before the first marker.
pub open spec fn show_name_of(s: Seq<char>) -> Option<Seq<char>> {
    match find(Detector::ShowName, s) {
        Some((a, b)) => Some(s.subrange(a, b)),
        None => None,
    }
}

/// The episode title: the text between the first marker and the `.` of the
/// extension; empty where there is no marker before the extension.
pub open spec fn episode_title_of(s: Seq<char>) -> Seq<char> {
    match find(Detector::EpisodeTitle, s) {
        Some((a, b)) => s.subrange(a, b),
        None => Seq::empty(),
    }
}

/// The extension: the text after the last `.`; none where the name has no
/// `.` or nothing follows its last one.
pub open spec fn extension_of(s: Seq<char>) -> Option<Seq<char>> {
    if has_extension(s) {
        Some(s.subrange(last_dot(s) + 1, s.len() as int))
    } else {
        None
    }
}

pub open spec fn span_of(r: Option<(usize, usize)>) -> Option<(int, int)> {
    match r {
        Some((a, b)) => Some((a as int, b as int)),
        None => None,
    }
}

pub open spec fn pos_of(r: Option<usize>) -> Option<int> {
    match r {
        Some(k) => Some(k as int),
        None => None,
    }
}

pub open spec fn digits_between(s: Seq<char>, a: int, b: int) -> bool {
    forall|i: int| a <= i < b ==> is_digit(#[trigger] s[i])
}

pub open spec fn captures_number(d: Detector) -> bool {
    !(d is ShowName || d is EpisodeTitle)
}

fn scan_digits(s: &Vec<char>, i: usize) -> (r: usize)
    requires
        i <= s@.len(),
    ensures
        r == digit_run_end(s@, i as int),
        i <= r <= s@.len(),
        digits_between(s@, i as int, r as int),
{
    let mut j = i;
    while j < s.len() && digit(s[j])
        invariant
            i <= j <= s@.len(),
            digit_run_end(s@, i as int) == digit_run_end(s@, j as int),
            digits_between(s@, i as int, j as int),
        decreases s@.len() - j,
    {
        j += 1;
    }
    j
}

fn scan_nonword(s: &Vec<char>, i: usize) -> (r: usize)
    requires
        i <= s@.len(),
    ensures
        r == nonword_run_end(s@, i as int),
        i <= r <= s@.len(),
{
    let mut j = i;
    while j < s.len() && !word(s[j])
        invariant
            i <= j <= s@.len(),
            nonword_run_end(s@, i as int) == nonword_run_end(s@, j as int),
        decreases s@.len() - j,
    {
        j += 1;
    }
    j
}

fn digit_is(s: &Vec<char>, i: usize) -> (r: bool)
    ensures
        r == digit_at(s@, i as int),
{
    i < s.len() && digit(s[i])
}

fn letter_is(s: &Vec<char>, i: usize, k: char) -> (r: bool)
    ensures
        r == letter_at(s@, i as int, k),
{
    i < s.len() && same_letter(s[i], k)
}

fn match_keyword(s: &Vec<char>, p: usize, kw: &str) -> (r: bool)
    requires
        p <= s@.len(),
    ensures
        r == keyword_at(s@, p as int, kw@),
{
    let n = kw.unicode_len();
    if n > s.len() - p {
        return false;
    }
    let mut j: usize = 0;
    while j < n
        invariant
            n == kw@.len(),
            p + n <= s@.len() <= usize::MAX,
            j <= n,
            forall|t: int| 0 <= t < j ==> ci_eq(#[trigger] s@[p + t], kw@[t]),
        decreases n - j,
    {
        if !same_letter(s[p + j], kw.get_char(j)) {
            return false;
        }
        j += 1;
    }
    true
}

fn try_number_after(s: &Vec<char>, p: usize, kw: &str) -> (r: Option<(usize, usize)>)
    requires
        s@.len() <= usize::MAX,
        p <= s@.len(),
    ensures
        span_of(r) == number_after(s@, p as int, kw@),
        r matches Some((a, b)) ==> a <= b <= s@.len() && digits_between(s@, a as int, b as int),
{
    if !match_keyword(s, p, kw) {
        return None;
    }
    let w = scan_nonword(s, p + kw.unicode_len());
    if digit_is(s, w) {
        Some((w, scan_digits(s, w)))
    } else {
        None
    }
}


fn test_se(s: &Vec<char>, p: usize) -> (r: bool)
    requires
        s@.len() <= usize::MAX,
        p < s@.len(),
    ensures
        r == se_at(s@, p as int),
{
    if !same_letter(s[p], 's') {
        return false;
    }
    let b = scan_digits(s, p + 1);
    if b - (p + 1) < 2 || !letter_is(s, b, 'e') {
        return false;
    }
    let t = scan_digits(s, b + 1);
    t - (b + 1) >= 2
}

fn test_x(s: &Vec<char>, p: usize) -> (r: bool)
    requires
        s@.len() <= usize::MAX,
        p < s@.len(),
    ensures
        r == x_at(s@, p as int),
{
    if !digit(s[p]) {
        return false;
    }
    let b = scan_digits(s, p);
    letter_is(s, b, 'x') && digit_is(s, b + 1)
}

fn test_of(s: &Vec<char>, p: usize) -> (r: bool)
    requires
        s@.len() <= usize::MAX,
        p < s@.len(),
    ensures
        r == of_at(s@, p as int),
{
    if !digit(s[p]) {
        return false;
    }
    let w = scan_nonword(s, scan_digits(s, p));
    if !(letter_is(s, w, 'o') && letter_is(s, w + 1, 'f')) {
        return false;
    }
    digit_is(s, scan_nonword(s, w + 2))
}

fn ends_word(s: &Vec<char>, e: usize) -> (r: bool)
    ensures
        r == word_ends(s@, e as int),
{
    e >= s.len() || !word(s[e])
}

fn test_whole_word(s: &Vec<char>, k: usize, kw: &str) -> (r: bool)
    requires
        s@.len() <= usize::MAX,
        k <= s@.len(),
    ensures
        r == whole_word_at(s@, k as int, kw@),
{
    match_keyword(s, k, kw) && ends_word(s, k + kw.unicode_len())
}

fn test_marker(s: &Vec<char>, k: usize) -> (r: bool)
    ensures
        r == marker_at(s@, k as int),
{
    if k < 1 || k >= s.len() || word(s[k - 1]) {
        return false;
    }
    if test_whole_word(s, k, "collection") || test_whole_word(s, k, "series") || test_whole_word(
        s,
        k,
        "episode",
    ) || test_whole_word(s, k, "ep") || test_whole_word(s, k, "part") {
        return true;
    }
    if same_letter(s[k], 's') && digit_is(s, k + 1) {
        let t = scan_digits(s, k + 1);
        if letter_is(s, t, 'e') && digit_is(s, t + 1) && ends_word(s, scan_digits(s, t + 1)) {
            return true;
        }
    }
    if digit(s[k]) {
        let d = scan_digits(s, k);
        if letter_is(s, d, 'o') && letter_is(s, d + 1, 'f') && digit_is(s, d + 2) && ends_word(
            s,
            scan_digits(s, d + 2),
        ) {
            return true;
        }
        if letter_is(s, d, 'x') && digit_is(s, d + 1) && ends_word(s, scan_digits(s, d + 1)) {
            return true;
        }
    }
    false
}

fn scan_marker_from(s: &Vec<char>, j: usize) -> (r: Option<usize>)
    requires
        j >= 1,
    ensures
        pos_of(r) == marker_from(s@, j as int),
        r matches Some(k) ==> j <= k < s@.len(),
{
    let mut k = j;
    while k < s.len()
        invariant
            1 <= j <= k,
            marker_from(s@, j as int) == marker_from(s@, k as int),
        decreases s@.len() - k,
    {
        if s[k - 1] == '\n' {
            return None;
        }
        if test_marker(s, k) {
            return Some(k);
        }
        k += 1;
    }
    None
}

/// The position of the last `.`, where something follows it.
fn find_extension_dot(s: &Vec<char>) -> (r: Option<usize>)
    ensures
        r is Some == has_extension(s@),
        r matches Some(d) ==> d == last_dot(s@),
{
    let n = s.len();
    let mut a = n;
    while a > 0 && s[a - 1] != '.'
        invariant
            a <= n == s@.len(),
            last_dot(s@) == last_dot_before(s@, a as int),
        decreases a,
    {
        a -= 1;
    }
    if a > 0 && a < n {
        Some(a - 1)
    } else {
        None
    }
}

fn test_before_extension(s: &Vec<char>, e: usize, dot: Option<usize>) -> (r: Option<usize>)
    requires
        dot is Some == has_extension(s@),
        dot matches Some(d) ==> d == last_dot(s@),
    ensures
        pos_of(r) == before_extension(s@, e as int),
        r matches Some(k) ==> k <= last_dot(s@),
{
    match dot {
        Some(d) => if e <= d {
            Some(e)
        } else {
            None
        },
        None => None,
    }
}

fn scan_word_number_end(s: &Vec<char>, p: usize, kw: &str, dot: Option<usize>) -> (r: Option<usize>)
    requires
        s@.len() <= usize::MAX,
        p <= s@.len(),
        dot is Some == has_extension(s@),
        dot matches Some(d) ==> d == last_dot(s@),
    ensures
        pos_of(r) == word_number_end(s@, p as int, kw@),
        r matches Some(k) ==> k <= last_dot(s@),
{
    if !match_keyword(s, p, kw) {
        return None;
    }
    let w = scan_nonword(s, p + kw.unicode_len());
    if digit_is(s, w) {
        test_before_extension(s, scan_digits(s, w), dot)
    } else {
        None
    }
}

fn scan_title_marker_end(s: &Vec<char>, p: usize, dot: Option<usize>) -> (r: Option<usize>)
    requires
        s@.len() <= usize::MAX,
        p < s@.len(),
        dot is Some == has_extension(s@),
        dot matches Some(d) ==> d == last_dot(s@),
    ensures
        pos_of(r) == title_marker_end(s@, p as int),
        r matches Some(k) ==> k <= last_dot(s@),
{
    if same_letter(s[p], 's') && digit_is(s, p + 1) {
        let t = scan_digits(s, p + 1);
        if letter_is(s, t, 'e') && digit_is(s, t + 1) {
            let r = test_before_extension(s, scan_digits(s, t + 1), dot);
            if r.is_some() {
                return r;
            }
        }
    }
    if digit(s[p]) {
        let d = scan_digits(s, p);
        if letter_is(s, d, 'o') && letter_is(s, d + 1, 'f') && digit_is(s, d + 2) {
            let r = test_before_extension(s, scan_digits(s, d + 2), dot);
            if r.is_some() {
                return r;
            }
        }
        if letter_is(s, d, 'x') && digit_is(s, d + 1) {
            let r = test_before_extension(s, scan_digits(s, d + 1), dot);
            if r.is_some() {
                return r;
            }
        }
    }
    let r = scan_word_number_end(s, p, "ep", dot);
    if r.is_some() {
        return r;
    }
    let r = scan_word_number_end(s, p, "episode", dot);
    if r.is_some() {
        return r;
    }
    scan_word_number_end(s, p, "part", dot)
}

fn try_capture_at(d: Detector, s: &Vec<char>, p: usize, dot: Option<usize>) -> (r: Option<
    (usize, usize),
>)
    requires
        s@.len() <= usize::MAX,
        p < s@.len(),
        dot is Some == has_extension(s@),
        dot matches Some(t) ==> t == last_dot(s@),
    ensures
        span_of(r) == capture_at(d, s@, p as int),
        r matches Some((a, b)) ==> a <= b <= s@.len(),
        captures_number(d) ==> (r matches Some((a, b)) ==> digits_between(s@, a as int, b as int)),
{
    match d {
        Detector::SeasonByName => {
            let r = try_number_after(s, p, "season");
            if r.is_some() {
                return r;
            }
            let r = try_number_after(s, p, "series");
            if r.is_some() {
                return r;
            }
            try_number_after(s, p, "collection")
        },
        Detector::SeasonBySe => {
            if test_se(s, p) {
                Some((p + 1, scan_digits(s, p + 1)))
            } else {
                None
            }
        },
        Detector::SeasonByX => {
            if test_x(s, p) {
                Some((p, scan_digits(s, p)))
            } else {
                None
            }
        },
        Detector::EpisodeByOf => {
            if test_of(s, p) {
                Some((p, scan_digits(s, p)))
            } else {
                None
            }
        },
        Detector::EpisodeBySe => {
            if test_se(s, p) {
                let b = scan_digits(s, p + 1);
                Some((b + 1, scan_digits(s, b + 1)))
            } else {
                None
            }
        },
        Detector::EpisodeByX => {
            if test_x(s, p) {
                let b = scan_digits(s, p);
                Some((b + 1, scan_digits(s, b + 1)))
            } else {
                None
            }
        },
        Detector::EpisodeByName => {
            let r = try_number_after(s, p, "episode");
            if r.is_some() {
                return r;
            }
            let r = try_number_after(s, p, "ep");
            if r.is_some() {
                return r;
            }
            try_number_after(s, p, "part")
        },
        Detector::ShowName => match scan_marker_from(s, p + 1) {
            Some(k) => Some((p, k)),
            None => None,
        },
        Detector::EpisodeTitle => match scan_title_marker_end(s, p, dot) {
            Some(e) => match dot {
                Some(t) => Some((e, t)),
                None => None,
            },
            None => None,
        },
    }
}

/// The capture of detector `d` at its leftmost match.
fn find_first(d: Detector, s: &Vec<char>) -> (r: Option<(usize, usize)>)
    ensures
        span_of(r) == find(d, s@),
        r matches Some((a, b)) ==> a <= b <= s@.len(),
        captures_number(d) ==> (r matches Some((a, b)) ==> digits_between(s@, a as int, b as int)),
{
    let dot = find_extension_dot(s);
    let n = s.len();
    let mut p: usize = 0;
    while p < n
        invariant
            p <= n == s@.len(),
            find(d, s@) == first_capture(d, s@, p as int),
            dot is Some == has_extension(s@),
            dot matches Some(t) ==> t == last_dot(s@),
        decreases n - p,
    {
        let r = try_capture_at(d, s, p, dot);
        if r.is_some() {
            return r;
        }
        p += 1;
    }
    None
}

proof fn lemma_decimal_prefix(ds: Seq<char>, i: int)
    requires
        0 <= i < ds.len(),
    ensures
        decimal_value(ds.subrange(0, i + 1)) == 10 * decimal_value(ds.subrange(0, i)) + ((
        ds[i] as u32) - ('0' as u32)) as nat,
{
    assert(ds.subrange(0, i + 1).drop_last() =~= ds.subrange(0, i));
}

proof fn lemma_decimal_grows(ds: Seq<char>, i: int)
    requires
        0 <= i <= ds.len(),
        forall|k: int| 0 <= k < ds.len() ==> is_digit(#[trigger] ds[k]),
    ensures
        decimal_value(ds.subrange(0, i)) <= decimal_value(ds),
    decreases ds.len() - i,
{
    if i < ds.len() {
        lemma_decimal_prefix(ds, i);
        lemma_decimal_grows(ds, i + 1);
    } else {
        assert(ds.subrange(0, i) =~= ds);
    }
}

/// Reads the digits `s[a..b]` as a `u32`.
fn parse_digits(s: &Vec<char>, a: usize, b: usize) -> (r: Option<u32>)
    requires
        a <= b <= s@.len(),
        digits_between(s@, a as int, b as int),
    ensures
        r == number_in(s@, Some((a as int, b as int))),
{
    let ghost t = s@.subrange(a as int, b as int);
    assert(t.subrange(0, 0) =~= Seq::<char>::empty());
    let mut v: u64 = 0;
    let mut i = a;
    while i < b
        invariant
            a <= i <= b <= s@.len(),
            t == s@.subrange(a as int, b as int),
            digits_between(s@, a as int, b as int),
            v == decimal_value(t.subrange(0, i - a)),
            v <= u32::MAX,
        decreases b - i,
    {
        let c = s[i];
        proof {
            lemma_decimal_prefix(t, i - a);
        }
        v = v * 10 + ((c as u32) - ('0' as u32)) as u64;
        i += 1;
        if v > u32::MAX as u64 {
            proof {
                lemma_decimal_grows(t, i - a);
            }
            return None;
        }
    }
    assert(t.subrange(0, b - a) =~= t);
    Some(v as u32)
}

/// The show name: the text before the first season or episode marker.
pub fn parse_show_name(path: &str) -> (r: Option<String>)
    ensures
        r.deep_view() == show_name_of(path@),
{
    let s = chars_of(path);
    match find_first(Detector::ShowName, &s) {
        Some((a, b)) => Some(String::from_str(path.substring_char(a, b))),
        None => None,
    }
}

/// The season number, by the season cascade.
pub fn parse_season_number(path: &str) -> (r: Option<u32>)
    ensures
        r == season_number_of(path@),
{
    let s = chars_of(path);
    let mut caps = find_first(Detector::SeasonByName, &s);
    if caps.is_none() {
        caps = find_first(Detector::SeasonBySe, &s);
    }
    if caps.is_none() {
        caps = find_first(Detector::SeasonByX, &s);
    }
    match caps {
        Some((a, b)) => parse_digits(&s, a, b),
        None => None,
    }
}

/// The episode title; empty where the name has none. Always `Some`.
pub fn parse_episode_name(path: &str) -> (r: Option<String>)
    ensures
        r.deep_view() == Some(episode_title_of(path@)),
{
    let s = chars_of(path);
    match find_first(Detector::EpisodeTitle, &s) {
        Some((a, b)) => Some(String::from_str(path.substring_char(a, b))),
        None => Some(String::new()),
    }
}

/// The episode number, by the episode cascade.
pub fn parse_episode_number(path: &str) -> (r: Option<u32>)
    ensures
        r == episode_number_of(path@),
{
    let s = chars_of(path);
    let mut caps = find_first(Detector::EpisodeByOf, &s);
    if caps.is_none() {
        caps = find_first(Detector::EpisodeBySe, &s);
    }
    if caps.is_none() {
        caps = find_first(Detector::EpisodeByX, &s);
    }
    if caps.is_none() {
        caps = find_first(Detector::EpisodeByName, &s);
    }
    match caps {
        Some((a, b)) => parse_digits(&s, a, b),
        None => None,
    }
}

/// The extension: what follows the last `.`.
pub fn parse_extension(path: &str) -> (r: Option<String>)
    ensures
        r.deep_view() == extension_of(path@),
{
    let s = chars_of(path);
    let n = s.len();
    match find_extension_dot(&s) {
        Some(d) => Some(String::from_str(path.substring_char(d + 1, n))),
        None => None,
    }
}

proof fn lemma_digit_run(s: Seq<char>, i: int, j: int)
    requires
        0 <= i <= j <= s.len(),
        forall|k: int| i <= k < j ==> is_digit(#[trigger] s[k]),
        j == s.len() || !is_digit(s[j]),
    ensures
        digit_run_end(s, i) == j,
    decreases j - i,
{
    if i < j {
        lemma_digit_run(s, i + 1, j);
    }
}

proof fn lemma_skip_to(d: Detector, s: Seq<char>, a: int, p: int)
    requires
        0 <= a <= p <= s.len(),
        forall|q: int| a <= q < p ==> capture_at(d, s, q) is None,
    ensures
        first_capture(d, s, a) == first_capture(d, s, p),
    decreases p - a,
{
    if a < p {
        lemma_skip_to(d, s, a + 1, p);
    }
}

/// A file name made of text without digits, an `s<n>e<m>` token whose numbers
/// have two digits or more, and text that does not start with a digit gives
/// season `n` and episode `m`, where no season word comes first in the season
/// cascade and no `<n> of <m>` pattern in the episode cascade.
#[verifier::rlimit(50)]
pub proof fn lemma_se_token_numbers(
    pre: Seq<char>,
    s_char: char,
    n: Seq<char>,
    e_char: char,
    m: Seq<char>,
    post: Seq<char>,
)
    requires
        forall|k: int| 0 <= k < pre.len() ==> !is_digit(#[trigger] pre[k]),
        ci_eq(s_char, 's'),
        ci_eq(e_char, 'e'),
        n.len() >= 2,
        m.len() >= 2,
        forall|k: int| 0 <= k < n.len() ==> is_digit(#[trigger] n[k]),
        forall|k: int| 0 <= k < m.len() ==> is_digit(#[trigger] m[k]),
        post.len() == 0 || !is_digit(post[0]),
        decimal_value(n) <= u32::MAX,
        decimal_value(m) <= u32::MAX,
        find(Detector::SeasonByName, pre + seq![s_char] + n + seq![e_char] + m + post) is None,
        find(Detector::EpisodeByOf, pre + seq![s_char] + n + seq![e_char] + m + post) is None,
    ensures
        season_number_of(pre + seq![s_char] + n + seq![e_char] + m + post) == Some(
            decimal_value(n) as u32,
        ),
        episode_number_of(pre + seq![s_char] + n + seq![e_char] + m + post) == Some(
            decimal_value(m) as u32,
        ),
{
    let s = pre + seq![s_char] + n + seq![e_char] + m + post;
    let p = pre.len() as int;
    let b = p + 1 + n.len();
    let c = b + 1 + m.len();
    assert(s[p] == s_char);
    assert(s[b] == e_char);
    assert forall|k: int| p + 1 <= k < b implies is_digit(#[trigger] s[k]) by {
        assert(s[k] == n[k - p - 1]);
    }
    assert forall|k: int| b + 1 <= k < c implies is_digit(#[trigger] s[k]) by {
        assert(s[k] == m[k - b - 1]);
    }
    if c < s.len() {
        assert(s[c] == post[0]);
    }
    lemma_digit_run(s, p + 1, b);
    lemma_digit_run(s, b + 1, c);
    assert forall|q: int| 0 <= q < p implies !se_at(s, q) by {
        if q + 1 < p {
            assert(s[q + 1] == pre[q + 1]);
        }
        assert(!is_digit(s[q + 1]));
        lemma_digit_run(s, q + 1, q + 1);
    }
    lemma_skip_to(Detector::SeasonBySe, s, 0, p);
    lemma_skip_to(Detector::EpisodeBySe, s, 0, p);
    assert(se_at(s, p));
    assert(s.subrange(p + 1, b) =~= n);
    assert(s.subrange(b + 1, c) =~= m);
}

/// A file name made of text without digits, an `<n>x<m>` token and text that
/// does not start with a digit gives season `n` and episode `m`, where no
/// season word and no `s<n>e<m>` token come first in the season cascade, and
/// no `<n> of <m>` pattern and no `s<n>e<m>` token in the episode cascade.
#[verifier::rlimit(50)]
pub proof fn lemma_x_token_numbers(
    pre: Seq<char>,
    n: Seq<char>,
    x_char: char,
    m: Seq<char>,
    post: Seq<char>,
)
    requires
        forall|k: int| 0 <= k < pre.len() ==> !is_digit(#[trigger] pre[k]),
        ci_eq(x_char, 'x'),
        n.len() >= 1,
        m.len() >= 1,
        forall|k: int| 0 <= k < n.len() ==> is_digit(#[trigger] n[k]),
        forall|k: int| 0 <= k < m.len() ==> is_digit(#[trigger] m[k]),
        post.len() == 0 || !is_digit(post[0]),
        decimal_value(n) <= u32::MAX,
        decimal_value(m) <= u32::MAX,
        find(Detector::SeasonByName, pre + n + seq![x_char] + m + post) is None,
        find(Detector::SeasonBySe, pre + n + seq![x_char] + m + post) is None,
        find(Detector::EpisodeByOf, pre + n + seq![x_char] + m + post) is None,
        find(Detector::EpisodeBySe, pre + n + seq![x_char] + m + post) is None,
    ensures
        season_number_of(pre + n + seq![x_char] + m + post) == Some(decimal_value(n) as u32),
        episode_number_of(pre + n + seq![x_char] + m + post) == Some(decimal_value(m) as u32),
{
    let s = pre + n + seq![x_char] + m + post;
    let p = pre.len() as int;
    let b = p + n.len();
    let c = b + 1 + m.len();
    assert(s[b] == x_char);
    assert forall|k: int| p <= k < b implies is_digit(#[trigger] s[k]) by {
        assert(s[k] == n[k - p]);
    }
    assert forall|k: int| b + 1 <= k < c implies is_digit(#[trigger] s[k]) by {
        assert(s[k] == m[k - b - 1]);
    }
    if c < s.len() {
        assert(s[c] == post[0]);
    }
    lemma_digit_run(s, p, b);
    lemma_digit_run(s, b + 1, c);
    assert forall|q: int| 0 <= q < p implies !x_at(s, q) by {
        assert(s[q] == pre[q]);
    }
    lemma_skip_to(Detector::SeasonByX, s, 0, p);
    lemma_skip_to(Detector::EpisodeByX, s, 0, p);
    assert(x_at(s, p));
    assert(s.subrange(p, b) =~= n);
    assert(s.subrange(b + 1, c) =~= m);
}

} // verus!
