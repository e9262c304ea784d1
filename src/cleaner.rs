//! Cleaning captured text: lower case, literal removal of noise tokens,
//! then title case.
use vstd::prelude::*;
use crate::chars::{chars_of, is_alnum, is_letter};

verus! {

/// What `str::to_lowercase` gives for a text.
pub uninterp spec fn lower_of(s: Seq<char>) -> Seq<char>;

/// What inflector's `to_title_case` gives for a text.
pub uninterp spec fn title_case_of(s: Seq<char>) -> Seq<char>;

/// A character with the Unicode White_Space property.
pub open spec fn is_white_space(c: char) -> bool {
    let u = c as u32;
    ||| 0x09 <= u <= 0x0D
    ||| u == 0x20
    ||| u == 0x85
    ||| u == 0xA0
    ||| u == 0x1680
    ||| 0x2000 <= u <= 0x200A
    ||| u == 0x2028
    ||| u == 0x2029
    ||| u == 0x202F
    ||| u == 0x205F
    ||| u == 0x3000
}

pub open spec fn trim_start(s: Seq<char>) -> Seq<char>
    decreases s.len(),
{
    if s.len() > 0 && is_white_space(s[0]) {
        trim_start(s.drop_first())
    } else {
        s
    }
}

pub open spec fn trim_end(s: Seq<char>) -> Seq<char>
    decreases s.len(),
{
    if s.len() > 0 && is_white_space(s.last()) {
        trim_end(s.drop_last())
    } else {
        s
    }
}

/// The text without leading and trailing white space.
pub open spec fn trimmed(s: Seq<char>) -> Seq<char> {
    trim_end(trim_start(s))
}

/// The shape of a title-cased text, as far as ASCII goes: its ASCII
/// characters are letters, digits and spaces; no space leads, trails or
/// follows another; an ASCII letter that starts the text or follows a space
/// is upper case, and one that follows an ASCII letter is lower case.
pub open spec fn title_shaped(t: Seq<char>) -> bool {
    &&& forall|i: int|
        0 <= i < t.len() && (t[i] as u32) < 128 ==> is_alnum(#[trigger] t[i]) || t[i] == ' '
    &&& t.len() > 0 ==> t[0] != ' ' && t.last() != ' '
    &&& forall|i: int| 0 <= i < t.len() - 1 ==> !(#[trigger] t[i] == ' ' && t[i + 1] == ' ')
    &&& forall|i: int|
        0 <= i < t.len() && is_letter(#[trigger] t[i]) && (i == 0 || t[i - 1] == ' ') ==> 'A'
            <= t[i] <= 'Z'
    &&& forall|i: int|
        0 < i < t.len() && is_letter(#[trigger] t[i]) && is_letter(t[i - 1]) ==> 'a' <= t[i]
            <= 'z'
}

/// Relies on `str::to_lowercase`: the Unicode lower case of the text, which
/// depends on the text alone; an empty text stays empty.
#[verifier::external_body]
fn lowercase(s: &str) -> (r: String)
    ensures
        r@ == lower_of(s@),
        s@.len() == 0 ==> r@.len() == 0,
{
    s.to_lowercase()
}

/// Relies on inflector's `to_title_case`: words split at separators and case
/// changes, each capitalised, joined by single spaces; it depends on the text
/// alone, and an empty text stays empty. It pushes only alphanumeric
/// characters, with ASCII case set, and a space before each word but the first.
#[verifier::external_body]
fn title_case(s: &Vec<char>) -> (r: String)
    ensures
        r@ == title_case_of(s@),
        s@.len() == 0 ==> r@.len() == 0,
        title_shaped(r@),
{
    let text: String = s.iter().collect();
    inflector::cases::titlecase::to_title_case(&text)
}

/// Relies on `str::trim`: the text without leading and trailing characters
/// of the Unicode White_Space property.
#[verifier::external_body]
fn trim(s: &Vec<char>) -> (r: String)
    ensures
        r@ == trimmed(s@),
{
    let text: String = s.iter().collect();
    text.trim().to_string()
}

/// `s` with every occurrence of `pat` removed, scanning from the left without
/// overlap, as `str::replace(pat, "")` does. An empty `pat` removes nothing.
pub open spec fn remove_all(s: Seq<char>, pat: Seq<char>) -> Seq<char>
    decreases s.len(),
{
    if pat.len() == 0 || s.len() < pat.len() {
        s
    } else if s.subrange(0, pat.len() as int) == pat {
        remove_all(s.subrange(pat.len() as int, s.len() as int), pat)
    } else {
        seq![s[0]] + remove_all(s.subrange(1, s.len() as int), pat)
    }
}

/// `s` with each rule removed in turn, first rule first.
pub open spec fn remove_rules(s: Seq<char>, rules: Seq<Seq<char>>) -> Seq<char>
    decreases rules.len(),
{
    if rules.len() == 0 {
        s
    } else {
        remove_all(remove_rules(s, rules.drop_last()), rules.last())
    }
}

/// What cleaning `text` with `rules` gives.
pub open spec fn cleaned(rules: Seq<Seq<char>>, text: Seq<char>) -> Seq<char> {
    title_case_of(remove_rules(lower_of(text), rules))
}

/// `pat` occurs in `s` at `i`.
pub open spec fn occurs_at(s: Seq<char>, pat: Seq<char>, i: int) -> bool {
    0 <= i && i + pat.len() <= s.len() && s.subrange(i, i + pat.len()) == pat
}

pub open spec fn occurs(s: Seq<char>, pat: Seq<char>) -> bool {
    exists|i: int| occurs_at(s, pat, i)
}

/// The lines of `s`: the pieces between `\n` characters, as `str::split('\n')`
/// gives them (an empty text is one empty line).
pub open spec fn lines_of(s: Seq<char>) -> Seq<Seq<char>>
    decreases s.len(),
{
    if s.len() == 0 {
        seq![Seq::empty()]
    } else if s.last() == '\n' {
        lines_of(s.drop_last()).push(Seq::empty())
    } else {
        let prev = lines_of(s.drop_last());
        prev.update(prev.len() - 1, prev.last().push(s.last()))
    }
}

/// The lines, each trimmed, without those that are left empty.
pub open spec fn kept_rules(lines: Seq<Seq<char>>) -> Seq<Seq<char>>
    decreases lines.len(),
{
    if lines.len() == 0 {
        Seq::empty()
    } else if trimmed(lines.last()).len() == 0 {
        kept_rules(lines.drop_last())
    } else {
        kept_rules(lines.drop_last()).push(trimmed(lines.last()))
    }
}

/// The rules that a rules file holds: its lower-case text split into lines,
/// each line trimmed; blank lines are left out.
pub open spec fn rules_of(contents: Seq<char>) -> Seq<Seq<char>> {
    kept_rules(lines_of(lower_of(contents)))
}

pub open spec fn views_of(v: Seq<String>) -> Seq<Seq<char>> {
    v.map_values(|r: String| r@)
}

proof fn lemma_lines_nonempty(s: Seq<char>)
    ensures
        lines_of(s).len() >= 1,
    decreases s.len(),
{
    if s.len() > 0 {
        lemma_lines_nonempty(s.drop_last());
    }
}

fn same_at(s: &Vec<char>, i: usize, pat: &Vec<char>) -> (r: bool)
    requires
        i + pat@.len() <= s@.len(),
    ensures
        r == (s@.subrange(i as int, i + pat@.len()) == pat@),
{
    let n = s.len();
    let mut j: usize = 0;
    while j < pat.len()
        invariant
            i + pat@.len() <= s@.len() == n,
            j <= pat@.len(),
            forall|t: int| 0 <= t < j ==> s@[i + t] == pat@[t],
        decreases pat@.len() - j,
    {
        if s[i + j] != pat[j] {
            assert(s@.subrange(i as int, i + pat@.len())[j as int] != pat@[j as int]);
            return false;
        }
        j += 1;
    }
    assert(s@.subrange(i as int, i + pat@.len()) =~= pat@);
    true
}

fn remove_each(s: &Vec<char>, pat: &Vec<char>) -> (r: Vec<char>)
    ensures
        r@ == remove_all(s@, pat@),
{
    let n = s.len();
    let m = pat.len();
    let mut out: Vec<char> = Vec::new();
    let mut i: usize = 0;
    assert(s@.subrange(0, n as int) =~= s@);
    while i < n
        invariant
            n == s@.len(),
            m == pat@.len(),
            i <= n,
            out@ + remove_all(s@.subrange(i as int, n as int), pat@) == remove_all(s@, pat@),
        decreases n - i,
    {
        let ghost rest = s@.subrange(i as int, n as int);
        if m > 0 && m <= n - i && same_at(s, i, pat) {
            assert(rest.subrange(0, m as int) =~= s@.subrange(i as int, i + m));
            assert(rest.subrange(m as int, rest.len() as int) =~= s@.subrange(i + m, n as int));
            i += m;
        } else {
            assert(rest.subrange(1, rest.len() as int) =~= s@.subrange(i + 1, n as int));
            if m > 0 && m <= n - i {
                assert(rest.subrange(0, m as int) =~= s@.subrange(i as int, i + m));
            } else {
                assert(remove_all(rest, pat@) == rest);
                assert(remove_all(rest.subrange(1, rest.len() as int), pat@) == rest.subrange(
                    1,
                    rest.len() as int,
                ));
                assert(rest =~= seq![rest[0]] + rest.subrange(1, rest.len() as int));
            }
            out.push(s[i]);
            assert(out@ + remove_all(s@.subrange(i + 1, n as int), pat@) =~= remove_all(s@, pat@));
            i += 1;
        }
    }
    assert(s@.subrange(n as int, n as int) =~= Seq::<char>::empty());
    assert(out@ + Seq::<char>::empty() =~= out@);
    out
}

/// Cleans strings: removes the noise tokens of a rules list, then formats
/// the rest in title case.
pub struct Cleaner {
    pub rules: Vec<String>,
}

impl Cleaner {
    /// The rules, in order.
    pub open spec fn rules_view(&self) -> Seq<Seq<char>> {
        views_of(self.rules@)
    }

    /// A cleaner with the given rules, as given.
    pub fn new(rules: Vec<&str>) -> (r: Cleaner)
        ensures
            r.rules_view() == rules@.map_values(|s: &str| s@),
    {
        let mut v: Vec<String> = Vec::new();
        let mut i: usize = 0;
        while i < rules.len()
            invariant
                i <= rules@.len(),
                v@.len() == i,
                forall|k: int| 0 <= k < i ==> (#[trigger] v@[k])@ == rules@[k]@,
            decreases rules@.len() - i,
        {
            v.push(String::from_str(rules[i]));
            i += 1;
        }
        assert(views_of(v@) =~= rules@.map_values(|s: &str| s@));
        Cleaner { rules: v }
    }

    /// A cleaner with the rules that the text of a rules file gives.
    pub fn load(contents: &str) -> (r: Cleaner)
        ensures
            r.rules_view() == rules_of(contents@),
    {
        Cleaner { rules: parse_rules(contents) }
    }

    /// Cleans `text`: lower case, every rule removed in order, title case.
    pub fn clean(&self, text: &str) -> (r: String)
        ensures
            r@ == cleaned(self.rules_view(), text@),
            title_shaped(r@),
    {
        let lower = lowercase(text);
        let mut working = chars_of(lower.as_str());
        let mut i: usize = 0;
        while i < self.rules.len()
            invariant
                i <= self.rules@.len(),
                working@ == remove_rules(lower@, self.rules_view().subrange(0, i as int)),
            decreases self.rules@.len() - i,
        {
            let rule = chars_of(self.rules[i].as_str());
            working = remove_each(&working, &rule);
            proof {
                let rs = self.rules_view();
                assert(rs.subrange(0, i + 1).drop_last() =~= rs.subrange(0, i as int));
            }
            i += 1;
        }
        assert(self.rules_view().subrange(0, i as int) =~= self.rules_view());
        title_case(&working)
    }

    /// The number of rules.
    pub fn size(&self) -> (r: usize)
        ensures
            r == self.rules_view().len(),
    {
        self.rules.len()
    }
}

/// The rules that the text of a rules file holds, one per line.
pub fn parse_rules(contents: &str) -> (r: Vec<String>)
    ensures
        views_of(r@) == rules_of(contents@),
{
    let lower = lowercase(contents);
    let s = chars_of(lower.as_str());
    let ghost ls = lower@;
    let mut out: Vec<String> = Vec::new();
    let mut line: Vec<char> = Vec::new();
    let mut i: usize = 0;
    assert(ls.subrange(0, 0) =~= Seq::<char>::empty());
    while i < s.len()
        invariant
            s@ == ls,
            i <= s@.len(),
            lines_of(ls.subrange(0, i as int)) == lines_of(ls.subrange(0, i as int)).drop_last()
                .push(line@),
            views_of(out@) == kept_rules(lines_of(ls.subrange(0, i as int)).drop_last()),
        decreases s@.len() - i,
    {
        let ghost prev = lines_of(ls.subrange(0, i as int));
        proof {
            lemma_lines_nonempty(ls.subrange(0, i as int));
            assert(ls.subrange(0, i + 1).drop_last() =~= ls.subrange(0, i as int));
        }
        if s[i] == '\n' {
            keep_rule(&mut out, &line);
            line = Vec::new();
            proof {
                assert(lines_of(ls.subrange(0, i + 1)).drop_last() =~= prev);
                assert(prev.drop_last().push(prev.last()) =~= prev);
                let next = lines_of(ls.subrange(0, i + 1));
                assert(next =~= next.drop_last().push(line@));
            }
        } else {
            line.push(s[i]);
            proof {
                assert(lines_of(ls.subrange(0, i + 1)).drop_last() =~= prev.drop_last());
                let next = lines_of(ls.subrange(0, i + 1));
                assert(next =~= next.drop_last().push(line@));
            }
        }
        i += 1;
    }
    keep_rule(&mut out, &line);
    proof {
        assert(ls.subrange(0, i as int) =~= ls);
        let all = lines_of(ls);
        lemma_lines_nonempty(ls);
        assert(all.drop_last().push(all.last()) =~= all);
    }
    out
}

/// Adds the trimmed `line` to `out` unless it is empty.
fn keep_rule(out: &mut Vec<String>, line: &Vec<char>)
    ensures
        forall|ls: Seq<Seq<char>>|
            views_of(old(out)@) == kept_rules(ls) ==> views_of(final(out)@) == kept_rules(
                #[trigger] ls.push(line@),
            ),
{
    let t = trim(line);
    if t.unicode_len() > 0 {
        out.push(t);
        assert(views_of(out@) =~= views_of(old(out)@).push(t@));
    }
    assert forall|ls: Seq<Seq<char>>| #[trigger] ls.push(line@).drop_last() == ls by {
        assert(ls.push(line@).drop_last() =~= ls);
    }
}

/// Cleaning a text changes nothing where no non-empty rule occurs in its lower
/// case form and title-casing that lower case form gives the text back.
pub proof fn lemma_clean_keeps_clean_text(rules: Seq<Seq<char>>, text: Seq<char>)
    requires
        forall|i: int|
            0 <= i < rules.len() && rules[i].len() > 0 ==> !occurs(
                lower_of(text),
                #[trigger] rules[i],
            ),
        title_case_of(lower_of(text)) == text,
    ensures
        cleaned(rules, text) == text,
{
    lemma_remove_rules_absent(lower_of(text), rules);
}

proof fn lemma_remove_absent(s: Seq<char>, pat: Seq<char>)
    requires
        pat.len() > 0 ==> !occurs(s, pat),
    ensures
        remove_all(s, pat) == s,
    decreases s.len(),
{
    if pat.len() == 0 || s.len() < pat.len() {
    } else {
        assert(!occurs_at(s, pat, 0));
        let t = s.subrange(1, s.len() as int);
        assert forall|i: int| !occurs_at(t, pat, i) by {
            if occurs_at(t, pat, i) {
                assert(s.subrange(i + 1, i + 1 + pat.len()) =~= t.subrange(i, i + pat.len()));
                assert(occurs_at(s, pat, i + 1));
            }
        }
        lemma_remove_absent(t, pat);
        assert(s =~= seq![s[0]] + t);
    }
}

proof fn lemma_remove_rules_absent(s: Seq<char>, rules: Seq<Seq<char>>)
    requires
        forall|i: int|
            0 <= i < rules.len() && rules[i].len() > 0 ==> !occurs(s, #[trigger] rules[i]),
    ensures
        remove_rules(s, rules) == s,
    decreases rules.len(),
{
    if rules.len() > 0 {
        let init = rules.drop_last();
        assert forall|i: int| 0 <= i < init.len() && init[i].len() > 0 implies !occurs(
            s,
            #[trigger] init[i],
        ) by {
            assert(init[i] == rules[i]);
        }
        lemma_remove_rules_absent(s, init);
        lemma_remove_absent(s, rules[rules.len() - 1]);
    }
}

} // verus!
