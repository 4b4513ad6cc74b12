//! The sidebar's list of modified files, built from the output of `git diff --numstat`
//! and `git ls-files --others`.

use vstd::prelude::*;

use crate::text::{
    chars_equal, chars_less, chars_of, lemma_str_lt_irreflexive, lemma_str_lt_total,
    lemma_str_lt_transitive, lines, lines_of, split_on, split_pieces, str_lt, string_from_chars,
    trim, trim_chars, lemma_lines_concat, lacks, lemma_split_on_no_sep,
    lemma_split_on_prefix_piece,
};

verus! {

/// A file with uncommitted changes, and its added and deleted line counts.
#[derive(Clone, Debug, PartialEq, Eq)]
pub struct SidebarModifiedFile {
    pub path: String,
    pub additions: usize,
    pub deletions: usize,
}

/// The decimal value of a sequence of ASCII digits.
pub open spec fn digits_value(s: Seq<char>) -> int
    decreases s.len(),
{
    if s.len() == 0 {
        0
    } else {
        10 * digits_value(s.drop_last()) + (s.last() as int - '0' as int)
    }
}

pub open spec fn is_ascii_digit(c: char) -> bool {
    '0' <= c <= '9'
}

/// `str::parse::<usize>`: an optional `+`, then at least one ASCII digit, with a value
/// that fits in `usize`.
pub open spec fn parsed_usize(s: Seq<char>) -> Option<int> {
    let d = unsigned_digits(s);
    if d.len() == 0 || !all_digits(d) || digits_value(d) > usize::MAX {
        None
    } else {
        Some(digits_value(d))
    }
}

/// What follows an optional leading `+`.
pub open spec fn unsigned_digits(s: Seq<char>) -> Seq<char> {
    if s.len() > 0 && s[0] == '+' {
        s.drop_first()
    } else {
        s
    }
}

pub open spec fn all_digits(d: Seq<char>) -> bool {
    forall|i: int| 0 <= i < d.len() ==> is_ascii_digit(#[trigger] d[i])
}

proof fn lemma_digits_value_nonneg(s: Seq<char>)
    requires
        forall|i: int| 0 <= i < s.len() ==> is_ascii_digit(#[trigger] s[i]),
    ensures
        digits_value(s) >= 0,
    decreases s.len(),
{
    if s.len() > 0 {
        lemma_digits_value_nonneg(s.drop_last());
    }
}

/// Reads an unsigned count as `str::parse::<usize>` does.
pub fn parse_usize(s: &[char]) -> (r: Option<usize>)
    ensures
        r matches Some(n) ==> parsed_usize(s@) == Some(n as int),
        r is None ==> parsed_usize(s@) is None,
{
    let start: usize = if s.len() > 0 && s[0] == '+' {
        1
    } else {
        0
    };
    let ghost d = unsigned_digits(s@);
    assert(d =~= s@.skip(start as int));
    if start == s.len() {
        assert(d.len() == 0);
        return None;
    }
    let mut value: usize = 0;
    let mut i: usize = start;
    while i < s.len()
        invariant
            start <= i <= s@.len(),
            d =~= s@.skip(start as int),
            d == unsigned_digits(s@),
            forall|k: int| 0 <= k < i - start ==> is_ascii_digit(#[trigger] d[k]),
            value == digits_value(d.take(i - start)),
        decreases s.len() - i,
    {
        let c = s[i];
        if !('0' <= c && c <= '9') {
            assert(!is_ascii_digit(d[i - start]));
            assert(!all_digits(d));
            return None;
        }
        let digit = (c as u32 - '0' as u32) as usize;
        assert(d.take(i + 1 - start).drop_last() =~= d.take(i - start));
        assert(d.take(i + 1 - start).last() == c);
        assert(digit == c as int - '0' as int);
        assert(digits_value(d.take(i + 1 - start)) == 10 * value + digit);
        proof {
            lemma_digits_value_nonneg(d.take(i - start));
        }
        let next = match value.checked_mul(10) {
            Some(t) => t.checked_add(digit),
            None => None,
        };
        match next {
            Some(n) => {
                value = n;
            },
            None => {
                proof {
                    lemma_digits_value_prefix_bound(d, (i + 1 - start) as int);
                    assert(digits_value(d.take(i + 1 - start)) > usize::MAX);
                }
                return None;
            },
        }
        i = i + 1;
    }
    assert(d.take(i - start) =~= d);
    Some(value)
}

/// Longer digit strings have values at least as large as their prefixes.
proof fn lemma_digits_value_prefix_bound(d: Seq<char>, n: int)
    requires
        0 <= n <= d.len(),
        forall|i: int| 0 <= i < n ==> is_ascii_digit(#[trigger] d[i]),
    ensures
        (forall|i: int| 0 <= i < d.len() ==> is_ascii_digit(#[trigger] d[i])) ==> digits_value(d)
            >= digits_value(d.take(n)),
    decreases d.len() - n,
{
    if n < d.len() {
        if forall|i: int| 0 <= i < d.len() ==> is_ascii_digit(#[trigger] d[i]) {
            lemma_digits_value_prefix_bound(d, n + 1);
            assert(d.take(n + 1).drop_last() =~= d.take(n));
            lemma_digits_value_nonneg(d.take(n));
        }
    } else {
        assert(d.take(n) =~= d);
    }
}


/// The totals that a list of files records, keyed by path.
pub open spec fn files_map(s: Seq<SidebarModifiedFile>) -> Map<Seq<char>, (int, int)>
    decreases s.len(),
{
    if s.len() == 0 {
        Map::empty()
    } else {
        files_map(s.drop_last()).insert(
            s.last().path@,
            (s.last().additions as int, s.last().deletions as int),
        )
    }
}

/// Paths strictly increase along the list, in the order of `String`s.
pub open spec fn sorted_by_path(s: Seq<SidebarModifiedFile>) -> bool {
    forall|i: int, j: int| 0 <= i < j < s.len() ==> str_lt(s[i].path@, s[j].path@)
}

pub proof fn lemma_files_map(s: Seq<SidebarModifiedFile>)
    requires
        sorted_by_path(s),
    ensures
        forall|i: int|
            0 <= i < s.len() ==> files_map(s).contains_key(#[trigger] s[i].path@) && files_map(
                s,
            )[s[i].path@] == (s[i].additions as int, s[i].deletions as int),
        forall|k: Seq<char>|
            #[trigger] files_map(s).contains_key(k) ==> exists|i: int|
                0 <= i < s.len() && s[i].path@ == k,
    decreases s.len(),
{
    if s.len() > 0 {
        let t = s.drop_last();
        assert(sorted_by_path(t));
        lemma_files_map(t);
        let n = s.len() - 1;
        assert forall|i: int| 0 <= i < n implies s[i].path@ != s[n].path@ by {
            lemma_str_lt_irreflexive(s[i].path@);
        }
        assert forall|i: int| 0 <= i < s.len() implies files_map(s).contains_key(
            #[trigger] s[i].path@,
        ) && files_map(s)[s[i].path@] == (s[i].additions as int, s[i].deletions as int) by {
            if i < n {
                assert(t[i] == s[i]);
            }
        }
        assert forall|k: Seq<char>| #[trigger] files_map(s).contains_key(k) implies exists|i: int|
            0 <= i < s.len() && s[i].path@ == k by {
            if k != s[n].path@ {
                assert(files_map(t).contains_key(k));
                let i = choose|i: int| 0 <= i < t.len() && t[i].path@ == k;
                assert(s[i] == t[i]);
            }
        }
    }
}

/// Replacing the file at `p` by one with the same path replaces its totals.
pub proof fn lemma_files_map_update(s: Seq<SidebarModifiedFile>, p: int, f: SidebarModifiedFile)
    requires
        sorted_by_path(s),
        0 <= p < s.len(),
        f.path@ == s[p].path@,
    ensures
        sorted_by_path(s.update(p, f)),
        files_map(s.update(p, f)) == files_map(s).insert(
            f.path@,
            (f.additions as int, f.deletions as int),
        ),
{
    let u = s.update(p, f);
    assert(sorted_by_path(u));
    lemma_files_map(s);
    lemma_files_map(u);
    let m = files_map(s).insert(f.path@, (f.additions as int, f.deletions as int));
    assert forall|k: Seq<char>| files_map(u).contains_key(k) <==> m.contains_key(k) by {
        if files_map(u).contains_key(k) {
            let i = choose|i: int| 0 <= i < u.len() && u[i].path@ == k;
            assert(s[i].path@ == k);
        }
        if files_map(s).contains_key(k) {
            let i = choose|i: int| 0 <= i < s.len() && s[i].path@ == k;
            assert(u[i].path@ == k);
        }
        if k == f.path@ {
            assert(u[p].path@ == k);
        }
    }
    assert forall|k: Seq<char>| #[trigger] files_map(u).contains_key(k) implies files_map(u)[k]
        == m[k] by {
        let i = choose|i: int| 0 <= i < u.len() && u[i].path@ == k;
        if i != p {
            assert(u[i] == s[i]);
            assert(s[i].path@ != s[p].path@) by {
                lemma_str_lt_irreflexive(s[i].path@);
            }
        }
    }
    assert(files_map(u) =~= m);
}

/// Inserting a file with a new path adds its totals.
pub proof fn lemma_files_map_insert(s: Seq<SidebarModifiedFile>, p: int, f: SidebarModifiedFile)
    requires
        sorted_by_path(s),
        0 <= p <= s.len(),
        sorted_by_path(s.insert(p, f)),
    ensures
        files_map(s.insert(p, f)) == files_map(s).insert(
            f.path@,
            (f.additions as int, f.deletions as int),
        ),
{
    let u = s.insert(p, f);
    lemma_files_map(s);
    lemma_files_map(u);
    let m = files_map(s).insert(f.path@, (f.additions as int, f.deletions as int));
    assert forall|k: Seq<char>| files_map(u).contains_key(k) <==> m.contains_key(k) by {
        if files_map(u).contains_key(k) {
            let i = choose|i: int| 0 <= i < u.len() && u[i].path@ == k;
            if i < p {
                assert(s[i].path@ == k);
            } else if i > p {
                assert(s[i - 1].path@ == k);
            }
        }
        if files_map(s).contains_key(k) {
            let i = choose|i: int| 0 <= i < s.len() && s[i].path@ == k;
            if i < p {
                assert(u[i].path@ == k);
            } else {
                assert(u[i + 1].path@ == k);
            }
        }
        if k == f.path@ {
            assert(u[p].path@ == k);
        }
    }
    assert forall|k: Seq<char>| #[trigger] files_map(u).contains_key(k) implies files_map(u)[k]
        == m[k] by {
        let i = choose|i: int| 0 <= i < u.len() && u[i].path@ == k;
        if i != p {
            assert(u[i].path@ != u[p].path@) by {
                lemma_str_lt_irreflexive(u[i].path@);
            }
            if i < p {
                assert(u[i] == s[i]);
            } else {
                assert(u[i] == s[i - 1]);
            }
        }
    }
    assert(files_map(u) =~= m);
}


/// The totals after adding `(additions, deletions)` to those of `path` (zero when the
/// path has none yet).
pub open spec fn add_to_totals(
    m: Map<Seq<char>, (int, int)>,
    path: Seq<char>,
    additions: int,
    deletions: int,
) -> Map<Seq<char>, (int, int)> {
    let prev = if m.contains_key(path) {
        m[path]
    } else {
        (0, 0)
    };
    m.insert(path, (prev.0 + additions, prev.1 + deletions))
}

/// Added and deleted line counts per path, kept in the order of paths.
///
/// vstd's specifications of `BTreeMap` hold only for key types with an order
/// specification (`obeys_cmp`), which vstd gives for integers but not for `String`; the
/// totals are therefore kept in a vector sorted by path, whose order is proved here.
pub struct ModifiedFileTotals {
    entries: Vec<SidebarModifiedFile>,
}

impl View for ModifiedFileTotals {
    type V = Map<Seq<char>, (int, int)>;

    closed spec fn view(&self) -> Map<Seq<char>, (int, int)> {
        files_map(self.entries@)
    }
}

impl ModifiedFileTotals {
    /// The entries are kept in strictly increasing path order.
    pub closed spec fn wf(&self) -> bool {
        sorted_by_path(self.entries@)
    }

    /// No totals yet.
    pub fn new() -> (r: Self)
        ensures
            r.wf(),
            r@ == Map::<Seq<char>, (int, int)>::empty(),
    {
        ModifiedFileTotals { entries: Vec::new() }
    }

    /// Adds `additions` and `deletions` to the totals of `path`, which start at zero;
    /// refuses, changing nothing, when a total would not fit in `usize`.
    pub fn add(&mut self, path: &[char], additions: usize, deletions: usize) -> (added: bool)
        requires
            old(self).wf(),
        ensures
            final(self).wf(),
            added == (old(self)@.contains_key(path@) ==> old(self)@[path@].0 + additions
                <= usize::MAX && old(self)@[path@].1 + deletions <= usize::MAX),
            added ==> final(self)@ == add_to_totals(
                old(self)@,
                path@,
                additions as int,
                deletions as int,
            ),
            !added ==> final(self)@ == old(self)@,
    {
        proof {
            lemma_files_map(self.entries@);
        }
        let n = self.entries.len();
        let mut p: usize = 0;
        let mut found = false;
        while p < n
            invariant_except_break
                !found,
            invariant
                n == self.entries@.len(),
                p <= n,
                sorted_by_path(self.entries@),
                forall|j: int| 0 <= j < p ==> str_lt(#[trigger] self.entries@[j].path@, path@),
            ensures
                found ==> p < n && self.entries@[p as int].path@ == path@,
                !found ==> p == n || str_lt(path@, self.entries@[p as int].path@),
            decreases n - p,
        {
            let key = chars_of(self.entries[p].path.as_str());
            if chars_less(key.as_slice(), path) {
                p = p + 1;
            } else {
                proof {
                    lemma_str_lt_total(key@, path@);
                }
                found = key.len() == path.len() && chars_equal(key.as_slice(), path);
                break;
            }
        }
        let ghost before = self.entries@;
        if found {
            let old_additions = self.entries[p].additions;
            let old_deletions = self.entries[p].deletions;
            assert(files_map(before)[path@] == (old_additions as int, old_deletions as int));
            let new_additions = match old_additions.checked_add(additions) {
                Some(n) => n,
                None => return false,
            };
            let new_deletions = match old_deletions.checked_add(deletions) {
                Some(n) => n,
                None => return false,
            };
            let f = SidebarModifiedFile {
                path: string_from_chars(path),
                additions: new_additions,
                deletions: new_deletions,
            };
            proof {
                lemma_files_map_update(before, p as int, f);
            }
            self.entries.set(p, f);
        } else {
            let f = SidebarModifiedFile {
                path: string_from_chars(path),
                additions,
                deletions,
            };
            proof {
                let u = before.insert(p as int, f);
                assert forall|i: int, j: int| 0 <= i < j < u.len() implies str_lt(
                    u[i].path@,
                    u[j].path@,
                ) by {
                    if j < p {
                    } else if j == p {
                        assert(u[i] == before[i]);
                    } else if i < p {
                        assert(u[i] == before[i]);
                        assert(u[j] == before[j - 1]);
                        lemma_str_lt_transitive(before[i].path@, path@, before[p as int].path@);
                        if j - 1 > p {
                            lemma_str_lt_transitive(
                                before[i].path@,
                                before[p as int].path@,
                                before[j - 1].path@,
                            );
                        }
                    } else if i == p {
                        assert(u[j] == before[j - 1]);
                        if j - 1 > p {
                            lemma_str_lt_transitive(
                                path@,
                                before[p as int].path@,
                                before[j - 1].path@,
                            );
                        }
                    } else {
                        assert(u[i] == before[i - 1]);
                        assert(u[j] == before[j - 1]);
                    }
                }
                lemma_files_map_insert(before, p as int, f);
                if files_map(before).contains_key(path@) {
                    let i = choose|i: int| 0 <= i < before.len() && before[i].path@ == path@;
                    if i < p {
                        lemma_str_lt_irreflexive(path@);
                    } else {
                        lemma_str_lt_irreflexive(path@);
                        if i > p {
                            lemma_str_lt_transitive(path@, before[p as int].path@, path@);
                        }
                    }
                }
            }
            self.entries.insert(p, f);
        }
        true
    }

    /// Every total fits in `usize`.
    pub proof fn lemma_values_fit(&self)
        requires
            self.wf(),
        ensures
            totals_fit(self@),
            totals_nonneg(self@),
    {
        lemma_files_map(self.entries@);
        assert forall|k: Seq<char>| #[trigger] self@.contains_key(k) implies self@[k].0
            <= usize::MAX && self@[k].1 <= usize::MAX && self@[k].0 >= 0 && self@[k].1 >= 0 by {
            let i = choose|i: int| 0 <= i < self.entries@.len() && self.entries@[i].path@ == k;
            assert(self.entries@[i].path@ == k);
        }
    }

    /// The files with their totals, in path order.
    pub fn into_files(self) -> (r: Vec<SidebarModifiedFile>)
        requires
            self.wf(),
        ensures
            sorted_by_path(r@),
            files_map(r@) == self@,
    {
        self.entries
    }
}


/// Every total fits in `usize`.
pub open spec fn totals_fit(m: Map<Seq<char>, (int, int)>) -> bool {
    forall|k: Seq<char>| #[trigger]
        m.contains_key(k) ==> m[k].0 <= usize::MAX && m[k].1 <= usize::MAX
}

/// No total is negative.
pub open spec fn totals_nonneg(m: Map<Seq<char>, (int, int)>) -> bool {
    forall|k: Seq<char>| #[trigger] m.contains_key(k) ==> m[k].0 >= 0 && m[k].1 >= 0
}

/// A count field of `git diff --numstat`: its value, or zero where it is not a number
/// (binary files show `-`).
pub open spec fn count_or_zero(s: Seq<char>) -> int {
    match parsed_usize(s) {
        Some(n) => n,
        None => 0,
    }
}

/// One line of `git diff --numstat`: tab-separated additions, deletions and path (the
/// last field); a line with fewer than three fields changes nothing.
pub open spec fn numstat_line_totals(m: Map<Seq<char>, (int, int)>, line: Seq<char>) -> Map<
    Seq<char>,
    (int, int),
> {
    let parts = split_on(line, '\t');
    if parts.len() < 3 {
        m
    } else {
        add_to_totals(m, parts.last(), count_or_zero(parts[0]), count_or_zero(parts[1]))
    }
}

/// The totals after the numstat lines `ls`, in order.
pub open spec fn numstat_totals(m: Map<Seq<char>, (int, int)>, ls: Seq<Seq<char>>) -> Map<
    Seq<char>,
    (int, int),
>
    decreases ls.len(),
{
    if ls.len() == 0 {
        m
    } else {
        numstat_totals(numstat_line_totals(m, ls[0]), ls.drop_first())
    }
}

/// The totals after the untracked paths listed one per line in `ls`: each path that is
/// not blank once trimmed is present, with its totals unchanged when it already was.
pub open spec fn untracked_totals(m: Map<Seq<char>, (int, int)>, ls: Seq<Seq<char>>) -> Map<
    Seq<char>,
    (int, int),
>
    decreases ls.len(),
{
    if ls.len() == 0 {
        m
    } else {
        let t = trim(ls[0]);
        untracked_totals(
            if t.len() == 0 {
                m
            } else {
                add_to_totals(m, t, 0, 0)
            },
            ls.drop_first(),
        )
    }
}

proof fn lemma_count_or_zero_nonneg(s: Seq<char>)
    ensures
        count_or_zero(s) >= 0,
{
    if parsed_usize(s) is Some {
        lemma_digits_value_nonneg(unsigned_digits(s));
    }
}

/// Totals only grow as numstat lines are added.
pub proof fn lemma_numstat_totals_grow(m: Map<Seq<char>, (int, int)>, ls: Seq<Seq<char>>)
    ensures
        forall|k: Seq<char>| #[trigger]
            m.contains_key(k) ==> numstat_totals(m, ls).contains_key(k) && numstat_totals(
                m,
                ls,
            )[k].0 >= m[k].0 && numstat_totals(m, ls)[k].1 >= m[k].1,
    decreases ls.len(),
{
    if ls.len() > 0 {
        let m1 = numstat_line_totals(m, ls[0]);
        let parts = split_on(ls[0], '\t');
        if parts.len() >= 3 {
            lemma_count_or_zero_nonneg(parts[0]);
            lemma_count_or_zero_nonneg(parts[1]);
        }
        lemma_numstat_totals_grow(m1, ls.drop_first());
        assert forall|k: Seq<char>| #[trigger] m.contains_key(k) implies m1.contains_key(k)
            && m1[k].0 >= m[k].0 && m1[k].1 >= m[k].1 by {}
    }
}

/// A line count total that does not fit in `usize`.
#[derive(Clone, Copy, Debug, PartialEq, Eq, Structural)]
pub struct TotalsOverflow;

/// Adds the counts of `git diff --numstat` output to `totals`, path by path. Fails when
/// a total would not fit in `usize`.
pub fn parse_numstat_into_totals(output: &str, totals: &mut ModifiedFileTotals) -> (r: Result<
    (),
    TotalsOverflow,
>)
    requires
        old(totals).wf(),
    ensures
        final(totals).wf(),
        r is Ok <==> totals_fit(numstat_totals(old(totals)@, lines(output@))),
        r is Ok ==> final(totals)@ == numstat_totals(old(totals)@, lines(output@)),
{
    let v = chars_of(output);
    let ls = lines_of(v.as_slice());
    let ghost lv = lines(output@);
    let ghost goal = numstat_totals(totals@, lv);
    let mut i: usize = 0;
    proof {
        assert(lv.skip(0) =~= lv);
    }
    while i < ls.len()
        invariant
            lv == lines(output@),
            ls@.len() == lv.len(),
            forall|j: int| 0 <= j < ls@.len() ==> (#[trigger] ls@[j])@ == lv[j],
            i <= ls@.len(),
            totals.wf(),
            goal == numstat_totals(old(totals)@, lv),
            goal == numstat_totals(totals@, lv.skip(i as int)),
        decreases ls.len() - i,
    {
        let line = &ls[i];
        let parts = split_pieces(line.as_slice(), '\t');
        let ghost m0 = totals@;
        proof {
            assert(lv.skip(i as int)[0] == lv[i as int]);
            assert(lv.skip(i as int).drop_first() =~= lv.skip(i + 1));
        }
        if parts.len() >= 3 {
            let path = &parts[parts.len() - 1];
            let additions = match parse_usize(parts[0].as_slice()) {
                Some(n) => n,
                None => 0,
            };
            let deletions = match parse_usize(parts[1].as_slice()) {
                Some(n) => n,
                None => 0,
            };
            proof {
                let m1 = numstat_line_totals(m0, lv[i as int]);
                assert(m1 == add_to_totals(m0, path@, additions as int, deletions as int));
                lemma_numstat_totals_grow(m1, lv.skip(i + 1));
                assert(m1.contains_key(path@));
                assert(goal.contains_key(path@));
            }
            if !totals.add(path.as_slice(), additions, deletions) {
                proof {
                    assert(!totals_fit(goal));
                }
                return Err(TotalsOverflow);
            }
        }
        i = i + 1;
    }
    proof {
        assert(lv.skip(i as int) =~= Seq::<Seq<char>>::empty());
        totals.lemma_values_fit();
    }
    Ok(())
}

/// Makes every untracked path listed one per line in `output` present in `totals`.
pub fn add_untracked_paths(output: &str, totals: &mut ModifiedFileTotals)
    requires
        old(totals).wf(),
    ensures
        final(totals).wf(),
        final(totals)@ == untracked_totals(old(totals)@, lines(output@)),
{
    let v = chars_of(output);
    let ls = lines_of(v.as_slice());
    let ghost lv = lines(output@);
    let ghost goal = untracked_totals(totals@, lv);
    let mut i: usize = 0;
    proof {
        assert(lv.skip(0) =~= lv);
    }
    while i < ls.len()
        invariant
            lv == lines(output@),
            ls@.len() == lv.len(),
            forall|j: int| 0 <= j < ls@.len() ==> (#[trigger] ls@[j])@ == lv[j],
            i <= ls@.len(),
            totals.wf(),
            goal == untracked_totals(totals@, lv.skip(i as int)),
        decreases ls.len() - i,
    {
        let path = trim_chars(ls[i].as_slice());
        proof {
            assert(lv.skip(i as int)[0] == lv[i as int]);
            assert(lv.skip(i as int).drop_first() =~= lv.skip(i + 1));
            totals.lemma_values_fit();
        }
        if path.len() > 0 {
            let added = totals.add(path.as_slice(), 0, 0);
            assert(added);
        }
        i = i + 1;
    }
    proof {
        assert(lv.skip(i as int) =~= Seq::<Seq<char>>::empty());
    }
}

/// The totals of the numstat outputs for unstaged and staged changes.
pub open spec fn numstat_part(unstaged: Option<Seq<char>>, staged: Option<Seq<char>>) -> Map<
    Seq<char>,
    (int, int),
> {
    let m1 = match unstaged {
        Some(o) => numstat_totals(Map::empty(), lines(o)),
        None => Map::empty(),
    };
    match staged {
        Some(o) => numstat_totals(m1, lines(o)),
        None => m1,
    }
}

/// The totals the sidebar shows: unstaged, then staged numstat counts, then untracked
/// paths with no counts.
pub open spec fn modified_file_totals(
    unstaged: Option<Seq<char>>,
    staged: Option<Seq<char>>,
    untracked: Option<Seq<char>>,
) -> Map<Seq<char>, (int, int)> {
    let m = numstat_part(unstaged, staged);
    match untracked {
        Some(o) => untracked_totals(m, lines(o)),
        None => m,
    }
}

/// The sidebar's modified files, in path order, from the outputs of
/// `git diff --numstat` (unstaged and staged) and `git ls-files --others`; an output
/// that git did not give is absent. Fails when a total would not fit in `usize`.
pub fn modified_files_from_git_output(
    unstaged: Option<&str>,
    staged: Option<&str>,
    untracked: Option<&str>,
) -> (r: Result<Vec<SidebarModifiedFile>, TotalsOverflow>)
    ensures
        r is Ok <==> totals_fit(
            numstat_part(
                crate::thread_title::str_option_view(unstaged),
                crate::thread_title::str_option_view(staged),
            ),
        ),
        r matches Ok(files) ==> sorted_by_path(files@) && files_map(files@)
            == modified_file_totals(
            crate::thread_title::str_option_view(unstaged),
            crate::thread_title::str_option_view(staged),
            crate::thread_title::str_option_view(untracked),
        ),
{
    let ghost part = numstat_part(
        crate::thread_title::str_option_view(unstaged),
        crate::thread_title::str_option_view(staged),
    );
    let mut totals = ModifiedFileTotals::new();
    let ghost m0 = totals@;
    if let Some(unstaged) = unstaged {
        let parsed = parse_numstat_into_totals(unstaged, &mut totals);
        if parsed.is_err() {
            proof {
                let m1 = numstat_totals(m0, lines(unstaged@));
                if let Some(st) = crate::thread_title::str_option_view(staged) {
                    lemma_numstat_totals_grow(m1, lines(st));
                    let k = choose|k: Seq<char>|
                        #[trigger] m1.contains_key(k) && !(m1[k].0 <= usize::MAX && m1[k].1
                            <= usize::MAX);
                    assert(part.contains_key(k));
                }
            }
            return Err(TotalsOverflow);
        }
    }
    if let Some(staged) = staged {
        if parse_numstat_into_totals(staged, &mut totals).is_err() {
            return Err(TotalsOverflow);
        }
    }
    proof {
        totals.lemma_values_fit();
    }
    if let Some(untracked) = untracked {
        add_untracked_paths(untracked, &mut totals);
    }
    Ok(totals.into_files())
}

/// Whether the output of `git rev-parse --is-inside-work-tree` says `true`.
pub fn is_inside_work_tree(stdout: Option<&str>) -> (r: bool)
    ensures
        r == (stdout matches Some(out) && trim(out@) == "true"@),
{
    match stdout {
        Some(out) => {
            let v = chars_of(out);
            let t = trim_chars(v.as_slice());
            let expected = chars_of("true");
            t.len() == expected.len() && chars_equal(t.as_slice(), expected.as_slice())
        },
        None => false,
    }
}

/// Whether a git command's output is used: it succeeded, or it exited with status 1
/// where that only reports differences.
pub fn git_output_accepted(success: bool, exit_code: Option<i32>, allow_diff_exit: bool) -> (r:
    bool)
    ensures
        r == (success || (allow_diff_exit && exit_code == Some(1i32))),
{
    success || (allow_diff_exit && exit_code == Some(1))
}


/// Listing untracked paths keeps every total already there and makes each listed path
/// (trimmed, when not blank) present.
pub proof fn law_untracked_keeps_counts(m: Map<Seq<char>, (int, int)>, ls: Seq<Seq<char>>)
    ensures
        forall|k: Seq<char>| #[trigger]
            m.contains_key(k) ==> untracked_totals(m, ls).contains_key(k) && untracked_totals(
                m,
                ls,
            )[k] == m[k],
        forall|i: int|
            0 <= i < ls.len() && trim(#[trigger] ls[i]).len() > 0 ==> untracked_totals(
                m,
                ls,
            ).contains_key(trim(ls[i])),
    decreases ls.len(),
{
    if ls.len() > 0 {
        let t = trim(ls[0]);
        let m1 = if t.len() == 0 {
            m
        } else {
            add_to_totals(m, t, 0, 0)
        };
        law_untracked_keeps_counts(m1, ls.drop_first());
        assert forall|k: Seq<char>| #[trigger] m.contains_key(k) implies m1.contains_key(k)
            && m1[k] == m[k] by {}
        assert forall|i: int| 0 <= i < ls.len() && trim(#[trigger] ls[i]).len() > 0 implies untracked_totals(
            m,
            ls,
        ).contains_key(trim(ls[i])) by {
            if i > 0 {
                assert(ls.drop_first()[i - 1] == ls[i]);
            } else {
                assert(m1.contains_key(t));
            }
        }
    }
}

/// Numstat outputs read one after the other give the totals of their lines read in
/// order.
pub proof fn law_numstat_totals_concat(
    m: Map<Seq<char>, (int, int)>,
    first: Seq<Seq<char>>,
    second: Seq<Seq<char>>,
)
    ensures
        numstat_totals(numstat_totals(m, first), second) == numstat_totals(m, first + second),
    decreases first.len(),
{
    if first.len() > 0 {
        law_numstat_totals_concat(numstat_line_totals(m, first[0]), first.drop_first(), second);
        assert((first + second).drop_first() =~= first.drop_first() + second);
        assert((first + second)[0] == first[0]);
    } else {
        assert(first + second =~= second);
    }
}


/// Adding to the totals of two paths gives the same totals in either order.
proof fn lemma_add_to_totals_commute(
    m: Map<Seq<char>, (int, int)>,
    p: Seq<char>,
    a: int,
    d: int,
    q: Seq<char>,
    a2: int,
    d2: int,
)
    ensures
        add_to_totals(add_to_totals(m, p, a, d), q, a2, d2) == add_to_totals(
            add_to_totals(m, q, a2, d2),
            p,
            a,
            d,
        ),
{
    let l = add_to_totals(add_to_totals(m, p, a, d), q, a2, d2);
    let r = add_to_totals(add_to_totals(m, q, a2, d2), p, a, d);
    assert(l =~= r);
}

/// Two numstat lines give the same totals in either order.
proof fn lemma_numstat_lines_commute(m: Map<Seq<char>, (int, int)>, x: Seq<char>, y: Seq<char>)
    ensures
        numstat_line_totals(numstat_line_totals(m, x), y) == numstat_line_totals(
            numstat_line_totals(m, y),
            x,
        ),
{
    let px = split_on(x, '\t');
    let py = split_on(y, '\t');
    if px.len() >= 3 && py.len() >= 3 {
        lemma_add_to_totals_commute(
            m,
            px.last(),
            count_or_zero(px[0]),
            count_or_zero(px[1]),
            py.last(),
            count_or_zero(py[0]),
            count_or_zero(py[1]),
        );
    }
}

/// A numstat line read before some lines gives the totals of reading it after them.
proof fn lemma_numstat_line_moves(m: Map<Seq<char>, (int, int)>, x: Seq<char>, ls: Seq<Seq<char>>)
    ensures
        numstat_totals(numstat_line_totals(m, x), ls) == numstat_line_totals(
            numstat_totals(m, ls),
            x,
        ),
    decreases ls.len(),
{
    if ls.len() > 0 {
        lemma_numstat_lines_commute(m, x, ls[0]);
        lemma_numstat_line_moves(numstat_line_totals(m, ls[0]), x, ls.drop_first());
    }
}

/// Two lists of numstat lines give the same totals in either order.
proof fn lemma_numstat_totals_swap(
    m: Map<Seq<char>, (int, int)>,
    a: Seq<Seq<char>>,
    b: Seq<Seq<char>>,
)
    ensures
        numstat_totals(numstat_totals(m, a), b) == numstat_totals(numstat_totals(m, b), a),
    decreases a.len(),
{
    if a.len() > 0 {
        let x = a[0];
        lemma_numstat_totals_swap(numstat_line_totals(m, x), a.drop_first(), b);
        lemma_numstat_line_moves(m, x, b);
    }
}

/// Numstat output read as one text gives the totals of its two parts read one after the
/// other, the first part being empty or ending with a newline; and the two parts give
/// the same totals in either order.
pub proof fn law_numstat_text_concat(m: Map<Seq<char>, (int, int)>, a: Seq<char>, b: Seq<char>)
    requires
        a.len() == 0 || a.last() == '\n',
    ensures
        numstat_totals(m, lines(a + b)) == numstat_totals(numstat_totals(m, lines(a)), lines(b)),
        numstat_totals(numstat_totals(m, lines(a)), lines(b)) == numstat_totals(
            numstat_totals(m, lines(b)),
            lines(a),
        ),
{
    lemma_lines_concat(a, b);
    law_numstat_totals_concat(m, lines(a), lines(b));
    lemma_numstat_totals_swap(m, lines(a), lines(b));
}


/// A numstat line "additions TAB deletions TAB path" adds its two counts (zero where a
/// field is not a number) to the totals of its path, which start at zero.
pub proof fn law_numstat_line_adds_counts(
    m: Map<Seq<char>, (int, int)>,
    additions: Seq<char>,
    deletions: Seq<char>,
    path: Seq<char>,
)
    requires
        lacks(additions, '\t') && lacks(additions, '\n'),
        lacks(deletions, '\t') && lacks(deletions, '\n'),
        lacks(path, '\t') && lacks(path, '\n'),
    ensures
        ({
            let line = additions + seq!['\t'] + deletions + seq!['\t'] + path;
            let prev = if m.contains_key(path) {
                m[path]
            } else {
                (0, 0)
            };
            numstat_totals(m, lines(line)) == m.insert(
                path,
                (prev.0 + count_or_zero(additions), prev.1 + count_or_zero(deletions)),
            )
        }),
{
    let rest = deletions + seq!['\t'] + path;
    let line = additions + seq!['\t'] + deletions + seq!['\t'] + path;
    assert(line =~= additions + seq!['\t'] + rest);
    lemma_split_on_prefix_piece(additions, rest, '\t');
    lemma_split_on_prefix_piece(deletions, path, '\t');
    lemma_split_on_no_sep(path, '\t');
    assert(split_on(line, '\t') =~= seq![additions, deletions, path]);
    assert(lacks(line, '\n')) by {
        assert forall|i: int| 0 <= i < line.len() implies line[i] != '\n' by {
            if i < additions.len() {
                assert(line[i] == additions[i]);
            } else if i == additions.len() {
            } else if i < additions.len() + 1 + deletions.len() {
                assert(line[i] == deletions[i - additions.len() - 1]);
            } else if i == additions.len() + 1 + deletions.len() {
            } else {
                assert(line[i] == path[i - additions.len() - 2 - deletions.len()]);
            }
        }
    }
    lemma_split_on_no_sep(line, '\n');
    assert(lines(line) =~= seq![line]);
    assert(numstat_totals(m, lines(line)) == numstat_totals(
        numstat_line_totals(m, line),
        lines(line).drop_first(),
    ));
    assert(lines(line).drop_first() =~= Seq::<Seq<char>>::empty());
}

} // verus!
