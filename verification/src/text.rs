//! Character-level string helpers and their specifications.

use vstd::prelude::*;

verus! {

/// Unicode `White_Space` property, the set that `char::is_whitespace` documents.
pub open spec fn is_white_space(c: char) -> bool {
    let u = c as u32;
    ||| 0x09 <= u <= 0x0d
    ||| u == 0x20
    ||| u == 0x85
    ||| u == 0xa0
    ||| u == 0x1680
    ||| 0x2000 <= u <= 0x200a
    ||| u == 0x2028
    ||| u == 0x2029
    ||| u == 0x202f
    ||| u == 0x205f
    ||| u == 0x3000
}

/// Drops the leading characters that satisfy `p`.
pub open spec fn strip_start(s: Seq<char>, p: spec_fn(char) -> bool) -> Seq<char>
    decreases s.len(),
{
    if s.len() > 0 && p(s[0]) {
        strip_start(s.drop_first(), p)
    } else {
        s
    }
}

/// Drops the trailing characters that satisfy `p`.
pub open spec fn strip_end(s: Seq<char>, p: spec_fn(char) -> bool) -> Seq<char>
    decreases s.len(),
{
    if s.len() > 0 && p(s.last()) {
        strip_end(s.drop_last(), p)
    } else {
        s
    }
}

pub open spec fn white_space_pred() -> spec_fn(char) -> bool {
    |c: char| is_white_space(c)
}

/// `str::trim`: white space removed at both ends.
pub open spec fn trim(s: Seq<char>) -> Seq<char> {
    strip_end(strip_start(s, white_space_pred()), white_space_pred())
}

/// `str::trim_start`.
pub open spec fn trim_start(s: Seq<char>) -> Seq<char> {
    strip_start(s, white_space_pred())
}

/// `str::trim_end`.
pub open spec fn trim_end(s: Seq<char>) -> Seq<char> {
    strip_end(s, white_space_pred())
}

/// `char::is_whitespace`.
pub fn char_is_whitespace(c: char) -> (b: bool)
    ensures
        b == is_white_space(c),
{
    let u = c as u32;
    (0x09 <= u && u <= 0x0d) || u == 0x20 || u == 0x85 || u == 0xa0 || u == 0x1680 || (0x2000
        <= u && u <= 0x200a) || u == 0x2028 || u == 0x2029 || u == 0x202f || u == 0x205f || u
        == 0x3000
}

/// `String::push`: appends `c` to the string, which std documents as its whole effect.
#[verifier::external_body]
fn string_push(s: &mut String, c: char)
    ensures
        final(s)@ == old(s)@.push(c),
{
    s.push(c);
}

/// The characters of `s`, in order.
pub fn chars_of(s: &str) -> (v: Vec<char>)
    ensures
        v@ == s@,
{
    let mut v: Vec<char> = Vec::new();
    for c in it: s.chars()
        invariant
            v@ == it.seq().take(it.index() as int),
    {
        v.push(c);
    }
    v
}


/// A `String` holding exactly the characters of `v`.
pub fn string_from_chars(v: &[char]) -> (s: String)
    ensures
        s@ == v@,
{
    let mut s = String::new();
    let mut i: usize = 0;
    while i < v.len()
        invariant
            i <= v.len(),
            s@ == v@.take(i as int),
        decreases v.len() - i,
    {
        string_push(&mut s, v[i]);
        i = i + 1;
        assert(v@.take(i as int) =~= v@.take((i - 1) as int).push(v@[i - 1]));
    }
    assert(v@.take(i as int) =~= v@);
    s
}

pub open spec fn quote_pred() -> spec_fn(char) -> bool {
    |c: char| c == '"'
}

/// `str::trim_matches('"')`: double quotes removed at both ends.
pub open spec fn strip_quotes(s: Seq<char>) -> Seq<char> {
    strip_end(strip_start(s, quote_pred()), quote_pred())
}

fn strippable(c: char, quotes: bool) -> (b: bool)
    ensures
        b == (if quotes { quote_pred() } else { white_space_pred() })(c),
{
    if quotes {
        c == '"'
    } else {
        char_is_whitespace(c)
    }
}

/// Bounds `(lo, hi)` of what remains of `v@` once leading and trailing white space
/// (or, with `quotes`, double quotes) are removed.
pub fn strip_bounds(v: &[char], quotes: bool) -> (r: (usize, usize))
    ensures
        r.0 <= r.1 <= v@.len(),
        quotes ==> v@.subrange(r.0 as int, r.1 as int) == strip_quotes(v@),
        !quotes ==> v@.subrange(r.0 as int, r.1 as int) == trim(v@),
        quotes ==> strip_start(v@, quote_pred()) == v@.skip(r.0 as int),
        !quotes ==> trim_start(v@) == v@.skip(r.0 as int),
{
    let ghost p = if quotes { quote_pred() } else { white_space_pred() };
    let mut lo: usize = 0;
    assert(v@.skip(0) =~= v@);
    while lo < v.len() && strippable(v[lo], quotes)
        invariant
            lo <= v.len(),
            p == (if quotes { quote_pred() } else { white_space_pred() }),
            strip_start(v@, p) == strip_start(v@.skip(lo as int), p),
        decreases v.len() - lo,
    {
        assert(v@.skip(lo as int).drop_first() =~= v@.skip(lo + 1));
        lo = lo + 1;
    }
    assert(strip_start(v@, p) == v@.skip(lo as int));
    let mut hi: usize = v.len();
    assert(v@.skip(lo as int) =~= v@.subrange(lo as int, hi as int));
    while hi > lo && strippable(v[hi - 1], quotes)
        invariant
            lo <= hi <= v.len(),
            p == (if quotes { quote_pred() } else { white_space_pred() }),
            strip_end(strip_start(v@, p), p) == strip_end(v@.subrange(lo as int, hi as int), p),
        decreases hi,
    {
        assert(v@.subrange(lo as int, hi as int).drop_last() =~= v@.subrange(
            lo as int,
            hi - 1,
        ));
        hi = hi - 1;
    }
    (lo, hi)
}

/// `str::trim` on characters.
pub fn trim_chars(v: &[char]) -> (r: Vec<char>)
    ensures
        r@ == trim(v@),
{
    let (lo, hi) = strip_bounds(v, false);
    slice_subrange(v, lo, hi)
}

/// `str::trim_matches('"')` on characters.
pub fn strip_quote_chars(v: &[char]) -> (r: Vec<char>)
    ensures
        r@ == strip_quotes(v@),
{
    let (lo, hi) = strip_bounds(v, true);
    slice_subrange(v, lo, hi)
}

/// A copy of `v[lo..hi]`.
pub fn slice_subrange(v: &[char], lo: usize, hi: usize) -> (r: Vec<char>)
    requires
        lo <= hi <= v@.len(),
    ensures
        r@ == v@.subrange(lo as int, hi as int),
{
    let mut r: Vec<char> = Vec::new();
    let mut i = lo;
    while i < hi
        invariant
            lo <= i <= hi <= v@.len(),
            r@ == v@.subrange(lo as int, i as int),
        decreases hi - i,
    {
        r.push(v[i]);
        i = i + 1;
        assert(r@ =~= v@.subrange(lo as int, i as int));
    }
    r
}


/// `str::split(sep)`: the pieces between separators, an empty one included at either end.
pub open spec fn split_on(s: Seq<char>, sep: char) -> Seq<Seq<char>>
    decreases s.len(),
{
    if s.len() == 0 {
        seq![Seq::<char>::empty()]
    } else {
        let rest = split_on(s.drop_first(), sep);
        if s[0] == sep {
            seq![Seq::<char>::empty()] + rest
        } else {
            rest.update(0, seq![s[0]] + rest[0])
        }
    }
}

/// `str::split('\n')`.
pub open spec fn split_newlines(s: Seq<char>) -> Seq<Seq<char>> {
    split_on(s, '\n')
}

/// A piece that a newline ended loses one trailing carriage return.
pub open spec fn strip_cr(l: Seq<char>) -> Seq<char> {
    if l.len() > 0 && l.last() == '\r' {
        l.drop_last()
    } else {
        l
    }
}

/// `str::lines`: lines end at `\n` or `\r\n`; a final empty piece yields no line.
pub open spec fn lines(s: Seq<char>) -> Seq<Seq<char>> {
    let p = split_newlines(s);
    let n = p.len() as int;
    let count = if p[n - 1].len() == 0 { n - 1 } else { n };
    Seq::new(count as nat, |k: int| if k < n - 1 { strip_cr(p[k]) } else { p[k] })
}

pub proof fn lemma_split_on_nonempty(s: Seq<char>, sep: char)
    ensures
        split_on(s, sep).len() >= 1,
    decreases s.len(),
{
    if s.len() > 0 {
        lemma_split_on_nonempty(s.drop_first(), sep);
    }
}

/// The pieces of `v@` between separators (`str::split(sep)`).
pub fn split_pieces(v: &[char], sep: char) -> (r: Vec<Vec<char>>)
    ensures
        r@.len() == split_on(v@, sep).len(),
        forall|k: int| 0 <= k < r@.len() ==> (#[trigger] r@[k])@ == split_on(v@, sep)[k],
{
    let mut pieces: Vec<Vec<char>> = Vec::new();
    let ghost mut pv: Seq<Seq<char>> = Seq::empty();
    let mut cur: Vec<char> = Vec::new();
    let mut i: usize = 0;
    proof {
        assert(v@.skip(0) =~= v@);
        lemma_split_on_nonempty(v@, sep);
        assert(split_on(v@, sep) =~= pv + seq![cur@ + split_on(v@.skip(0), sep)[0]]
            + split_on(v@.skip(0), sep).drop_first());
    }
    while i < v.len()
        invariant
            i <= v.len(),
            pieces@.len() == pv.len(),
            forall|k: int| 0 <= k < pv.len() ==> (#[trigger] pieces@[k])@ == pv[k],
            split_on(v@, sep) == pv + seq![cur@ + split_on(v@.skip(i as int), sep)[0]]
                + split_on(v@.skip(i as int), sep).drop_first(),
        decreases v.len() - i,
    {
        let ghost t = v@.skip(i as int);
        let ghost rest = split_on(t.drop_first(), sep);
        proof {
            assert(t.drop_first() =~= v@.skip(i + 1));
            lemma_split_on_nonempty(t.drop_first(), sep);
        }
        if v[i] == sep {
            proof {
                assert(split_on(t, sep) == seq![Seq::<char>::empty()] + rest);
                assert(split_on(v@, sep) =~= (pv + seq![cur@]) + seq![
                    Seq::<char>::empty() + rest[0]] + rest.drop_first());
                pv = pv + seq![cur@];
            }
            pieces.push(cur);
            cur = Vec::new();
        } else {
            proof {
                assert(split_on(t, sep) == rest.update(0, seq![v@[i as int]] + rest[0]));
                assert(split_on(t, sep)[0] == seq![v@[i as int]] + rest[0]);
                assert(split_on(t, sep).drop_first() =~= rest.drop_first());
                assert(cur@ + (seq![v@[i as int]] + rest[0]) =~= cur@.push(v@[i as int])
                    + rest[0]);
                assert(split_on(v@, sep) =~= pv + seq![cur@.push(v@[i as int]) + rest[0]]
                    + rest.drop_first());
            }
            cur.push(v[i]);
        }
        i = i + 1;
    }
    proof {
        assert(v@.skip(i as int) =~= Seq::<char>::empty());
        assert(split_on(v@, sep) =~= pv + seq![cur@]);
        pv = pv + seq![cur@];
    }
    pieces.push(cur);
    pieces
}

/// The lines of `v@` (`str::lines`).
pub fn lines_of(v: &[char]) -> (r: Vec<Vec<char>>)
    ensures
        r@.len() == lines(v@).len(),
        forall|k: int| 0 <= k < r@.len() ==> (#[trigger] r@[k])@ == lines(v@)[k],
{
    let pieces = split_pieces(v, '\n');
    proof {
        lemma_split_on_nonempty(v@, '\n');
    }
    let n = pieces.len();
    let count = if pieces[n - 1].len() == 0 { n - 1 } else { n };
    let mut r: Vec<Vec<char>> = Vec::new();
    let mut k: usize = 0;
    while k < count
        invariant
            n == pieces@.len(),
            n == split_newlines(v@).len(),
            count <= n,
            count == lines(v@).len(),
            forall|j: int| 0 <= j < n ==> (#[trigger] pieces@[j])@ == split_newlines(v@)[j],
            k <= count,
            r@.len() == k,
            forall|j: int| 0 <= j < k ==> (#[trigger] r@[j])@ == lines(v@)[j],
        decreases count - k,
    {
        let piece = &pieces[k];
        let plen = piece.len();
        let line = if k + 1 < n && plen > 0 && piece[plen - 1] == '\r' {
            slice_subrange(piece.as_slice(), 0, plen - 1)
        } else {
            slice_subrange(piece.as_slice(), 0, plen)
        };
        proof {
            assert(piece@.subrange(0, plen as int) =~= piece@);
            assert(piece@.subrange(0, plen - 1) =~= piece@.drop_last());
        }
        r.push(line);
        k = k + 1;
    }
    r
}


/// `p` occurs in `s` at character index `i`.
pub open spec fn occurs_at(s: Seq<char>, p: Seq<char>, i: int) -> bool {
    0 <= i && i + p.len() <= s.len() && s.subrange(i, i + p.len()) == p
}

/// First occurrence of `p` in `s` at or after `i`.
pub open spec fn find_from(s: Seq<char>, p: Seq<char>, i: int) -> Option<int>
    decreases s.len() + 1 - i,
{
    if i < 0 || i + p.len() > s.len() {
        None
    } else if occurs_at(s, p, i) {
        Some(i)
    } else {
        find_from(s, p, i + 1)
    }
}

/// `str::find` with a string pattern, as a character index.
pub open spec fn find(s: Seq<char>, p: Seq<char>) -> Option<int> {
    find_from(s, p, 0)
}

fn occurs_at_exec(s: &[char], p: &[char], i: usize) -> (b: bool)
    requires
        i + p@.len() <= s@.len(),
    ensures
        b == occurs_at(s@, p@, i as int),
{
    let n = s.len();
    let mut j: usize = 0;
    while j < p.len()
        invariant
            n == s@.len(),
            i + p@.len() <= s@.len(),
            j <= p@.len(),
            forall|k: int| 0 <= k < j ==> s@[i + k] == p@[k],
        decreases p.len() - j,
    {
        if s[i + j] != p[j] {
            assert(s@.subrange(i as int, i + p@.len())[j as int] != p@[j as int]);
            return false;
        }
        j = j + 1;
    }
    assert(s@.subrange(i as int, i + p@.len()) =~= p@);
    true
}

/// Character index of the first occurrence of `p` in `s`.
pub fn find_chars(s: &[char], p: &[char]) -> (r: Option<usize>)
    ensures
        r matches Some(i) ==> find(s@, p@) == Some(i as int),
        r is None ==> find(s@, p@) is None,
{
    if p.len() > s.len() {
        return None;
    }
    let last = s.len() - p.len();
    let mut i: usize = 0;
    loop
        invariant
            last + p@.len() == s@.len(),
            i <= last,
            find(s@, p@) == find_from(s@, p@, i as int),
        decreases last - i,
    {
        if occurs_at_exec(s, p, i) {
            return Some(i);
        }
        if i == last {
            assert(find_from(s@, p@, i + 1) is None);
            return None;
        }
        i = i + 1;
    }
}

pub proof fn lemma_find_from_occurs(s: Seq<char>, p: Seq<char>, i: int)
    ensures
        find_from(s, p, i) matches Some(j) ==> occurs_at(s, p, j) && i <= j,
    decreases s.len() + 1 - i,
{
    if !(i < 0 || i + p.len() > s.len()) && !occurs_at(s, p, i) {
        lemma_find_from_occurs(s, p, i + 1);
    }
}


/// The order of `String`s: lexicographic by character code.
pub open spec fn str_lt(a: Seq<char>, b: Seq<char>) -> bool
    decreases a.len(),
{
    if a.len() == 0 {
        b.len() > 0
    } else if b.len() == 0 {
        false
    } else if a[0] != b[0] {
        a[0] < b[0]
    } else {
        str_lt(a.drop_first(), b.drop_first())
    }
}

pub proof fn lemma_str_lt_irreflexive(a: Seq<char>)
    ensures
        !str_lt(a, a),
    decreases a.len(),
{
    if a.len() > 0 {
        lemma_str_lt_irreflexive(a.drop_first());
    }
}

pub proof fn lemma_str_lt_transitive(a: Seq<char>, b: Seq<char>, c: Seq<char>)
    requires
        str_lt(a, b),
        str_lt(b, c),
    ensures
        str_lt(a, c),
    decreases a.len(),
{
    if a.len() > 0 && b.len() > 0 && c.len() > 0 && a[0] == b[0] && b[0] == c[0] {
        lemma_str_lt_transitive(a.drop_first(), b.drop_first(), c.drop_first());
    }
}

pub proof fn lemma_str_lt_total(a: Seq<char>, b: Seq<char>)
    ensures
        a == b || str_lt(a, b) || str_lt(b, a),
    decreases a.len(),
{
    if a.len() > 0 && b.len() > 0 && a[0] == b[0] {
        lemma_str_lt_total(a.drop_first(), b.drop_first());
        if a.drop_first() == b.drop_first() {
            assert(a =~= seq![a[0]] + a.drop_first());
            assert(b =~= seq![b[0]] + b.drop_first());
        }
    } else if a.len() == 0 && b.len() == 0 {
        assert(a =~= b);
    }
}

/// Whether `a` comes before `b` in the order of `String`s.
pub fn chars_less(a: &[char], b: &[char]) -> (r: bool)
    ensures
        r == str_lt(a@, b@),
{
    let mut i: usize = 0;
    proof {
        assert(a@.skip(0) =~= a@);
        assert(b@.skip(0) =~= b@);
    }
    while i < a.len() && i < b.len() && a[i] == b[i]
        invariant
            i <= a@.len(),
            i <= b@.len(),
            str_lt(a@, b@) == str_lt(a@.skip(i as int), b@.skip(i as int)),
        decreases a.len() - i,
    {
        assert(a@.skip(i as int).drop_first() =~= a@.skip(i + 1));
        assert(b@.skip(i as int).drop_first() =~= b@.skip(i + 1));
        i = i + 1;
    }
    if i == a.len() {
        i < b.len()
    } else if i == b.len() {
        false
    } else {
        a[i] < b[i]
    }
}


/// Whether two character sequences of equal length are equal.
pub fn chars_equal(a: &[char], b: &[char]) -> (r: bool)
    requires
        a@.len() == b@.len(),
    ensures
        r == (a@ == b@),
{
    let mut i: usize = 0;
    while i < a.len()
        invariant
            a@.len() == b@.len(),
            i <= a@.len(),
            forall|k: int| 0 <= k < i ==> a@[k] == b@[k],
        decreases a.len() - i,
    {
        if a[i] != b[i] {
            return false;
        }
        i = i + 1;
    }
    assert(a@ =~= b@);
    true
}


/// The ASCII digit for `d < 10`.
pub open spec fn digit_char(d: nat) -> char {
    ((d + 48) as u8) as char
}

/// The decimal digits of `n`, most significant first, as `u64`'s `Display` writes them.
pub open spec fn decimal(n: nat) -> Seq<char>
    decreases n,
{
    if n < 10 {
        seq![digit_char(n)]
    } else {
        decimal(n / 10).push(digit_char(n % 10))
    }
}

/// The decimal digits of `n`.
pub fn decimal_chars(n: u64) -> (r: Vec<char>)
    ensures
        r@ == decimal(n as nat),
    decreases n,
{
    if n < 10 {
        let mut r: Vec<char> = Vec::new();
        r.push(((n as u8) + 48) as char);
        assert(r@ =~= seq![digit_char(n as nat)]);
        r
    } else {
        let mut r = decimal_chars(n / 10);
        r.push((((n % 10) as u8) + 48) as char);
        r
    }
}


/// A text cut to at most `max` characters: a longer text keeps `max - 3` characters and
/// gains "...", or, when `max < 3`, keeps its first `max` characters.
pub open spec fn truncated_text(t: Seq<char>, max: nat) -> Seq<char> {
    if t.len() <= max {
        t
    } else if max >= 3 {
        t.take(max - 3) + seq!['.', '.', '.']
    } else {
        t.take(max as int)
    }
}

/// Cuts `text` to at most `max` characters, marking a cut with "..." where there is room.
pub fn truncate_text(text: &str, max: usize) -> (r: String)
    ensures
        r@ == truncated_text(text@, max as nat),
{
    let v = chars_of(text);
    if v.len() <= max {
        return string_from_chars(v.as_slice());
    }
    if max >= 3 {
        let mut t = slice_subrange(v.as_slice(), 0, max - 3);
        t.push('.');
        t.push('.');
        t.push('.');
        assert(t@ =~= v@.take(max - 3) + seq!['.', '.', '.']);
        string_from_chars(t.as_slice())
    } else {
        let t = slice_subrange(v.as_slice(), 0, max);
        string_from_chars(t.as_slice())
    }
}


/// `c` does not occur in `s`.
pub open spec fn lacks(s: Seq<char>, c: char) -> bool {
    forall|i: int| 0 <= i < s.len() ==> s[i] != c
}

/// What `strip_start` keeps is a suffix of `s` that does not start with a stripped
/// character.
pub proof fn lemma_strip_start_suffix(s: Seq<char>, p: spec_fn(char) -> bool)
    ensures
        strip_start(s, p).len() <= s.len(),
        strip_start(s, p) == s.skip(s.len() - strip_start(s, p).len()),
        strip_start(s, p).len() > 0 ==> !p(strip_start(s, p)[0]),
    decreases s.len(),
{
    if s.len() > 0 && p(s[0]) {
        lemma_strip_start_suffix(s.drop_first(), p);
        assert(s.drop_first().skip(s.drop_first().len() - strip_start(s, p).len()) =~= s.skip(
            s.len() - strip_start(s, p).len(),
        ));
    } else {
        assert(s.skip(0) =~= s);
    }
}

/// What `strip_end` keeps is a prefix of `s` that does not end with a stripped
/// character.
pub proof fn lemma_strip_end_prefix(s: Seq<char>, p: spec_fn(char) -> bool)
    ensures
        strip_end(s, p).len() <= s.len(),
        strip_end(s, p) == s.take(strip_end(s, p).len() as int),
        strip_end(s, p).len() > 0 ==> !p(strip_end(s, p).last()),
    decreases s.len(),
{
    if s.len() > 0 && p(s.last()) {
        lemma_strip_end_prefix(s.drop_last(), p);
        assert(s.drop_last().take(strip_end(s, p).len() as int) =~= s.take(
            strip_end(s, p).len() as int,
        ));
    } else {
        assert(s.take(s.len() as int) =~= s);
    }
}

/// Stripping both ends keeps a stretch of `s` that starts and ends with kept
/// characters, so stripping again changes nothing.
pub proof fn lemma_strip_both(s: Seq<char>, p: spec_fn(char) -> bool)
    ensures
        ({
            let t = strip_end(strip_start(s, p), p);
            &&& t.len() <= s.len()
            &&& (forall|c: char| lacks(s, c) ==> lacks(t, c))
            &&& t.len() > 0 ==> !p(t[0]) && !p(t.last())
            &&& strip_end(strip_start(t, p), p) == t
        }),
{
    let u = strip_start(s, p);
    let t = strip_end(u, p);
    lemma_strip_start_suffix(s, p);
    lemma_strip_end_prefix(u, p);
    assert forall|c: char| lacks(s, c) implies lacks(t, c) by {
        assert forall|i: int| 0 <= i < t.len() implies t[i] != c by {
            assert(t[i] == u[i]);
            assert(u[i] == s[s.len() - u.len() + i]);
        }
    }
    if t.len() > 0 {
        assert(t[0] == u[0]);
        assert(strip_start(t, p) == t);
        assert(strip_end(t, p) == t);
    } else {
        assert(strip_start(t, p) == t);
        assert(strip_end(t, p) == t);
    }
}

/// Taking a prefix keeps a missing character missing.
pub proof fn lemma_take_lacks(s: Seq<char>, n: int, c: char)
    requires
        0 <= n <= s.len(),
        lacks(s, c),
    ensures
        lacks(s.take(n), c),
{
}

/// The pieces between separators hold no separator.
pub proof fn lemma_split_on_lacks(s: Seq<char>, sep: char)
    ensures
        forall|k: int| 0 <= k < split_on(s, sep).len() ==> lacks(#[trigger] split_on(s, sep)[k], sep),
    decreases s.len(),
{
    if s.len() > 0 {
        lemma_split_on_lacks(s.drop_first(), sep);
        lemma_split_on_nonempty(s.drop_first(), sep);
        let rest = split_on(s.drop_first(), sep);
        if s[0] != sep {
            assert(lacks(seq![s[0]] + rest[0], sep));
            assert forall|k: int| 0 <= k < split_on(s, sep).len() implies lacks(
                #[trigger] split_on(s, sep)[k],
                sep,
            ) by {
                if k > 0 {
                    assert(split_on(s, sep)[k] == rest[k]);
                }
            }
        } else {
            assert forall|k: int| 0 <= k < split_on(s, sep).len() implies lacks(
                #[trigger] split_on(s, sep)[k],
                sep,
            ) by {
                if k > 0 {
                    assert(split_on(s, sep)[k] == rest[k - 1]);
                }
            }
        }
    }
}

/// No line holds a newline.
pub proof fn lemma_lines_lack_newline(s: Seq<char>)
    ensures
        forall|k: int| 0 <= k < lines(s).len() ==> lacks(#[trigger] lines(s)[k], '\n'),
{
    lemma_split_on_lacks(s, '\n');
    lemma_split_on_nonempty(s, '\n');
    let p = split_newlines(s);
    assert forall|k: int| 0 <= k < lines(s).len() implies lacks(#[trigger] lines(s)[k], '\n') by {
        assert(lacks(p[k], '\n'));
        if k < p.len() - 1 && p[k].len() > 0 && p[k].last() == '\r' {
            lemma_take_lacks(p[k], p[k].len() - 1, '\n');
            assert(p[k].drop_last() =~= p[k].take(p[k].len() - 1));
        }
    }
}


/// A sequence without the separator is a single piece.
pub proof fn lemma_split_on_no_sep(s: Seq<char>, sep: char)
    requires
        lacks(s, sep),
    ensures
        split_on(s, sep) == seq![s],
    decreases s.len(),
{
    if s.len() > 0 {
        lemma_split_on_no_sep(s.drop_first(), sep);
        assert(seq![s[0]] + s.drop_first() =~= s);
        assert(split_on(s, sep) =~= seq![s]);
    } else {
        assert(s =~= Seq::<char>::empty());
        assert(split_on(s, sep) =~= seq![s]);
    }
}

/// A piece without the separator, then the separator, then anything: the piece comes
/// first, then the pieces of the rest.
pub proof fn lemma_split_on_prefix_piece(l: Seq<char>, s: Seq<char>, sep: char)
    requires
        lacks(l, sep),
    ensures
        split_on(l + seq![sep] + s, sep) == seq![l] + split_on(s, sep),
    decreases l.len(),
{
    let x = l + seq![sep] + s;
    if l.len() == 0 {
        assert(l =~= Seq::<char>::empty());
        assert(x.drop_first() =~= s);
        assert(x[0] == sep);
        assert(split_on(x, sep) =~= seq![l] + split_on(s, sep));
    } else {
        let l1 = l.drop_first();
        assert(x.drop_first() =~= l1 + seq![sep] + s);
        assert(x[0] == l[0]);
        lemma_split_on_prefix_piece(l1, s, sep);
        assert(seq![l[0]] + l1 =~= l);
        assert(split_on(x, sep) =~= seq![l] + split_on(s, sep));
    }
}

/// A sequence ending with the separator ends with an empty piece after at least one
/// other.
pub proof fn lemma_split_on_ends_with_sep(s: Seq<char>, sep: char)
    requires
        s.len() > 0,
        s.last() == sep,
    ensures
        split_on(s, sep).len() >= 2,
        split_on(s, sep).last() == Seq::<char>::empty(),
    decreases s.len(),
{
    let t = s.drop_first();
    if t.len() == 0 {
        assert(s[0] == sep);
        assert(split_on(t, sep) =~= seq![Seq::<char>::empty()]);
    } else {
        assert(t.last() == s.last());
        lemma_split_on_ends_with_sep(t, sep);
    }
}

/// Pieces of a sequence that ends with the separator, then of another: the first's
/// trailing empty piece gives way to the second's pieces.
pub proof fn lemma_split_on_concat(x: Seq<char>, y: Seq<char>, sep: char)
    requires
        x.len() > 0,
        x.last() == sep,
    ensures
        split_on(x + y, sep) == split_on(x, sep).drop_last() + split_on(y, sep),
    decreases x.len(),
{
    let t = x.drop_first();
    lemma_split_on_nonempty(y, sep);
    assert((x + y).drop_first() =~= t + y);
    assert((x + y)[0] == x[0]);
    if t.len() == 0 {
        assert(x[0] == sep);
        assert(split_on(t, sep) =~= seq![Seq::<char>::empty()]);
        assert(split_on(x + y, sep) =~= split_on(x, sep).drop_last() + split_on(y, sep));
    } else {
        assert(t.last() == x.last());
        lemma_split_on_concat(t, y, sep);
        lemma_split_on_ends_with_sep(t, sep);
        let st = split_on(t, sep);
        if x[0] == sep {
            assert(split_on(x + y, sep) =~= split_on(x, sep).drop_last() + split_on(y, sep));
        } else {
            let r = split_on(t + y, sep);
            assert(r[0] == st[0]);
            assert(split_on(x + y, sep) =~= split_on(x, sep).drop_last() + split_on(y, sep));
        }
    }
}

/// The lines of a text that is empty or ends with a newline, then of another, are the
/// lines of the two texts one after the other.
pub proof fn lemma_lines_concat(a: Seq<char>, b: Seq<char>)
    requires
        a.len() == 0 || a.last() == '\n',
    ensures
        lines(a + b) == lines(a) + lines(b),
{
    if a.len() == 0 {
        assert(a + b =~= b);
        assert(split_newlines(a) =~= seq![Seq::<char>::empty()]);
        assert(lines(a) =~= Seq::<Seq<char>>::empty());
        assert(lines(a + b) =~= lines(a) + lines(b));
    } else {
        lemma_split_on_concat(a, b, '\n');
        lemma_split_on_ends_with_sep(a, '\n');
        lemma_split_on_nonempty(b, '\n');
        let pa = split_newlines(a);
        let pb = split_newlines(b);
        let p = split_newlines(a + b);
        assert(p == pa.drop_last() + pb);
        assert(p.last() == pb.last());
        assert(lines(a).len() == pa.len() - 1);
        assert forall|k: int| 0 <= k < lines(a + b).len() implies lines(a + b)[k] == (lines(a)
            + lines(b))[k] by {
            if k < pa.len() - 1 {
                assert(p[k] == pa[k]);
            } else {
                assert(p[k] == pb[k - (pa.len() - 1)]);
            }
        }
        assert(lines(a + b) =~= lines(a) + lines(b));
    }
}

/// Dropping the last character before stripping the start drops the last character of
/// what is kept, when something is kept.
pub proof fn lemma_strip_start_drop_last(s: Seq<char>, p: spec_fn(char) -> bool)
    requires
        strip_start(s, p).len() > 0,
    ensures
        strip_start(s.drop_last(), p) == strip_start(s, p).drop_last(),
    decreases s.len(),
{
    if p(s[0]) {
        let t = s.drop_first();
        lemma_strip_start_drop_last(t, p);
        assert(s.drop_last().drop_first() =~= t.drop_last());
        assert(s.drop_last().len() > 0 && s.drop_last()[0] == s[0]);
    } else if s.len() == 1 {
        assert(s.drop_last() =~= Seq::<char>::empty());
    } else {
        assert(s.drop_last()[0] == s[0]);
    }
}

/// A carriage return at the end makes no difference to the trimmed text.
pub proof fn lemma_trim_strip_cr(l: Seq<char>)
    ensures
        trim(strip_cr(l)) == trim(l),
{
    if l.len() > 0 && l.last() == '\r' {
        let p = white_space_pred();
        let u = strip_start(l, p);
        lemma_strip_start_suffix(l, p);
        if u.len() > 0 {
            lemma_strip_start_drop_last(l, p);
            assert(u.last() == l.last());
            assert(strip_end(u, p) == strip_end(u.drop_last(), p));
        } else {
            lemma_strip_start_suffix(l.drop_last(), p);
            assert(strip_start(l.drop_last(), p).len() == 0) by {
                if strip_start(l.drop_last(), p).len() > 0 {
                    lemma_strip_start_lengthen(l.drop_last(), seq!['\r'], p);
                    assert(l.drop_last() + seq!['\r'] =~= l);
                }
            }
        }
    }
}

/// Appending keeps a non-empty stripped start non-empty.
pub proof fn lemma_strip_start_lengthen(s: Seq<char>, t: Seq<char>, p: spec_fn(char) -> bool)
    requires
        strip_start(s, p).len() > 0,
    ensures
        strip_start(s + t, p).len() > 0,
    decreases s.len(),
{
    assert((s + t)[0] == s[0]);
    if p(s[0]) {
        assert((s + t).drop_first() =~= s.drop_first() + t);
        lemma_strip_start_lengthen(s.drop_first(), t, p);
    }
}

/// The pieces of a sequence without a character lack it too.
pub proof fn lemma_split_on_lacks_char(s: Seq<char>, sep: char, c: char)
    requires
        lacks(s, c),
    ensures
        forall|k: int| 0 <= k < split_on(s, sep).len() ==> lacks(#[trigger] split_on(s, sep)[k], c),
    decreases s.len(),
{
    if s.len() > 0 {
        lemma_split_on_lacks_char(s.drop_first(), sep, c);
        lemma_split_on_nonempty(s.drop_first(), sep);
        let rest = split_on(s.drop_first(), sep);
        if s[0] != sep {
            assert(lacks(seq![s[0]] + rest[0], c));
            assert forall|k: int| 0 <= k < split_on(s, sep).len() implies lacks(
                #[trigger] split_on(s, sep)[k],
                c,
            ) by {
                if k > 0 {
                    assert(split_on(s, sep)[k] == rest[k]);
                }
            }
        } else {
            assert forall|k: int| 0 <= k < split_on(s, sep).len() implies lacks(
                #[trigger] split_on(s, sep)[k],
                c,
            ) by {
                if k > 0 {
                    assert(split_on(s, sep)[k] == rest[k - 1]);
                }
            }
        }
    }
}

/// The lines of a text without a character lack it too.
pub proof fn lemma_lines_lack_char(s: Seq<char>, c: char)
    requires
        lacks(s, c),
    ensures
        forall|k: int| 0 <= k < lines(s).len() ==> lacks(#[trigger] lines(s)[k], c),
{
    lemma_split_on_lacks_char(s, '\n', c);
    lemma_split_on_nonempty(s, '\n');
    let p = split_newlines(s);
    assert forall|k: int| 0 <= k < lines(s).len() implies lacks(#[trigger] lines(s)[k], c) by {
        assert(lacks(p[k], c));
        if k < p.len() - 1 && p[k].len() > 0 && p[k].last() == '\r' {
            lemma_take_lacks(p[k], p[k].len() - 1, c);
            assert(p[k].drop_last() =~= p[k].take(p[k].len() - 1));
        }
    }
}

} // verus!
