//! Character-level text operations with their specifications: Unicode
//! white space, trimming, splitting, line breaking, ASCII case folding and
//! decimal / hexadecimal rendering of integers.
use vstd::prelude::*;

verus! {

// ------------------------------------------------------------------
// Conversions between `str`/`String` and character vectors
// ------------------------------------------------------------------

/// Appends one character to a string (`String::push`).
#[verifier::external_body]
pub(crate) fn push_char(s: &mut String, c: char)
    ensures
        final(s)@ == old(s)@.push(c),
{
    s.push(c);
}

/// The characters of a string slice, in order.
pub fn chars_of(s: &str) -> (v: Vec<char>)
    ensures
        v@ == s@,
{
    let mut v: Vec<char> = Vec::new();
    for c in it: s.chars()
        invariant
            v@ == it.seq().take(it.index() as int),
    {
        v.push(c);
    }
    v
}

/// The string made of the given characters.
pub fn string_of(v: &[char]) -> (s: String)
    ensures
        s@ == v@,
{
    let mut s = String::new();
    let n = v.len();
    for i in 0..n
        invariant
            n == v@.len(),
            s@ == v@.take(i as int),
    {
        push_char(&mut s, v[i]);
        assert(v@.take(i + 1) =~= v@.take(i as int).push(v@[i as int]));
    }
    assert(v@.take(n as int) =~= v@);
    s
}

/// A copy of `v[lo..hi]`.
pub fn copy_range<T: Copy>(v: &[T], lo: usize, hi: usize) -> (r: Vec<T>)
    requires
        lo <= hi <= v@.len(),
    ensures
        r@ == v@.subrange(lo as int, hi as int),
{
    let mut r: Vec<T> = Vec::new();
    let mut i = lo;
    while i < hi
        invariant
            lo <= i <= hi <= v@.len(),
            r@ == v@.subrange(lo as int, i as int),
        decreases hi - i,
    {
        r.push(v[i]);
        assert(v@.subrange(lo as int, i + 1) =~= v@.subrange(lo as int, i as int).push(v@[i as int]));
        i = i + 1;
    }
    r
}

/// Appends all of `src` to `dst`.
pub fn extend_chars(dst: &mut Vec<char>, src: &[char])
    ensures
        final(dst)@ == old(dst)@ + src@,
{
    let n = src.len();
    for i in 0..n
        invariant
            n == src@.len(),
            dst@ == old(dst)@ + src@.take(i as int),
    {
        dst.push(src[i]);
        assert(src@.take(i + 1) =~= src@.take(i as int).push(src@[i as int]));
        assert(old(dst)@ + src@.take(i + 1) =~= (old(dst)@ + src@.take(i as int)).push(src@[i as int]));
    }
    assert(src@.take(n as int) =~= src@);
}

/// Appends the characters of a string slice to a character vector.
pub fn extend_str(dst: &mut Vec<char>, src: &str)
    ensures
        final(dst)@ == old(dst)@ + src@,
{
    let v = chars_of(src);
    extend_chars(dst, v.as_slice());
}

/// Whether two character slices hold the same characters.
pub fn chars_eq(a: &[char], b: &[char]) -> (r: bool)
    ensures
        r == (a@ == b@),
{
    if a.len() != b.len() {
        return false;
    }
    let n = a.len();
    for i in 0..n
        invariant
            n == a@.len() == b@.len(),
            forall|j: int| 0 <= j < i ==> a@[j] == b@[j],
    {
        if a[i] != b[i] {
            return false;
        }
    }
    assert(a@ =~= b@);
    true
}

// ------------------------------------------------------------------
// Unicode white space and trimming
// ------------------------------------------------------------------

/// The Unicode `White_Space` property (the characters for which
/// `char::is_whitespace` holds).
pub open spec fn is_white_space(c: char) -> bool {
    let u = c as u32;
    ||| 9 <= u <= 13
    ||| u == 32
    ||| u == 0x85
    ||| u == 0xa0
    ||| u == 0x1680
    ||| 0x2000 <= u <= 0x200a
    ||| u == 0x2028
    ||| u == 0x2029
    ||| u == 0x202f
    ||| u == 0x205f
    ||| u == 0x3000
}

/// Executable test of the Unicode `White_Space` property.
pub fn is_whitespace(c: char) -> (r: bool)
    ensures
        r == is_white_space(c),
{
    let u = c as u32;
    (9 <= u && u <= 13) || u == 32 || u == 0x85 || u == 0xa0 || u == 0x1680 || (0x2000 <= u && u
        <= 0x200a) || u == 0x2028 || u == 0x2029 || u == 0x202f || u == 0x205f || u == 0x3000
}

/// The sets of characters that the trimming operations remove.
#[derive(Clone, Copy, PartialEq, Eq, Structural)]
pub enum TrimSet {
    /// Unicode white space.
    WhiteSpace,
    /// The NUL character.
    Nul,
}

/// Whether `c` belongs to `set`.
pub open spec fn in_trim_set(set: TrimSet, c: char) -> bool {
    match set {
        TrimSet::WhiteSpace => is_white_space(c),
        TrimSet::Nul => c as u32 == 0,
    }
}

fn in_set(set: TrimSet, c: char) -> (r: bool)
    ensures
        r == in_trim_set(set, c),
{
    match set {
        TrimSet::WhiteSpace => is_whitespace(c),
        TrimSet::Nul => (c as u32) == 0,
    }
}

/// `s` without its leading characters of `set`.
pub open spec fn trim_start_by(s: Seq<char>, set: TrimSet) -> Seq<char>
    decreases s.len(),
{
    if s.len() > 0 && in_trim_set(set, s[0]) {
        trim_start_by(s.drop_first(), set)
    } else {
        s
    }
}

/// `s` without its trailing characters of `set`.
pub open spec fn trim_end_by(s: Seq<char>, set: TrimSet) -> Seq<char>
    decreases s.len(),
{
    if s.len() > 0 && in_trim_set(set, s.last()) {
        trim_end_by(s.drop_last(), set)
    } else {
        s
    }
}

/// `s` without its leading and trailing characters of `set`.
pub open spec fn trim_by(s: Seq<char>, set: TrimSet) -> Seq<char> {
    trim_end_by(trim_start_by(s, set), set)
}

/// `s` without leading and trailing white space (`str::trim`).
pub open spec fn trim(s: Seq<char>) -> Seq<char> {
    trim_by(s, TrimSet::WhiteSpace)
}

proof fn lemma_trim_start(s: Seq<char>, set: TrimSet, lo: int)
    requires
        0 <= lo <= s.len(),
        forall|j: int| 0 <= j < lo ==> in_trim_set(set, #[trigger] s[j]),
        lo == s.len() || !in_trim_set(set, s[lo]),
    ensures
        trim_start_by(s, set) == s.skip(lo),
    decreases lo,
{
    if lo == 0 {
        assert(s.skip(0) =~= s);
    } else {
        let t = s.drop_first();
        assert forall|j: int| 0 <= j < lo - 1 implies in_trim_set(set, #[trigger] t[j]) by {
            assert(t[j] == s[j + 1]);
        }
        lemma_trim_start(t, set, lo - 1);
        assert(t.skip(lo - 1) =~= s.skip(lo));
    }
}

proof fn lemma_trim_end(s: Seq<char>, set: TrimSet, hi: int)
    requires
        0 <= hi <= s.len(),
        forall|j: int| hi <= j < s.len() ==> in_trim_set(set, #[trigger] s[j]),
        hi == 0 || !in_trim_set(set, s[hi - 1]),
    ensures
        trim_end_by(s, set) == s.take(hi),
    decreases s.len() - hi,
{
    if hi == s.len() {
        assert(s.take(hi) =~= s);
    } else {
        let t = s.drop_last();
        assert forall|j: int| hi <= j < t.len() implies in_trim_set(set, #[trigger] t[j]) by {
            assert(t[j] == s[j]);
        }
        lemma_trim_end(t, set, hi);
        assert(t.take(hi) =~= s.take(hi));
    }
}

/// The bounds `(lo, hi)` of `s` with the characters of `set` trimmed from
/// both ends.
pub fn trim_bounds(s: &[char], set: TrimSet) -> (r: (usize, usize))
    ensures
        r.0 <= r.1 <= s@.len(),
        trim_by(s@, set) == s@.subrange(r.0 as int, r.1 as int),
{
    let n = s.len();
    let mut lo: usize = 0;
    while lo < n && in_set(set, s[lo])
        invariant
            lo <= n == s@.len(),
            forall|j: int| 0 <= j < lo ==> in_trim_set(set, #[trigger] s@[j]),
        decreases n - lo,
    {
        lo = lo + 1;
    }
    proof {
        lemma_trim_start(s@, set, lo as int);
    }
    let mut hi: usize = n;
    while hi > lo && in_set(set, s[hi - 1])
        invariant
            lo <= hi <= n == s@.len(),
            forall|j: int| hi <= j < n ==> in_trim_set(set, #[trigger] s@[j]),
        decreases hi,
    {
        hi = hi - 1;
    }
    proof {
        let t = s@.skip(lo as int);
        assert forall|j: int| hi - lo <= j < t.len() implies in_trim_set(set, #[trigger] t[j]) by {
            assert(t[j] == s@[j + lo]);
        }
        lemma_trim_end(t, set, hi - lo);
        assert(t.take(hi - lo) =~= s@.subrange(lo as int, hi as int));
    }
    (lo, hi)
}

/// A trimmed sequence, when not empty, neither starts nor ends with white
/// space.
pub proof fn lemma_trim_ends(s: Seq<char>)
    ensures
        trim(s).len() > 0 ==> !is_white_space(trim(s)[0]) && !is_white_space(trim(s).last()),
{
    lemma_trim_start_ends(s, TrimSet::WhiteSpace);
    lemma_trim_end_ends(trim_start_by(s, TrimSet::WhiteSpace), TrimSet::WhiteSpace);
    lemma_trim_end_prefix(trim_start_by(s, TrimSet::WhiteSpace), TrimSet::WhiteSpace);
}

proof fn lemma_trim_start_ends(s: Seq<char>, set: TrimSet)
    ensures
        trim_start_by(s, set).len() > 0 ==> !in_trim_set(set, trim_start_by(s, set)[0]),
    decreases s.len(),
{
    if s.len() > 0 && in_trim_set(set, s[0]) {
        lemma_trim_start_ends(s.drop_first(), set);
    }
}

proof fn lemma_trim_end_ends(s: Seq<char>, set: TrimSet)
    ensures
        trim_end_by(s, set).len() > 0 ==> !in_trim_set(set, trim_end_by(s, set).last()),
    decreases s.len(),
{
    if s.len() > 0 && in_trim_set(set, s.last()) {
        lemma_trim_end_ends(s.drop_last(), set);
    }
}

/// Trimming the end keeps a prefix.
proof fn lemma_trim_end_prefix(s: Seq<char>, set: TrimSet)
    ensures
        trim_end_by(s, set).len() <= s.len(),
        forall|i: int| 0 <= i < trim_end_by(s, set).len() ==> #[trigger] trim_end_by(s, set)[i]
            == s[i],
    decreases s.len(),
{
    if s.len() > 0 && in_trim_set(set, s.last()) {
        lemma_trim_end_prefix(s.drop_last(), set);
    }
}

/// `s` with the characters of `set` trimmed from both ends.
pub fn trim_chars_by(s: &[char], set: TrimSet) -> (r: Vec<char>)
    ensures
        r@ == trim_by(s@, set),
{
    let (lo, hi) = trim_bounds(s, set);
    copy_range(s, lo, hi)
}

/// `s` without leading and trailing white space.
pub fn trim_chars(s: &[char]) -> (r: Vec<char>)
    ensures
        r@ == trim(s@),
{
    trim_chars_by(s, TrimSet::WhiteSpace)
}

/// `str::trim` on a string slice.
pub fn trim_str(s: &str) -> (r: String)
    ensures
        r@ == trim(s@),
{
    let v = chars_of(s);
    let t = trim_chars(v.as_slice());
    string_of(t.as_slice())
}

/// The contents of a sequence of character vectors.
pub open spec fn views(v: Seq<Vec<char>>) -> Seq<Seq<char>> {
    v.map_values(|x: Vec<char>| x@)
}

// ------------------------------------------------------------------
// Splitting, lines and words
// ------------------------------------------------------------------

/// The pieces of `s` between occurrences of `sep` (`split` on one
/// separator): never empty; `k` separators give `k + 1` pieces.
pub open spec fn split_on<T>(s: Seq<T>, sep: T) -> Seq<Seq<T>>
    decreases s.len(),
{
    if s.len() == 0 {
        seq![Seq::<T>::empty()]
    } else {
        let p = split_on(s.drop_last(), sep);
        if s.last() == sep {
            p.push(Seq::<T>::empty())
        } else {
            p.update(p.len() - 1, p.last().push(s.last()))
        }
    }
}

/// Splitting always gives at least one piece.
pub proof fn lemma_split_on_nonempty<T>(s: Seq<T>, sep: T)
    ensures
        split_on(s, sep).len() >= 1,
    decreases s.len(),
{
    if s.len() > 0 {
        lemma_split_on_nonempty(s.drop_last(), sep);
    }
}

/// `split_on` of `s.take(i + 1)` in terms of `split_on` of `s.take(i)`.
pub proof fn lemma_split_on_step<T>(s: Seq<T>, sep: T, i: int)
    requires
        0 <= i < s.len(),
    ensures
        split_on(s.take(i + 1), sep) == (if s[i] == sep {
            split_on(s.take(i), sep).push(Seq::<T>::empty())
        } else {
            let p = split_on(s.take(i), sep);
            p.update(p.len() - 1, p.last().push(s[i]))
        }),
{
    assert(s.take(i + 1).drop_last() =~= s.take(i));
}

/// Splits `s` at every occurrence of `sep`.
pub fn split_chars(s: &[char], sep: char) -> (r: Vec<Vec<char>>)
    ensures
        views(r@) == split_on(s@, sep),
{
    let mut parts: Vec<Vec<char>> = Vec::new();
    let mut cur: Vec<char> = Vec::new();
    let n = s.len();
    assert(s@.take(0) =~= Seq::<char>::empty());
    assert(views(parts@).push(cur@) =~= split_on(s@.take(0), sep));
    for i in 0..n
        invariant
            n == s@.len(),
            views(parts@).push(cur@) == split_on(s@.take(i as int), sep),
    {
        proof {
            lemma_split_on_step(s@, sep, i as int);
        }
        let c = s[i];
        if c == sep {
            let ghost old_parts = views(parts@);
            let done = cur;
            parts.push(done);
            cur = Vec::new();
            assert(views(parts@) =~= old_parts.push(done@));
            assert(views(parts@).push(cur@) =~= split_on(s@.take(i + 1), sep));
        } else {
            let ghost before = views(parts@).push(cur@);
            cur.push(c);
            assert(views(parts@).push(cur@) =~= before.update(before.len() - 1, before.last().push(c)));
        }
    }
    let ghost old_parts = views(parts@);
    let last = cur;
    parts.push(last);
    assert(views(parts@) =~= old_parts.push(last@));
    assert(s@.take(n as int) =~= s@);
    parts
}

/// `line` without one trailing carriage return.
pub open spec fn strip_cr(line: Seq<char>) -> Seq<char> {
    if line.len() > 0 && line.last() == '\r' {
        line.drop_last()
    } else {
        line
    }
}

/// The lines of `s` (`str::lines`): split at `'\n'`; a line ended by
/// `"\r\n"` loses the `'\r'`; a final line ending adds no empty line.
pub open spec fn lines(s: Seq<char>) -> Seq<Seq<char>> {
    let p = split_on(s, '\n');
    let ended = p.drop_last().map_values(|l: Seq<char>| strip_cr(l));
    if p.last().len() == 0 {
        ended
    } else {
        ended.push(p.last())
    }
}

fn strip_cr_exec(line: Vec<char>) -> (r: Vec<char>)
    ensures
        r@ == strip_cr(line@),
{
    let mut line = line;
    if line.len() > 0 && line[line.len() - 1] == '\r' {
        line.pop();
    }
    line
}

/// The lines of `s`, as `str::lines` gives them.
pub fn lines_of(s: &[char]) -> (r: Vec<Vec<char>>)
    ensures
        views(r@) == lines(s@),
{
    let parts = split_chars(s, '\n');
    proof {
        lemma_split_on_nonempty(s@, '\n');
    }
    let ghost p = views(parts@);
    let n = parts.len();
    let mut r: Vec<Vec<char>> = Vec::new();
    for i in 0..n - 1
        invariant
            n == p.len() >= 1,
            p == views(parts@),
            views(r@) == p.take(i as int).map_values(|l: Seq<char>| strip_cr(l)),
    {
        let line = copy_range(parts[i].as_slice(), 0, parts[i].len());
        assert(line@ =~= p[i as int]);
        let ghost before = views(r@);
        let stripped = strip_cr_exec(line);
        r.push(stripped);
        assert(views(r@) =~= before.push(stripped@));
        assert(p.take(i + 1).map_values(|l: Seq<char>| strip_cr(l)) =~= p.take(i as int).map_values(
            |l: Seq<char>| strip_cr(l),
        ).push(strip_cr(p[i as int])));
    }
    assert(p.take(n - 1) =~= p.drop_last());
    if parts[n - 1].len() > 0 {
        let last = copy_range(parts[n - 1].as_slice(), 0, parts[n - 1].len());
        assert(last@ =~= p.last());
        let ghost before = views(r@);
        r.push(last);
        assert(views(r@) =~= before.push(last@));
    }
    r
}

/// The white-space separated words of `s` (`str::split_whitespace`).
pub open spec fn words(s: Seq<char>) -> Seq<Seq<char>>
    decreases s.len(),
{
    if s.len() == 0 {
        Seq::empty()
    } else {
        let w = words(s.drop_last());
        if is_white_space(s.last()) {
            w
        } else if s.len() >= 2 && !is_white_space(s[s.len() - 2]) {
            w.update(w.len() - 1, w.last().push(s.last()))
        } else {
            w.push(seq![s.last()])
        }
    }
}

proof fn lemma_words_nonempty(s: Seq<char>)
    requires
        s.len() > 0,
        !is_white_space(s.last()),
    ensures
        words(s).len() >= 1,
    decreases s.len(),
{
    if s.len() >= 2 && !is_white_space(s[s.len() - 2]) {
        let t = s.drop_last();
        assert(t.last() == s[s.len() - 2]);
        lemma_words_nonempty(t);
    }
}

/// The white-space separated words of `s`.
pub fn words_of(s: &[char]) -> (r: Vec<Vec<char>>)
    ensures
        views(r@) == words(s@),
{
    let mut r: Vec<Vec<char>> = Vec::new();
    let n = s.len();
    assert(s@.take(0) =~= Seq::<char>::empty());
    for i in 0..n
        invariant
            n == s@.len(),
            views(r@) == words(s@.take(i as int)),
            i > 0 && !is_white_space(s@[i - 1]) ==> r@.len() >= 1,
    {
        let c = s[i];
        let ghost t = s@.take(i + 1);
        assert(t.drop_last() =~= s@.take(i as int));
        if is_whitespace(c) {
        } else if i >= 1 && !is_whitespace(s[i - 1]) {
            assert(t[t.len() - 2] == s@[i - 1]);
            let ghost before = views(r@);
            let k = r.len() - 1;
            let mut w = r.pop().unwrap();
            w.push(c);
            r.push(w);
            assert(views(r@) =~= before.update(k as int, before[k as int].push(c)));
        } else {
            let ghost before = views(r@);
            let mut w: Vec<char> = Vec::new();
            w.push(c);
            r.push(w);
            assert(views(r@) =~= before.push(seq![c]));
        }
    }
    assert(s@.take(n as int) =~= s@);
    r
}

/// The parts of `parts` with `sep` between each two (`join`).
pub open spec fn join(parts: Seq<Seq<char>>, sep: Seq<char>) -> Seq<char>
    decreases parts.len(),
{
    if parts.len() == 0 {
        Seq::empty()
    } else if parts.len() == 1 {
        parts[0]
    } else {
        join(parts.drop_last(), sep) + sep + parts.last()
    }
}

/// Joins `parts` with `sep` between each two.
pub fn join_chars(parts: &Vec<Vec<char>>, sep: &[char]) -> (r: Vec<char>)
    ensures
        r@ == join(views(parts@), sep@),
{
    let mut r: Vec<char> = Vec::new();
    let n = parts.len();
    let ghost p = views(parts@);
    for i in 0..n
        invariant
            n == p.len(),
            p == views(parts@),
            r@ == join(p.take(i as int), sep@),
    {
        assert(p.take(i + 1).drop_last() =~= p.take(i as int));
        if i > 0 {
            extend_chars(&mut r, sep);
        }
        extend_chars(&mut r, parts[i].as_slice());
        assert(p[i as int] == parts[i as int]@);
        if i == 0 {
            assert(r@ =~= p.take(1)[0]);
        }
    }
    assert(p.take(n as int) =~= p);
    r
}

// ------------------------------------------------------------------
// ASCII case folding
// ------------------------------------------------------------------

/// `char::to_ascii_lowercase`.
pub open spec fn ascii_lower(c: char) -> char {
    if 65 <= c as u32 <= 90 {
        ((c as u32) + 32) as char
    } else {
        c
    }
}

/// The character with an ASCII capital letter made small.
pub fn ascii_lower_char(c: char) -> (r: char)
    ensures
        r == ascii_lower(c),
{
    let u = c as u32;
    if 65 <= u && u <= 90 {
        ((u as u8) + 32) as char
    } else {
        c
    }
}

/// `s` with every ASCII capital letter made small.
pub fn ascii_lower_chars(s: &[char]) -> (r: Vec<char>)
    ensures
        r@ == s@.map_values(|c: char| ascii_lower(c)),
{
    let mut r: Vec<char> = Vec::new();
    let n = s.len();
    for i in 0..n
        invariant
            n == s@.len(),
            r@ == s@.take(i as int).map_values(|c: char| ascii_lower(c)),
    {
        r.push(ascii_lower_char(s[i]));
        assert(s@.take(i + 1).map_values(|c: char| ascii_lower(c)) =~= s@.take(i as int).map_values(
            |c: char| ascii_lower(c),
        ).push(ascii_lower(s@[i as int])));
    }
    assert(s@.take(n as int) =~= s@);
    r
}

/// Equality up to ASCII case (`str::eq_ignore_ascii_case`).
pub open spec fn eq_ignore_ascii_case(a: Seq<char>, b: Seq<char>) -> bool {
    a.len() == b.len() && forall|i: int| 0 <= i < a.len() ==> ascii_lower(#[trigger] a[i])
        == ascii_lower(b[i])
}

/// Whether two character slices are equal up to ASCII case.
pub fn eq_ignore_ascii_case_chars(a: &[char], b: &[char]) -> (r: bool)
    ensures
        r == eq_ignore_ascii_case(a@, b@),
{
    if a.len() != b.len() {
        return false;
    }
    let n = a.len();
    for i in 0..n
        invariant
            n == a@.len() == b@.len(),
            forall|j: int| 0 <= j < i ==> ascii_lower(#[trigger] a@[j]) == ascii_lower(b@[j]),
    {
        if ascii_lower_char(a[i]) != ascii_lower_char(b[i]) {
            return false;
        }
    }
    true
}

// ------------------------------------------------------------------
// Decimal and hexadecimal rendering
// ------------------------------------------------------------------

/// The character of the decimal digit `d`.
pub open spec fn digit_char(d: nat) -> char {
    (48 + d) as char
}

/// The decimal digits of `n`, without leading zeros (`"0"` for zero).
pub open spec fn decimal(n: nat) -> Seq<char>
    decreases n,
{
    if n < 10 {
        seq![digit_char(n)]
    } else {
        decimal(n / 10).push(digit_char(n % 10))
    }
}

/// The decimal rendering of the integer `i` (a leading `'-'` when negative).
pub open spec fn int_decimal(i: int) -> Seq<char> {
    if i < 0 {
        seq!['-'] + decimal((-i) as nat)
    } else {
        decimal(i as nat)
    }
}

fn digit(d: u64) -> (c: char)
    requires
        d < 10,
    ensures
        c == digit_char(d as nat),
{
    ((d as u8) + 48) as char
}

/// The decimal digits of `n`.
pub fn decimal_chars(n: u64) -> (r: Vec<char>)
    ensures
        r@ == decimal(n as nat),
    decreases n,
{
    if n < 10 {
        let mut r: Vec<char> = Vec::new();
        r.push(digit(n));
        assert(r@ =~= seq![digit_char(n as nat)]);
        r
    } else {
        let mut r = decimal_chars(n / 10);
        r.push(digit(n % 10));
        r
    }
}

/// The decimal rendering of a signed integer.
pub fn int_decimal_chars(i: i64) -> (r: Vec<char>)
    ensures
        r@ == int_decimal(i as int),
{
    if i < 0 {
        let magnitude: u64 = ((-(i + 1)) as u64) + 1;
        let digits = decimal_chars(magnitude);
        let mut r: Vec<char> = Vec::new();
        r.push('-');
        extend_chars(&mut r, digits.as_slice());
        assert(r@ =~= seq!['-'] + decimal((-i) as nat));
        r
    } else {
        decimal_chars(i as u64)
    }
}

/// The hexadecimal digit character of `d` (`0-9`, `A-F`).
pub open spec fn hex_upper_digit(d: nat) -> char {
    if d < 10 {
        (48 + d) as char
    } else {
        (55 + d) as char
    }
}

/// The two upper-case hexadecimal digits of a byte (`{:02X}`).
pub open spec fn hex_upper_byte(b: u8) -> Seq<char> {
    seq![hex_upper_digit((b / 16) as nat), hex_upper_digit((b % 16) as nat)]
}

fn hex_digit_exec(d: u8) -> (c: char)
    requires
        d < 16,
    ensures
        c == hex_upper_digit(d as nat),
{
    if d < 10 {
        (d + 48) as char
    } else {
        (d + 55) as char
    }
}

/// Appends the two upper-case hexadecimal digits of `b`.
pub fn push_hex_upper(dst: &mut Vec<char>, b: u8)
    ensures
        final(dst)@ == old(dst)@ + hex_upper_byte(b),
{
    dst.push(hex_digit_exec(b / 16));
    dst.push(hex_digit_exec(b % 16));
    assert(final(dst)@ =~= old(dst)@ + hex_upper_byte(b));
}

} // verus!

verus! {

// ------------------------------------------------------------------
// Byte decoding and Unicode case mapping
// ------------------------------------------------------------------

/// The text `String::from_utf8_lossy` makes of a byte sequence: the UTF-8
/// decoding, with each invalid sequence replaced by U+FFFD.
pub uninterp spec fn utf8_lossy(bytes: Seq<u8>) -> Seq<char>;

/// `String::from_utf8_lossy`. Valid UTF-8 is decoded as it stands (the
/// documented case); for other input the result is named, not described.
#[verifier::external_body]
pub(crate) fn from_utf8_lossy(bytes: &[u8]) -> (r: String)
    ensures
        r@ == utf8_lossy(bytes@),
        vstd::utf8::valid_utf8(bytes@) ==> r@ == vstd::utf8::decode_utf8(bytes@),
{
    String::from_utf8_lossy(bytes).to_string()
}

/// The text `str::to_uppercase` makes of a character sequence (the
/// Unicode upper-case mapping).
pub uninterp spec fn to_uppercase(s: Seq<char>) -> Seq<char>;

/// The text `String::from_utf8_lossy` makes of a byte sequence, as far as
/// it is stated: valid UTF-8 decodes as itself; for other input the text is
/// the one named by `utf8_lossy`.
pub open spec fn decode_lossy(bytes: Seq<u8>) -> Seq<char> {
    if vstd::utf8::valid_utf8(bytes) {
        vstd::utf8::decode_utf8(bytes)
    } else {
        utf8_lossy(bytes)
    }
}

/// `str::to_uppercase`; the result is named, not described.
#[verifier::external_body]
pub(crate) fn str_to_uppercase(s: &str) -> (r: String)
    ensures
        r@ == to_uppercase(s@),
{
    s.to_uppercase()
}

} // verus!
