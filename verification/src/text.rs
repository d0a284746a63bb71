//! Character-level helpers shared by the other modules: conversions between
//! strings and characters, decimal numerals, prefix, suffix and substring
//! tests, and the small parts of `std::path` that the library relies on.

use vstd::prelude::*;

verus! {

// ---------------------------------------------------------------------------
// Specifications
// ---------------------------------------------------------------------------

/// The decimal digit for `d`, which is below ten.
pub open spec fn digit(d: nat) -> char {
    (d + 48) as char
}

/// The decimal numeral of `n`, without leading zeros.
pub open spec fn decimal(n: nat) -> Seq<char>
    decreases n,
{
    if n < 10 {
        seq![digit(n)]
    } else {
        decimal(n / 10).push(digit(n % 10))
    }
}

/// `p` is a prefix of `s`.
pub open spec fn has_prefix(s: Seq<char>, p: Seq<char>) -> bool {
    p.len() <= s.len() && s.subrange(0, p.len() as int) == p
}

/// `p` is a suffix of `s`.
pub open spec fn has_suffix(s: Seq<char>, p: Seq<char>) -> bool {
    p.len() <= s.len() && s.subrange(s.len() - p.len(), s.len() as int) == p
}

/// `needle` occurs in `hay` at position `i`.
pub open spec fn occurs_at(hay: Seq<char>, needle: Seq<char>, i: int) -> bool {
    0 <= i && i + needle.len() <= hay.len() && hay.subrange(i, i + needle.len()) == needle
}

/// `needle` occurs somewhere in `hay` (the empty needle occurs everywhere).
pub open spec fn occurs_in(hay: Seq<char>, needle: Seq<char>) -> bool {
    exists|i: int| occurs_at(hay, needle, i)
}

/// The position of the last `c` in `s`, or -1 when there is none.
pub open spec fn last_index_of(s: Seq<char>, c: char) -> int
    decreases s.len(),
{
    if s.len() == 0 {
        -1
    } else if s.last() == c {
        s.len() - 1
    } else {
        last_index_of(s.drop_last(), c)
    }
}

/// What follows the last `c` in `s`; all of `s` when there is no `c`.
pub open spec fn after_last(s: Seq<char>, c: char) -> Seq<char> {
    s.subrange(last_index_of(s, c) + 1, s.len() as int)
}

/// What precedes the last `c` in `s`; empty when there is no `c`.
pub open spec fn before_last(s: Seq<char>, c: char) -> Seq<char> {
    if last_index_of(s, c) < 0 {
        seq![]
    } else {
        s.subrange(0, last_index_of(s, c))
    }
}

/// Every non-overlapping occurrence of `pat`, taken from the left, replaced
/// by `with` (what `str::replace` does for a non-empty pattern).
pub open spec fn replace_all(s: Seq<char>, pat: Seq<char>, with: Seq<char>) -> Seq<char>
    decreases s.len(),
{
    if s.len() == 0 || pat.len() == 0 {
        s
    } else if has_prefix(s, pat) {
        with + replace_all(s.subrange(pat.len() as int, s.len() as int), pat, with)
    } else {
        seq![s[0]] + replace_all(s.drop_first(), pat, with)
    }
}

/// `s` repeated `n` times.
pub open spec fn repeat(s: Seq<char>, n: nat) -> Seq<char>
    decreases n,
{
    if n == 0 {
        seq![]
    } else {
        repeat(s, (n - 1) as nat) + s
    }
}

/// The last component of a `/`-separated path, as `Path::file_name` finds
/// it: trailing separators and `.` components are passed over, and a path
/// that ends in `..`, or that has no normal component, has none.
pub open spec fn file_name(p: Seq<char>) -> Option<Seq<char>>
    decreases p.len(),
{
    let seg = after_last(p, '/');
    if seg == seq!['.', '.'] {
        None
    } else if seg.len() == 0 || seg == seq!['.'] {
        if last_index_of(p, '/') < 0 {
            None
        } else {
            proof { lemma_last_index_of(p, '/'); }
            file_name(before_last(p, '/'))
        }
    } else {
        Some(seg)
    }
}

/// The extension of a file name, as `Path::extension` finds it: what
/// follows the last `.`, unless there is no `.`, the only `.` opens the
/// name, or the name is `..`.
pub open spec fn extension(name: Seq<char>) -> Option<Seq<char>> {
    if name == seq!['.', '.'] || last_index_of(name, '.') <= 0 {
        None
    } else {
        Some(after_last(name, '.'))
    }
}

/// The extension of the last component of a path.
pub open spec fn path_extension(p: Seq<char>) -> Option<Seq<char>> {
    match file_name(p) {
        Some(name) => extension(name),
        None => None,
    }
}

/// The characters that Unicode gives the White_Space property, which is
/// what `char::is_whitespace` tests.
pub open spec fn is_white_space(c: char) -> bool {
    let u = c as u32;
    (0x09 <= u <= 0x0d) || u == 0x20 || u == 0x85 || u == 0xa0 || u == 0x1680 || (0x2000 <= u
        <= 0x200a) || u == 0x2028 || u == 0x2029 || u == 0x202f || u == 0x205f || u == 0x3000
}

/// `s` holds white space only, so that trimming it leaves nothing.
pub open spec fn is_blank(s: Seq<char>) -> bool {
    forall|i: int| 0 <= i < s.len() ==> is_white_space(#[trigger] s[i])
}

// ---------------------------------------------------------------------------
// Conversions
// ---------------------------------------------------------------------------

/// Appends one character to a string.
///
/// Calls std's `String::push`, which adds the character at the end and
/// leaves the rest of the string as it was.
#[verifier::external_body]
pub(crate) fn push_char(s: &mut String, c: char)
    ensures
        final(s)@ == old(s)@.push(c),
{
    s.push(c);
}

/// The characters of a string, in order.
pub fn chars_of(s: &str) -> (r: Vec<char>)
    ensures
        r@ == s@,
{
    let mut r: Vec<char> = Vec::new();
    for c in it: s.chars()
        invariant
            r@ == it.seq().take(it.index() as int),
    {
        r.push(c);
    }
    r
}

/// Appends characters to a string.
pub fn push_chars(s: &mut String, cs: &[char])
    ensures
        final(s)@ == old(s)@ + cs@,
{
    let n = cs.len();
    let mut i: usize = 0;
    while i < n
        invariant
            n == cs@.len(),
            i <= n,
            s@ == old(s)@ + cs@.subrange(0, i as int),
        decreases n - i,
    {
        push_char(s, cs[i]);
        i = i + 1;
        assert(cs@.subrange(0, i as int) == cs@.subrange(0, i - 1).push(cs@[i - 1]));
    }
    assert(cs@.subrange(0, n as int) == cs@);
}

/// The string made of the given characters.
pub fn string_of(cs: &[char]) -> (r: String)
    ensures
        r@ == cs@,
{
    let mut r = String::new();
    push_chars(&mut r, cs);
    r
}

/// The decimal digit for `d`.
fn digit_char(d: usize) -> (c: char)
    requires
        d < 10,
    ensures
        c == digit(d as nat),
{
    let b: u8 = d as u8 + 48;
    b as char
}

/// The decimal numeral of `n`.
pub fn decimal_string(n: usize) -> (r: String)
    ensures
        r@ == decimal(n as nat),
    decreases n,
{
    let d = digit_char(n % 10);
    if n < 10 {
        let mut s = String::new();
        push_char(&mut s, d);
        s
    } else {
        let mut s = decimal_string(n / 10);
        push_char(&mut s, d);
        s
    }
}

// ---------------------------------------------------------------------------
// Searching
// ---------------------------------------------------------------------------

/// Whether `needle` occurs in `hay` at position `i`.
pub fn matches_at(hay: &[char], needle: &[char], i: usize) -> (r: bool)
    ensures
        r == occurs_at(hay@, needle@, i as int),
{
    if i > hay.len() || needle.len() > hay.len() - i {
        return false;
    }
    let n = needle.len();
    let mut k: usize = 0;
    while k < n
        invariant
            n == needle@.len(),
            i + n <= hay@.len(),
            hay@.len() <= usize::MAX,
            k <= n,
            forall|j: int| 0 <= j < k ==> hay@[i + j] == needle@[j],
        decreases n - k,
    {
        if hay[i + k] != needle[k] {
            assert(hay@.subrange(i as int, i + n)[k as int] != needle@[k as int]);
            return false;
        }
        k = k + 1;
    }
    assert(hay@.subrange(i as int, i + n) =~= needle@);
    true
}

/// Whether `s` begins with `p`.
pub fn starts_with(s: &[char], p: &[char]) -> (r: bool)
    ensures
        r == has_prefix(s@, p@),
{
    matches_at(s, p, 0)
}

/// Whether `s` ends with `p`.
pub fn ends_with(s: &[char], p: &[char]) -> (r: bool)
    ensures
        r == has_suffix(s@, p@),
{
    if p.len() > s.len() {
        false
    } else {
        matches_at(s, p, s.len() - p.len())
    }
}

/// Whether `needle` occurs in `hay`.
pub fn contains(hay: &[char], needle: &[char]) -> (r: bool)
    ensures
        r == occurs_in(hay@, needle@),
{
    if needle.len() > hay.len() {
        assert forall|i: int| !occurs_at(hay@, needle@, i) by {}
        return false;
    }
    let last = hay.len() - needle.len();
    let mut i: usize = 0;
    while i < last
        invariant
            i <= last,
            last == hay@.len() - needle@.len(),
            forall|j: int| 0 <= j < i ==> !occurs_at(hay@, needle@, j),
        decreases last - i,
    {
        if matches_at(hay, needle, i) {
            return true;
        }
        i = i + 1;
    }
    let r = matches_at(hay, needle, last);
    assert(r ==> occurs_at(hay@, needle@, last as int));
    assert(!r ==> forall|j: int| !occurs_at(hay@, needle@, j));
    r
}

/// The position of the last `c` in `s`, if any.
pub fn find_last(s: &[char], c: char) -> (r: Option<usize>)
    ensures
        match r {
            Some(k) => k as int == last_index_of(s@, c),
            None => last_index_of(s@, c) == -1,
        },
{
    let mut k: usize = s.len();
    assert(s@.subrange(0, k as int) == s@);
    while k > 0
        invariant
            k <= s@.len(),
            last_index_of(s@, c) == last_index_of(s@.subrange(0, k as int), c),
        decreases k,
    {
        assert(s@.subrange(0, k as int).drop_last() == s@.subrange(0, k - 1));
        if s[k - 1] == c {
            return Some(k - 1);
        }
        k = k - 1;
    }
    assert(s@.subrange(0, 0) =~= Seq::<char>::empty());
    None
}

/// Lemma: `last_index_of` lies within the sequence, and the character there
/// is the one searched for.
pub proof fn lemma_last_index_of(s: Seq<char>, c: char)
    ensures
        -1 <= last_index_of(s, c) < s.len(),
        last_index_of(s, c) >= 0 ==> s[last_index_of(s, c)] == c,
        forall|j: int| last_index_of(s, c) < j < s.len() ==> s[j] != c,
    decreases s.len(),
{
    if s.len() > 0 && s.last() != c {
        lemma_last_index_of(s.drop_last(), c);
        assert forall|j: int| last_index_of(s, c) < j < s.len() implies s[j] != c by {
            if j < s.len() - 1 {
                assert(s[j] == s.drop_last()[j]);
            }
        }
    }
}

/// What follows the last `c` in `s`.
pub fn after_last_of(s: &[char], c: char) -> (r: Vec<char>)
    ensures
        r@ == after_last(s@, c),
{
    proof { lemma_last_index_of(s@, c); }
    let n = s.len();
    let start = match find_last(s, c) {
        Some(k) => k + 1,
        None => 0,
    };
    slice_chars(s, start, s.len())
}

/// What precedes the last `c` in `s`.
pub fn before_last_of(s: &[char], c: char) -> (r: Vec<char>)
    ensures
        r@ == before_last(s@, c),
{
    proof { lemma_last_index_of(s@, c); }
    match find_last(s, c) {
        Some(k) => slice_chars(s, 0, k),
        None => Vec::new(),
    }
}

/// The characters of `s` from `start` up to `end`.
pub fn slice_chars(s: &[char], start: usize, end: usize) -> (r: Vec<char>)
    requires
        start <= end <= s@.len(),
    ensures
        r@ == s@.subrange(start as int, end as int),
{
    let mut r: Vec<char> = Vec::new();
    let mut i = start;
    while i < end
        invariant
            start <= i <= end <= s@.len(),
            r@ == s@.subrange(start as int, i as int),
        decreases end - i,
    {
        r.push(s[i]);
        i = i + 1;
        assert(r@ =~= s@.subrange(start as int, i as int));
    }
    r
}

// ---------------------------------------------------------------------------
// Replacing and repeating
// ---------------------------------------------------------------------------

/// Unfolds `replace_all` at position `i` of `s`.
proof fn lemma_replace_step(s: Seq<char>, pat: Seq<char>, with: Seq<char>, i: int)
    requires
        pat.len() > 0,
        0 <= i < s.len(),
    ensures
        occurs_at(s, pat, i) ==> replace_all(s.subrange(i, s.len() as int), pat, with) == with
            + replace_all(s.subrange(i + pat.len(), s.len() as int), pat, with),
        !occurs_at(s, pat, i) ==> replace_all(s.subrange(i, s.len() as int), pat, with) == seq![s[i]]
            + replace_all(s.subrange(i + 1, s.len() as int), pat, with),
{
    let t = s.subrange(i, s.len() as int);
    if occurs_at(s, pat, i) {
        assert(t.subrange(0, pat.len() as int) == s.subrange(i, i + pat.len()));
        assert(t.subrange(pat.len() as int, t.len() as int) == s.subrange(i + pat.len(), s.len() as int));
    } else {
        if pat.len() <= t.len() {
            assert(t.subrange(0, pat.len() as int) == s.subrange(i, i + pat.len()));
        }
        assert(t.drop_first() == s.subrange(i + 1, s.len() as int));
    }
}

/// Every occurrence of `pat` in `s`, from the left, replaced by `with`
/// (std's `str::replace` for a non-empty pattern).
pub fn replace_chars(s: &[char], pat: &[char], with: &[char]) -> (r: Vec<char>)
    requires
        pat@.len() > 0,
    ensures
        r@ == replace_all(s@, pat@, with@),
{
    let n = s.len();
    let mut r: Vec<char> = Vec::new();
    let mut i: usize = 0;
    assert(s@.subrange(0, n as int) == s@);
    while i < n
        invariant
            n == s@.len(),
            i <= n,
            pat@.len() > 0,
            r@ + replace_all(s@.subrange(i as int, n as int), pat@, with@) == replace_all(s@, pat@, with@),
        decreases n - i,
    {
        proof { lemma_replace_step(s@, pat@, with@, i as int); }
        if matches_at(s, pat, i) {
            let ghost old_r = r@;
            let mut k: usize = 0;
            while k < with.len()
                invariant
                    k <= with@.len(),
                    r@ == old_r + with@.subrange(0, k as int),
                decreases with@.len() - k,
            {
                r.push(with[k]);
                k = k + 1;
                assert(r@ =~= old_r + with@.subrange(0, k as int));
            }
            assert(with@.subrange(0, with@.len() as int) == with@);
            assert(r@ + replace_all(s@.subrange(i + pat@.len(), n as int), pat@, with@) =~= old_r + (with@
                + replace_all(s@.subrange(i + pat@.len(), n as int), pat@, with@)));
            i = i + pat.len();
        } else {
            let ghost old_r = r@;
            r.push(s[i]);
            assert(r@ + replace_all(s@.subrange(i + 1, n as int), pat@, with@) =~= old_r + (seq![s@[i as int]]
                + replace_all(s@.subrange(i + 1, n as int), pat@, with@)));
            i = i + 1;
        }
    }
    assert(s@.subrange(n as int, n as int) =~= Seq::<char>::empty());
    assert(r@ + Seq::<char>::empty() =~= r@);
    r
}

/// `s` repeated `n` times.
pub fn repeat_chars(s: &[char], n: usize) -> (r: Vec<char>)
    ensures
        r@ == repeat(s@, n as nat),
{
    let mut r: Vec<char> = Vec::new();
    let mut i: usize = 0;
    while i < n
        invariant
            i <= n,
            r@ == repeat(s@, i as nat),
        decreases n - i,
    {
        let ghost old_r = r@;
        let mut k: usize = 0;
        while k < s.len()
            invariant
                k <= s@.len(),
                r@ == old_r + s@.subrange(0, k as int),
            decreases s@.len() - k,
        {
            r.push(s[k]);
            k = k + 1;
            assert(r@ =~= old_r + s@.subrange(0, k as int));
        }
        assert(s@.subrange(0, s@.len() as int) == s@);
        i = i + 1;
    }
    r
}

// ---------------------------------------------------------------------------
// Paths and white space
// ---------------------------------------------------------------------------

/// The last component of a path (see `file_name`).
pub fn file_name_of(p: &[char]) -> (r: Option<Vec<char>>)
    ensures
        match r {
            Some(v) => file_name(p@) == Some(v@),
            None => file_name(p@) is None,
        },
    decreases p@.len(),
{
    proof { lemma_last_index_of(p@, '/'); }
    let seg = after_last_of(p, '/');
    let dotdot = seg.len() == 2 && seg[0] == '.' && seg[1] == '.';
    let dot = seg.len() == 1 && seg[0] == '.';
    assert(dotdot == (seg@ == seq!['.', '.'])) by {
        if seg@ == seq!['.', '.'] {
            assert(seg@[0] == '.' && seg@[1] == '.');
        }
        if dotdot {
            assert(seg@ =~= seq!['.', '.']);
        }
    }
    assert(dot == (seg@ == seq!['.'])) by {
        if seg@ == seq!['.'] {
            assert(seg@[0] == '.');
        }
        if dot {
            assert(seg@ =~= seq!['.']);
        }
    }
    if dotdot {
        None
    } else if seg.len() == 0 || dot {
        match find_last(p, '/') {
            None => None,
            Some(_) => {
                let head = before_last_of(p, '/');
                file_name_of(head.as_slice())
            },
        }
    } else {
        Some(seg)
    }
}

/// The extension of a file name (see `extension`).
pub fn extension_of(name: &[char]) -> (r: Option<Vec<char>>)
    ensures
        match r {
            Some(v) => extension(name@) == Some(v@),
            None => extension(name@) is None,
        },
{
    let dotdot = name.len() == 2 && name[0] == '.' && name[1] == '.';
    assert(dotdot == (name@ == seq!['.', '.'])) by {
        if name@ == seq!['.', '.'] {
            assert(name@[0] == '.' && name@[1] == '.');
        }
        if dotdot {
            assert(name@ =~= seq!['.', '.']);
        }
    }
    if dotdot {
        return None;
    }
    match find_last(name, '.') {
        None => None,
        Some(k) => {
            if k == 0 {
                None
            } else {
                Some(after_last_of(name, '.'))
            }
        },
    }
}

/// The extension of the last component of a path (see `path_extension`).
pub fn path_extension_of(p: &[char]) -> (r: Option<Vec<char>>)
    ensures
        match r {
            Some(v) => path_extension(p@) == Some(v@),
            None => path_extension(p@) is None,
        },
{
    match file_name_of(p) {
        Some(name) => extension_of(name.as_slice()),
        None => None,
    }
}

/// Whether `c` is white space (see `is_white_space`).
pub fn white_space(c: char) -> (r: bool)
    ensures
        r == is_white_space(c),
{
    let u = c as u32;
    (0x09 <= u && u <= 0x0d) || u == 0x20 || u == 0x85 || u == 0xa0 || u == 0x1680 || (0x2000 <= u
        && u <= 0x200a) || u == 0x2028 || u == 0x2029 || u == 0x202f || u == 0x205f || u == 0x3000
}

/// Whether `s` holds white space only (see `is_blank`).
pub fn blank(s: &[char]) -> (r: bool)
    ensures
        r == is_blank(s@),
{
    let n = s.len();
    let mut i: usize = 0;
    while i < n
        invariant
            n == s@.len(),
            i <= n,
            forall|j: int| 0 <= j < i ==> is_white_space(#[trigger] s@[j]),
        decreases n - i,
    {
        if !white_space(s[i]) {
            return false;
        }
        i = i + 1;
    }
    true
}

// ---------------------------------------------------------------------------
// Ordering strings
// ---------------------------------------------------------------------------

/// `a` comes strictly before `b` in the order of `String`'s `Ord`:
/// lexicographic by code point, a proper prefix first.
pub open spec fn char_lt(a: Seq<char>, b: Seq<char>) -> bool
    decreases a.len(),
{
    if a.len() == 0 {
        b.len() > 0
    } else if b.len() == 0 {
        false
    } else if a[0] != b[0] {
        a[0] < b[0]
    } else {
        char_lt(a.drop_first(), b.drop_first())
    }
}

/// The views of a list of strings.
pub open spec fn views(v: Seq<String>) -> Seq<Seq<char>> {
    v.map_values(|s: String| s@)
}

/// Each string of `s` is no greater than the ones after it.
pub open spec fn is_sorted(s: Seq<Seq<char>>) -> bool {
    forall|i: int, j: int| 0 <= i < j < s.len() ==> !char_lt(#[trigger] s[j], #[trigger] s[i])
}

/// Lemma: of two different strings, one comes before the other.
pub proof fn lemma_char_lt_total(a: Seq<char>, b: Seq<char>)
    ensures
        a != b ==> char_lt(a, b) || char_lt(b, a),
    decreases a.len(),
{
    if a.len() > 0 && b.len() > 0 && a[0] == b[0] {
        lemma_char_lt_total(a.drop_first(), b.drop_first());
        if a != b {
            assert(a.drop_first() != b.drop_first()) by {
                if a.drop_first() == b.drop_first() {
                    assert(a =~= seq![a[0]] + a.drop_first());
                    assert(b =~= seq![b[0]] + b.drop_first());
                }
            }
        }
    } else if a.len() == 0 && b.len() == 0 {
        assert(a =~= b);
    }
}

/// Lemma: `char_lt` is asymmetric.
pub proof fn lemma_char_lt_asymmetric(a: Seq<char>, b: Seq<char>)
    ensures
        char_lt(a, b) ==> !char_lt(b, a),
    decreases a.len(),
{
    if a.len() > 0 && b.len() > 0 && a[0] == b[0] {
        lemma_char_lt_asymmetric(a.drop_first(), b.drop_first());
    }
}

/// Lemma: `char_lt` is transitive.
pub proof fn lemma_char_lt_transitive(a: Seq<char>, b: Seq<char>, c: Seq<char>)
    ensures
        char_lt(a, b) && char_lt(b, c) ==> char_lt(a, c),
    decreases a.len(),
{
    if a.len() > 0 && b.len() > 0 && c.len() > 0 {
        lemma_char_lt_transitive(a.drop_first(), b.drop_first(), c.drop_first());
    }
}

/// Whether `a` comes strictly before `b` (see `char_lt`).
pub fn chars_lt(a: &[char], b: &[char]) -> (r: bool)
    ensures
        r == char_lt(a@, b@),
{
    let mut i: usize = 0;
    assert(a@.subrange(0, a@.len() as int) == a@);
    assert(b@.subrange(0, b@.len() as int) == b@);
    while i < a.len() && i < b.len()
        invariant
            i <= a@.len(),
            i <= b@.len(),
            a@.subrange(0, i as int) == b@.subrange(0, i as int),
            char_lt(a@, b@) == char_lt(a@.subrange(i as int, a@.len() as int), b@.subrange(i as int, b@.len() as int)),
        decreases a@.len() - i,
    {
        let x = a[i];
        let y = b[i];
        let ghost ta = a@.subrange(i as int, a@.len() as int);
        let ghost tb = b@.subrange(i as int, b@.len() as int);
        assert(ta[0] == x && tb[0] == y);
        if x != y {
            return x < y;
        }
        assert(ta.drop_first() == a@.subrange(i + 1, a@.len() as int));
        assert(tb.drop_first() == b@.subrange(i + 1, b@.len() as int));
        i = i + 1;
        assert(a@.subrange(0, i as int) =~= b@.subrange(0, i as int)) by {
            assert forall|j: int| 0 <= j < i implies a@[j] == b@[j] by {
                if j < i - 1 {
                    assert(a@.subrange(0, i - 1)[j] == b@.subrange(0, i - 1)[j]);
                }
            }
        }
    }
    i < b.len()
}

/// The strings of `v` in ascending order.
pub fn sort_strings(v: Vec<String>) -> (r: Vec<String>)
    ensures
        is_sorted(views(r@)),
        views(r@).to_multiset() == views(v@).to_multiset(),
        r@.len() == v@.len(),
{
    let n = v.len();
    let mut r: Vec<String> = Vec::new();
    let mut i: usize = 0;
    assert(views(r@) =~= views(v@.subrange(0, 0)));
    while i < n
        invariant
            n == v@.len(),
            i <= n,
            r@.len() == i,
            is_sorted(views(r@)),
            views(r@).to_multiset() == views(v@.subrange(0, i as int)).to_multiset(),
        decreases n - i,
    {
        let x = v[i].clone();
        let xc = chars_of(x.as_str());
        // find the first position whose string is greater than x
        let mut p: usize = 0;
        while p < r.len()
            invariant
                p <= r@.len(),
                xc@ == x@,
                forall|q: int| 0 <= q < p ==> !char_lt(xc@, #[trigger] views(r@)[q]),
            ensures
                p <= r@.len(),
                forall|q: int| 0 <= q < p ==> !char_lt(xc@, #[trigger] views(r@)[q]),
                p < r@.len() ==> char_lt(xc@, views(r@)[p as int]),
            decreases r@.len() - p,
        {
            let rc = chars_of(r[p].as_str());
            if chars_lt(xc.as_slice(), rc.as_slice()) {
                break;
            }
            p = p + 1;
        }
        let ghost old_views = views(r@);
        proof {
            // every string from p on is greater than x
            assert forall|q: int| p <= q < old_views.len() implies char_lt(xc@, #[trigger] old_views[q]) by {
                if q > p {
                    lemma_char_lt_total(old_views[p as int], old_views[q]);
                    lemma_char_lt_transitive(xc@, old_views[p as int], old_views[q]);
                }
            }
        }
        r.insert(p, x);
        let ghost new_views = views(r@);
        assert(new_views =~= old_views.insert(p as int, xc@));
        proof {
            assert forall|a: int, b: int| 0 <= a < b < new_views.len() implies !char_lt(
                #[trigger] new_views[b],
                #[trigger] new_views[a],
            ) by {
                if a < p && b == p {
                } else if a < p && b > p {
                    assert(old_views[a] == new_views[a] && old_views[b - 1] == new_views[b]);
                } else if a == p {
                    assert(old_views[b - 1] == new_views[b]);
                    lemma_char_lt_asymmetric(xc@, old_views[b - 1]);
                } else if a > p {
                    assert(old_views[a - 1] == new_views[a] && old_views[b - 1] == new_views[b]);
                } else {
                    assert(old_views[a] == new_views[a] && old_views[b] == new_views[b]);
                }
            }
            assert(views(v@.subrange(0, i + 1)) =~= views(v@.subrange(0, i as int)).push(xc@));
            vstd::seq_lib::to_multiset_insert(old_views, p as int, xc@);
            vstd::seq_lib::to_multiset_build(views(v@.subrange(0, i as int)), xc@);
        }
        i = i + 1;
    }
    assert(v@.subrange(0, n as int) =~= v@);
    r
}

// ---------------------------------------------------------------------------
// Decimal numerals
// ---------------------------------------------------------------------------

/// Lemma: a numeral has one digit exactly when its number is below ten.
pub proof fn lemma_decimal_len(n: nat)
    ensures
        decimal(n).len() >= 1,
        n < 10 <==> decimal(n).len() == 1,
    decreases n,
{
    if n >= 10 {
        lemma_decimal_len(n / 10);
    }
}

/// Lemma: different numbers have different numerals.
pub proof fn lemma_decimal_injective(a: nat, b: nat)
    requires
        decimal(a) == decimal(b),
    ensures
        a == b,
    decreases a,
{
    lemma_decimal_len(a);
    lemma_decimal_len(b);
    if a < 10 && b < 10 {
        assert(decimal(a)[0] == digit(a));
        assert(decimal(b)[0] == digit(b));
        assert((digit(a) as int) == a + 48);
        assert((digit(b) as int) == b + 48);
    } else if a >= 10 && b >= 10 {
        assert(decimal(a).drop_last() =~= decimal(a / 10));
        assert(decimal(b).drop_last() =~= decimal(b / 10));
        assert(decimal(a).last() == digit(a % 10));
        assert(decimal(b).last() == digit(b % 10));
        assert((digit(a % 10) as int) == a % 10 + 48);
        assert((digit(b % 10) as int) == b % 10 + 48);
        lemma_decimal_injective(a / 10, b / 10);
    }
}

// ---------------------------------------------------------------------------
// Sorted order
// ---------------------------------------------------------------------------

/// The strings of `s` in ascending order (the order is unique; see
/// `lemma_sorted_unique`).
pub open spec fn sorted_order(s: Seq<Seq<char>>) -> Seq<Seq<char>> {
    choose|t: Seq<Seq<char>>| is_sorted(t) && t.to_multiset() == s.to_multiset()
}

/// Lemma: two sorted lists holding the same strings are equal.
pub proof fn lemma_sorted_unique(a: Seq<Seq<char>>, b: Seq<Seq<char>>)
    requires
        is_sorted(a),
        is_sorted(b),
        a.to_multiset() == b.to_multiset(),
    ensures
        a == b,
    decreases a.len(),
{
    broadcast use vstd::seq_lib::group_to_multiset_ensures;

    vstd::seq_lib::to_multiset_len(a);
    vstd::seq_lib::to_multiset_len(b);
    if a.len() == 0 {
        assert(b.len() == 0);
        assert(a =~= b);
    } else {
        assert(b.len() == a.len());
        assert(a.to_multiset().count(a[0]) > 0);
        assert(b.contains(a[0]));
        let j = choose|j: int| 0 <= j < b.len() && b[j] == a[0];
        assert(b.to_multiset().count(b[0]) > 0);
        assert(a.contains(b[0]));
        let i = choose|i: int| 0 <= i < a.len() && a[i] == b[0];
        if i > 0 {
            assert(!char_lt(a[i], a[0]));
        }
        if j > 0 {
            assert(!char_lt(b[j], b[0]));
        }
        lemma_char_lt_total(a[0], b[0]);
        assert(a[0] == b[0]);
        vstd::seq_lib::to_multiset_remove(a, 0);
        vstd::seq_lib::to_multiset_remove(b, 0);
        assert(a.remove(0) =~= a.drop_first());
        assert(b.remove(0) =~= b.drop_first());
        assert(is_sorted(a.drop_first())) by {
            assert forall|x: int, y: int| 0 <= x < y < a.drop_first().len() implies !char_lt(
                #[trigger] a.drop_first()[y],
                #[trigger] a.drop_first()[x],
            ) by {
                assert(a.drop_first()[y] == a[y + 1] && a.drop_first()[x] == a[x + 1]);
            }
        }
        assert(is_sorted(b.drop_first())) by {
            assert forall|x: int, y: int| 0 <= x < y < b.drop_first().len() implies !char_lt(
                #[trigger] b.drop_first()[y],
                #[trigger] b.drop_first()[x],
            ) by {
                assert(b.drop_first()[y] == b[y + 1] && b.drop_first()[x] == b[x + 1]);
            }
        }
        lemma_sorted_unique(a.drop_first(), b.drop_first());
        assert(a =~= b) by {
            assert forall|k: int| 0 <= k < a.len() implies a[k] == b[k] by {
                if k > 0 {
                    assert(a[k] == a.drop_first()[k - 1]);
                    assert(b[k] == b.drop_first()[k - 1]);
                }
            }
        }
    }
}

/// The strings of `v` in ascending order, as `sorted_order` gives them.
pub fn sorted_strings(v: Vec<String>) -> (r: Vec<String>)
    ensures
        views(r@) == sorted_order(views(v@)),
        is_sorted(views(r@)),
{
    let ghost vs = views(v@);
    let r = sort_strings(v);
    proof {
        let t = sorted_order(vs);
        assert(is_sorted(views(r@)) && views(r@).to_multiset() == vs.to_multiset());
        assert(is_sorted(t) && t.to_multiset() == vs.to_multiset());
        lemma_sorted_unique(views(r@), t);
    }
    r
}

/// `x` put into the sorted list `t` before the first string greater than it.
spec fn insert_sorted(t: Seq<Seq<char>>, x: Seq<char>) -> Seq<Seq<char>>
    decreases t.len(),
{
    if t.len() == 0 {
        seq![x]
    } else if char_lt(x, t[0]) {
        seq![x] + t
    } else {
        seq![t[0]] + insert_sorted(t.drop_first(), x)
    }
}

/// The strings of `s` sorted one by one.
spec fn insertion_sorted(s: Seq<Seq<char>>) -> Seq<Seq<char>>
    decreases s.len(),
{
    if s.len() == 0 {
        seq![]
    } else {
        insert_sorted(insertion_sorted(s.drop_last()), s.last())
    }
}

proof fn lemma_insert_sorted(t: Seq<Seq<char>>, x: Seq<char>)
    requires
        is_sorted(t),
    ensures
        is_sorted(insert_sorted(t, x)),
        insert_sorted(t, x).to_multiset() == t.to_multiset().insert(x),
        insert_sorted(t, x).len() == t.len() + 1,
        forall|k: int| 0 <= k < insert_sorted(t, x).len() ==> #[trigger] insert_sorted(t, x)[k] == x || t.contains(insert_sorted(t, x)[k]),
    decreases t.len(),
{
    broadcast use vstd::seq_lib::group_to_multiset_ensures;

    let r = insert_sorted(t, x);
    if t.len() == 0 {
        assert(r =~= Seq::<Seq<char>>::empty().push(x));
        vstd::seq_lib::to_multiset_build(Seq::<Seq<char>>::empty(), x);
        assert(t =~= Seq::<Seq<char>>::empty());
    } else if char_lt(x, t[0]) {
        assert(r =~= t.insert(0, x));
        vstd::seq_lib::to_multiset_insert(t, 0, x);
        assert forall|a: int, b: int| 0 <= a < b < r.len() implies !char_lt(#[trigger] r[b], #[trigger] r[a]) by {
            if a == 0 {
                lemma_char_lt_asymmetric(x, t[0]);
                if b > 1 {
                    lemma_char_lt_total(t[0], t[b - 1]);
                    lemma_char_lt_transitive(x, t[0], t[b - 1]);
                    lemma_char_lt_asymmetric(x, t[b - 1]);
                }
            } else {
                assert(r[a] == t[a - 1] && r[b] == t[b - 1]);
            }
        }
        assert forall|k: int| 0 <= k < r.len() implies #[trigger] r[k] == x || t.contains(r[k]) by {
            if k > 0 {
                assert(r[k] == t[k - 1]);
            }
        }
    } else {
        let tail = t.drop_first();
        assert(is_sorted(tail)) by {
            assert forall|a: int, b: int| 0 <= a < b < tail.len() implies !char_lt(#[trigger] tail[b], #[trigger] tail[a]) by {
                assert(tail[a] == t[a + 1] && tail[b] == t[b + 1]);
            }
        }
        lemma_insert_sorted(tail, x);
        let ins = insert_sorted(tail, x);
        assert(r =~= seq![t[0]] + ins);
        assert forall|a: int, b: int| 0 <= a < b < r.len() implies !char_lt(#[trigger] r[b], #[trigger] r[a]) by {
            if a == 0 {
                assert(r[b] == ins[b - 1]);
                if ins[b - 1] == x {
                    lemma_char_lt_total(t[0], x);
                    lemma_char_lt_asymmetric(x, t[0]);
                } else {
                    assert(tail.contains(ins[b - 1]));
                    let j = choose|j: int| 0 <= j < tail.len() && tail[j] == ins[b - 1];
                    assert(tail[j] == t[j + 1]);
                }
            } else {
                assert(r[a] == ins[a - 1] && r[b] == ins[b - 1]);
            }
        }
        assert forall|k: int| 0 <= k < r.len() implies #[trigger] r[k] == x || t.contains(r[k]) by {
            if k > 0 {
                assert(r[k] == ins[k - 1]);
                if ins[k - 1] != x {
                    assert(tail.contains(ins[k - 1]));
                    let j = choose|j: int| 0 <= j < tail.len() && tail[j] == ins[k - 1];
                    assert(t[j + 1] == r[k]);
                }
            } else {
                assert(t[0] == r[0]);
            }
        }
        vstd::seq_lib::lemma_multiset_commutative(seq![t[0]], ins);
        vstd::seq_lib::lemma_multiset_commutative(seq![t[0]], tail);
        assert(t =~= seq![t[0]] + tail);
    }
}

proof fn lemma_insertion_sorted(s: Seq<Seq<char>>)
    ensures
        is_sorted(insertion_sorted(s)),
        insertion_sorted(s).to_multiset() == s.to_multiset(),
    decreases s.len(),
{
    broadcast use vstd::seq_lib::group_to_multiset_ensures;

    if s.len() == 0 {
        assert(insertion_sorted(s) =~= s);
    } else {
        lemma_insertion_sorted(s.drop_last());
        lemma_insert_sorted(insertion_sorted(s.drop_last()), s.last());
        vstd::seq_lib::to_multiset_build(s.drop_last(), s.last());
        assert(s.drop_last().push(s.last()) =~= s);
    }
}

/// Lemma: `sorted_order` is sorted and holds the same strings as its
/// argument.
pub proof fn lemma_sorted_order(s: Seq<Seq<char>>)
    ensures
        is_sorted(sorted_order(s)),
        sorted_order(s).to_multiset() == s.to_multiset(),
{
    lemma_insertion_sorted(s);
}

} // verus!
