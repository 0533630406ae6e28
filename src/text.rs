//! Character-level helpers over `Vec<char>`: whitespace, trimming, substring
//! search, line splitting.
use vstd::prelude::*;

verus! {

/// The Unicode `White_Space` property, which `char::is_whitespace` and
/// `str::trim` follow.
pub open spec fn is_white(c: char) -> bool {
    let u = c as u32;
    (9 <= u <= 13) || u == 32 || u == 0x85 || u == 0xa0 || u == 0x1680 || (0x2000 <= u
        <= 0x200a) || u == 0x2028 || u == 0x2029 || u == 0x202f || u == 0x205f || u == 0x3000
}

pub fn is_white_char(c: char) -> (r: bool)
    ensures
        r == is_white(c),
{
    let u = c as u32;
    (9 <= u && u <= 13) || u == 32 || u == 0x85 || u == 0xa0 || u == 0x1680 || (0x2000 <= u
        && u <= 0x200a) || u == 0x2028 || u == 0x2029 || u == 0x202f || u == 0x205f || u
        == 0x3000
}

/// `s` with leading whitespace removed.
pub open spec fn trim_front(s: Seq<char>) -> Seq<char>
    decreases s.len(),
{
    if s.len() > 0 && is_white(s[0]) {
        trim_front(s.drop_first())
    } else {
        s
    }
}

/// `s` with trailing whitespace removed.
pub open spec fn trim_back(s: Seq<char>) -> Seq<char>
    decreases s.len(),
{
    if s.len() > 0 && is_white(s.last()) {
        trim_back(s.drop_last())
    } else {
        s
    }
}

/// `s` with whitespace removed at both ends, as `str::trim` does.
pub open spec fn trimmed(s: Seq<char>) -> Seq<char> {
    trim_back(trim_front(s))
}

/// Whether `h` holds `n` at position `i`.
pub open spec fn occurs_at(h: Seq<char>, n: Seq<char>, i: int) -> bool {
    0 <= i && i + n.len() <= h.len() && h.subrange(i, i + n.len()) == n
}

/// Whether `n` occurs somewhere in `h`.
pub open spec fn seq_contains(h: Seq<char>, n: Seq<char>) -> bool {
    exists|i: int| #[trigger] occurs_at(h, n, i)
}

/// Whether `h` begins with `n`.
pub open spec fn seq_starts_with(h: Seq<char>, n: Seq<char>) -> bool {
    occurs_at(h, n, 0)
}

/// The characters of `s`, in order.
pub fn chars_of(s: &str) -> (r: Vec<char>)
    ensures
        r@ == s@,
{
    let mut r: Vec<char> = Vec::new();
    for c in it: s.chars()
        invariant
            it.seq() == s@,
            r@ == it.seq().take(it.index() as int),
    {
        r.push(c);
    }
    r
}

/// Relies on `String::from_iter::<char>`: the string holds the given
/// characters in order.
#[verifier::external_body]
pub(crate) fn string_from_chars(v: &[char]) -> (r: String)
    ensures
        r@ == v@,
{
    v.iter().collect()
}

proof fn trim_front_step(s: Seq<char>, i: int)
    requires
        0 <= i < s.len(),
        is_white(s[i]),
    ensures
        trim_front(s.subrange(i, s.len() as int)) == trim_front(s.subrange(i + 1, s.len() as int)),
{
    assert(s.subrange(i, s.len() as int).drop_first() =~= s.subrange(i + 1, s.len() as int));
}

/// The bounds `(a, b)` of `trimmed(s)` within `s`.
pub fn trim_bounds(s: &Vec<char>) -> (r: (usize, usize))
    ensures
        r.0 <= r.1 <= s.len(),
        s@.subrange(r.0 as int, r.1 as int) == trimmed(s@),
{
    let n = s.len();
    let mut a: usize = 0;
    assert(s@.subrange(0, n as int) =~= s@);
    while a < n && is_white_char(s[a])
        invariant
            a <= n == s.len(),
            trim_front(s@) == trim_front(s@.subrange(a as int, n as int)),
        decreases n - a,
    {
        proof {
            trim_front_step(s@, a as int);
        }
        a = a + 1;
    }
    let ghost f = s@.subrange(a as int, n as int);
    assert(trim_front(f) == f);
    let mut b: usize = n;
    while b > a && is_white_char(s[b - 1])
        invariant
            a <= b <= n == s.len(),
            f == s@.subrange(a as int, n as int),
            trim_back(f) == trim_back(s@.subrange(a as int, b as int)),
        decreases b - a,
    {
        assert(s@.subrange(a as int, b as int).drop_last() =~= s@.subrange(a as int, b - 1));
        b = b - 1;
    }
    let ghost g = s@.subrange(a as int, b as int);
    assert(g.len() == 0 || !is_white(g.last()));
    assert(trim_back(g) == g);
    (a, b)
}

/// `trimmed(s)` as a new vector.
pub fn trim_chars(s: &Vec<char>) -> (r: Vec<char>)
    ensures
        r@ == trimmed(s@),
{
    let (a, b) = trim_bounds(s);
    slice_chars(s, a, b)
}

/// The characters of `s` from `a` up to `b`.
pub fn slice_chars(s: &Vec<char>, a: usize, b: usize) -> (r: Vec<char>)
    requires
        a <= b <= s.len(),
    ensures
        r@ == s@.subrange(a as int, b as int),
{
    let mut r: Vec<char> = Vec::new();
    let mut i: usize = a;
    while i < b
        invariant
            a <= i <= b <= s.len(),
            r@ == s@.subrange(a as int, i as int),
        decreases b - i,
    {
        r.push(s[i]);
        i = i + 1;
        assert(r@ =~= s@.subrange(a as int, i as int));
    }
    r
}

/// Whether `n` occurs in `h` at position `i`.
pub fn matches_at(h: &Vec<char>, n: &Vec<char>, i: usize) -> (r: bool)
    ensures
        r == occurs_at(h@, n@, i as int),
{
    if i > h.len() || n.len() > h.len() - i {
        return false;
    }
    let mut j: usize = 0;
    while j < n.len()
        invariant
            i + n.len() <= h.len(),
            j <= n.len(),
            forall|k: int| 0 <= k < j ==> h@[i + k] == n@[k],
        decreases n.len() - j,
    {
        if h[i + j] != n[j] {
            assert(h@.subrange(i as int, i + n.len())[j as int] != n@[j as int]);
            return false;
        }
        j = j + 1;
    }
    assert(h@.subrange(i as int, i + n.len()) =~= n@);
    true
}

/// Whether `h` begins with `n`.
pub fn starts_with(h: &Vec<char>, n: &Vec<char>) -> (r: bool)
    ensures
        r == seq_starts_with(h@, n@),
{
    matches_at(h, n, 0)
}

/// Whether `n` occurs somewhere in `h`.
pub fn contains(h: &Vec<char>, n: &Vec<char>) -> (r: bool)
    ensures
        r == seq_contains(h@, n@),
{
    if n.len() > h.len() {
        proof {
            assert forall|i: int| !occurs_at(h@, n@, i) by {}
        }
        return false;
    }
    let last = h.len() - n.len();
    let mut i: usize = 0;
    while i <= last
        invariant
            last == h.len() - n.len(),
            n.len() <= h.len(),
            i <= last,
            forall|k: int| 0 <= k < i ==> !occurs_at(h@, n@, k),
        ensures
            forall|k: int| 0 <= k <= last ==> !occurs_at(h@, n@, k),
        decreases last - i,
    {
        if matches_at(h, n, i) {
            return true;
        }
        if i == last {
            break;
        }
        i = i + 1;
    }
    proof {
        assert forall|k: int| !occurs_at(h@, n@, k) by {
            if 0 <= k <= last {
            }
        }
    }
    false
}

/// Whether the string `n` occurs somewhere in the string `h`.
pub fn str_contains(h: &str, n: &str) -> (r: bool)
    ensures
        r == seq_contains(h@, n@),
{
    let hc = chars_of(h);
    let nc = chars_of(n);
    contains(&hc, &nc)
}

/// Index of the first line feed at or after `i`, or `s.len()` if none.
pub open spec fn newline_from(s: Seq<char>, i: int) -> int
    decreases s.len() - i,
{
    if i >= s.len() {
        s.len() as int
    } else if s[i] == '\n' {
        i
    } else {
        newline_from(s, i + 1)
    }
}

/// The line that starts at `a` and ends before position `e`, without the
/// carriage return of a `\r\n` terminator.
pub open spec fn line_body(s: Seq<char>, a: int, e: int) -> Seq<char> {
    if e < s.len() && a < e && s[e - 1] == '\r' {
        s.subrange(a, e - 1)
    } else {
        s.subrange(a, e)
    }
}

/// The lines of `s` from position `a` on.
pub open spec fn lines_from(s: Seq<char>, a: int) -> Seq<Seq<char>>
    decreases s.len() + 1 - a,
{
    if a >= s.len() || a < 0 {
        Seq::empty()
    } else {
        let e = newline_from(s, a);
        if e < a || e > s.len() {
            Seq::empty()
        } else {
            seq![line_body(s, a, e)] + lines_from(s, e + 1)
        }
    }
}

/// The lines of `s` as `str::lines` gives them: split at `\n` or `\r\n`,
/// terminators dropped, no empty line after a final terminator.
pub open spec fn lines_of(s: Seq<char>) -> Seq<Seq<char>> {
    lines_from(s, 0)
}

/// The views of a sequence of character vectors.
pub open spec fn char_views(v: Seq<Vec<char>>) -> Seq<Seq<char>> {
    v.map_values(|l: Vec<char>| l@)
}

proof fn lemma_newline_from_bounds(s: Seq<char>, i: int)
    requires
        0 <= i,
    ensures
        i <= newline_from(s, i) || i > s.len(),
        newline_from(s, i) <= s.len() || i > s.len(),
        newline_from(s, i) < s.len() ==> s[newline_from(s, i)] == '\n',
    decreases s.len() - i,
{
    if i < s.len() && s[i] != '\n' {
        lemma_newline_from_bounds(s, i + 1);
    }
}

/// Splits `s` into its lines.
pub fn split_lines(s: &Vec<char>) -> (r: Vec<Vec<char>>)
    ensures
        char_views(r@) == lines_of(s@),
{
    let n = s.len();
    let mut r: Vec<Vec<char>> = Vec::new();
    let mut a: usize = 0;
    assert(char_views(r@) + lines_from(s@, 0) =~= lines_of(s@));
    while a < n
        invariant
            n == s.len(),
            a <= n,
            char_views(r@) + lines_from(s@, a as int) == lines_of(s@),
        decreases n - a,
    {
        let mut e: usize = a;
        while e < n && s[e] != '\n'
            invariant
                a <= e <= n == s.len(),
                newline_from(s@, a as int) == newline_from(s@, e as int),
            decreases n - e,
        {
            e = e + 1;
        }
        let end = if e < n && a < e && s[e - 1] == '\r' {
            e - 1
        } else {
            e
        };
        let line = slice_chars(s, a, end);
        proof {
            lemma_newline_from_bounds(s@, a as int);
            assert(line@ == line_body(s@, a as int, e as int));
        }
        let ghost prev = r@;
        r.push(line);
        assert(char_views(r@) =~= char_views(prev).push(line@));
        assert(lines_from(s@, a as int) == seq![line@] + lines_from(s@, e + 1));
        assert(char_views(r@) + lines_from(s@, e + 1) =~= char_views(prev) + lines_from(
            s@,
            a as int,
        ));
        if e == n {
            assert(lines_from(s@, e + 1) =~= Seq::<Seq<char>>::empty());
            a = n;
        } else {
            a = e + 1;
        }
    }
    assert(lines_from(s@, a as int) =~= Seq::<Seq<char>>::empty());
    assert(char_views(r@) =~= char_views(r@) + lines_from(s@, a as int));
    r
}

/// What `str::to_lowercase` returns for a string: its characters mapped
/// through Unicode's lowercase mapping.
pub uninterp spec fn lower_of(s: Seq<char>) -> Seq<char>;

/// Relies on `str::to_lowercase`: the result depends on the characters alone,
/// and an empty string stays empty.
#[verifier::external_body]
pub(crate) fn lowercase(s: &str) -> (r: String)
    ensures
        r@ == lower_of(s@),
        s@.len() == 0 ==> r@.len() == 0,
{
    s.to_lowercase()
}

/// Joins `ls` with a line feed between each two.
pub open spec fn join_lines(ls: Seq<Seq<char>>) -> Seq<char>
    decreases ls.len(),
{
    if ls.len() == 0 {
        Seq::empty()
    } else if ls.len() == 1 {
        ls[0]
    } else {
        join_lines(ls.drop_last()) + seq!['\n'] + ls.last()
    }
}

/// Joins the first `k` of `ls` with line feeds.
pub fn join_first_lines(ls: &Vec<Vec<char>>, k: usize) -> (r: Vec<char>)
    requires
        k <= ls.len(),
    ensures
        r@ == join_lines(char_views(ls@).take(k as int)),
{
    let mut r: Vec<char> = Vec::new();
    let mut i: usize = 0;
    while i < k
        invariant
            i <= k <= ls.len(),
            r@ == join_lines(char_views(ls@).take(i as int)),
        decreases k - i,
    {
        let ghost pre = char_views(ls@).take(i as int);
        let ghost cur = char_views(ls@).take(i + 1);
        assert(cur.drop_last() =~= pre);
        if i > 0 {
            r.push('\n');
        }
        let line = &ls[i];
        let mut j: usize = 0;
        let ghost base = r@;
        while j < line.len()
            invariant
                j <= line.len(),
                r@ == base + line@.take(j as int),
            decreases line.len() - j,
        {
            r.push(line[j]);
            j = j + 1;
            assert(r@ =~= base + line@.take(j as int));
        }
        assert(line@.take(j as int) =~= line@);
        if i == 0 {
            assert(r@ =~= cur[0]);
        }
        i = i + 1;
    }
    r
}

} // verus!
