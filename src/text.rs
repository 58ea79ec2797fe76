//! Character-sequence operations that the scanner is built on: whitespace,
//! trimming, removing a character everywhere, and finding a character.
use vstd::prelude::*;

verus! {

/// Whether `c` has the Unicode `White_Space` property, as `char::is_whitespace` decides.
pub open spec fn spec_is_whitespace(c: char) -> bool {
    c == '\t' || c == '\n' || c == '\u{0B}' || c == '\u{0C}' || c == '\r' || c == ' '
        || c == '\u{85}' || c == '\u{A0}' || c == '\u{1680}' || ('\u{2000}' <= c
        && c <= '\u{200A}') || c == '\u{2028}' || c == '\u{2029}' || c == '\u{202F}'
        || c == '\u{205F}' || c == '\u{3000}'
}

/// Whether `c` is a whitespace character (Unicode `White_Space`).
pub fn is_whitespace(c: char) -> (r: bool)
    ensures
        r == spec_is_whitespace(c),
{
    c == '\t' || c == '\n' || c == '\u{0B}' || c == '\u{0C}' || c == '\r' || c == ' '
        || c == '\u{85}' || c == '\u{A0}' || c == '\u{1680}' || ('\u{2000}' <= c
        && c <= '\u{200A}') || c == '\u{2028}' || c == '\u{2029}' || c == '\u{202F}'
        || c == '\u{205F}' || c == '\u{3000}'
}

/// Index of the first `c` in `s`, or `s.len()` when `s` holds no `c`.
pub open spec fn find_char(s: Seq<char>, c: char) -> nat
    decreases s.len(),
{
    if s.len() == 0 {
        0
    } else if s[0] == c {
        0
    } else {
        1 + find_char(s.drop_first(), c)
    }
}

/// `i` is where `c` first occurs in `s` (or the end, if it never does).
pub open spec fn is_first_index(s: Seq<char>, c: char, i: int) -> bool {
    &&& 0 <= i <= s.len()
    &&& forall|j: int| 0 <= j < i ==> s[j] != c
    &&& i < s.len() ==> s[i] == c
}

pub proof fn lemma_find_char(s: Seq<char>, c: char)
    ensures
        is_first_index(s, c, find_char(s, c) as int),
    decreases s.len(),
{
    if s.len() > 0 && s[0] != c {
        lemma_find_char(s.drop_first(), c);
        let i = find_char(s.drop_first(), c) as int;
        assert forall|j: int| 0 <= j < i + 1 implies s[j] != c by {
            if j > 0 {
                assert(s[j] == s.drop_first()[j - 1]);
            }
        }
    }
}

pub proof fn lemma_find_char_unique(s: Seq<char>, c: char, i: int)
    requires
        is_first_index(s, c, i),
    ensures
        find_char(s, c) == i,
{
    lemma_find_char(s, c);
    let k = find_char(s, c) as int;
    if k < i {
        assert(s[k] == c);
    } else if i < k {
        assert(s[i] == c);
    }
}

/// Position of the first `c` in `s`, or `s.len()` when there is none.
pub fn find_in(s: &[char], c: char) -> (r: usize)
    ensures
        r == find_char(s@, c),
{
    let mut i: usize = 0;
    while i < s.len()
        invariant
            0 <= i <= s.len(),
            forall|j: int| 0 <= j < i ==> s@[j] != c,
        decreases s.len() - i,
    {
        if s[i] == c {
            proof {
                lemma_find_char_unique(s@, c, i as int);
            }
            return i;
        }
        i = i + 1;
    }
    proof {
        lemma_find_char_unique(s@, c, i as int);
    }
    i
}

/// `s` without its leading whitespace.
pub open spec fn trim_start(s: Seq<char>) -> Seq<char>
    decreases s.len(),
{
    if s.len() > 0 && spec_is_whitespace(s[0]) {
        trim_start(s.drop_first())
    } else {
        s
    }
}

/// `s` without its trailing whitespace.
pub open spec fn trim_end(s: Seq<char>) -> Seq<char>
    decreases s.len(),
{
    if s.len() > 0 && spec_is_whitespace(s.last()) {
        trim_end(s.drop_last())
    } else {
        s
    }
}

/// `s` without leading and trailing whitespace; whitespace inside is kept.
pub open spec fn trim_ws(s: Seq<char>) -> Seq<char> {
    trim_end(trim_start(s))
}

/// `s` with every occurrence of `d` taken out.
pub open spec fn without_char(s: Seq<char>, d: char) -> Seq<char>
    decreases s.len(),
{
    if s.len() == 0 {
        s
    } else if s.last() == d {
        without_char(s.drop_last(), d)
    } else {
        without_char(s.drop_last(), d).push(s.last())
    }
}

pub proof fn lemma_trim_start(s: Seq<char>, i: int)
    requires
        0 <= i <= s.len(),
        forall|k: int| 0 <= k < i ==> spec_is_whitespace(#[trigger] s[k]),
        i < s.len() ==> !spec_is_whitespace(s[i]),
    ensures
        trim_start(s) == s.subrange(i, s.len() as int),
    decreases i,
{
    if i == 0 {
        assert(s.subrange(0, s.len() as int) =~= s);
    } else {
        let t = s.drop_first();
        assert forall|k: int| 0 <= k < i - 1 implies spec_is_whitespace(#[trigger] t[k]) by {
            assert(t[k] == s[k + 1]);
        }
        lemma_trim_start(t, i - 1);
        assert(t.subrange(i - 1, t.len() as int) =~= s.subrange(i, s.len() as int));
    }
}

pub proof fn lemma_trim_end(s: Seq<char>, j: int)
    requires
        0 <= j <= s.len(),
        forall|k: int| j <= k < s.len() ==> spec_is_whitespace(#[trigger] s[k]),
        j > 0 ==> !spec_is_whitespace(s[j - 1]),
    ensures
        trim_end(s) == s.subrange(0, j),
    decreases s.len() - j,
{
    if j == s.len() {
        assert(s.subrange(0, j) =~= s);
    } else {
        let t = s.drop_last();
        assert(spec_is_whitespace(s[s.len() - 1]));
        lemma_trim_end(t, j);
        assert(t.subrange(0, j) =~= s.subrange(0, j));
    }
}

/// Where the whitespace-trimmed text starts and ends inside `s`.
pub proof fn lemma_trim_ws_bounds(s: Seq<char>) -> (r: (int, int))
    ensures
        0 <= r.0 <= r.1 <= s.len(),
        trim_ws(s) == s.subrange(r.0, r.1),
        forall|k: int| 0 <= k < r.0 ==> spec_is_whitespace(#[trigger] s[k]),
        forall|k: int| r.1 <= k < s.len() ==> spec_is_whitespace(#[trigger] s[k]),
        r.0 < r.1 ==> !spec_is_whitespace(s[r.0]) && !spec_is_whitespace(s[r.1 - 1]),
    decreases s.len(),
{
    if s.len() == 0 {
        lemma_trim_start(s, 0);
        lemma_trim_end(s, 0);
        assert(s.subrange(0, 0) =~= s);
        (0, 0)
    } else if spec_is_whitespace(s[0]) {
        let t = s.drop_first();
        let (a, b) = lemma_trim_ws_bounds(t);
        assert forall|k: int| 0 <= k < a + 1 implies spec_is_whitespace(#[trigger] s[k]) by {
            if k > 0 {
                assert(s[k] == t[k - 1]);
            }
        }
        assert forall|k: int| b + 1 <= k < s.len() implies spec_is_whitespace(#[trigger] s[k]) by {
            assert(s[k] == t[k - 1]);
        }
        assert(t.subrange(a, b) =~= s.subrange(a + 1, b + 1));
        if a < b {
            assert(s[a + 1] == t[a]);
            assert(s[b] == t[b - 1]);
        }
        (a + 1, b + 1)
    } else {
        lemma_trim_start(s, 0);
        assert(s.subrange(0, s.len() as int) =~= s);
        let j = choose_end(s);
        lemma_trim_end(s, j);
        (0, j)
    }
}

/// One past the last non-whitespace character of `s` (0 when there is none).
proof fn choose_end(s: Seq<char>) -> (j: int)
    ensures
        0 <= j <= s.len(),
        forall|k: int| j <= k < s.len() ==> spec_is_whitespace(#[trigger] s[k]),
        j > 0 ==> !spec_is_whitespace(s[j - 1]),
    decreases s.len(),
{
    if s.len() == 0 {
        0
    } else if spec_is_whitespace(s.last()) {
        let j = choose_end(s.drop_last());
        assert forall|k: int| j <= k < s.len() implies spec_is_whitespace(#[trigger] s[k]) by {
            if k < s.len() - 1 {
                assert(s[k] == s.drop_last()[k]);
            }
        }
        if j > 0 {
            assert(s[j - 1] == s.drop_last()[j - 1]);
        }
        j
    } else {
        s.len() as int
    }
}

/// The elements `s[lo..hi]` as a new vector.
pub fn copy_range(s: &[char], lo: usize, hi: usize) -> (r: Vec<char>)
    requires
        lo <= hi <= s@.len(),
    ensures
        r@ == s@.subrange(lo as int, hi as int),
{
    let mut r: Vec<char> = Vec::new();
    let mut i: usize = lo;
    while i < hi
        invariant
            lo <= i <= hi <= s@.len(),
            r@ == s@.subrange(lo as int, i as int),
        decreases hi - i,
    {
        r.push(s[i]);
        assert(r@ =~= s@.subrange(lo as int, i + 1));
        i = i + 1;
    }
    r
}

/// `s` without leading and trailing whitespace.
pub fn trim(s: &[char]) -> (r: Vec<char>)
    ensures
        r@ == trim_ws(s@),
{
    let n = s.len();
    let mut i: usize = 0;
    while i < n && is_whitespace(s[i])
        invariant
            0 <= i <= n == s@.len(),
            forall|k: int| 0 <= k < i ==> spec_is_whitespace(#[trigger] s@[k]),
        decreases n - i,
    {
        i = i + 1;
    }
    let mut j: usize = n;
    while j > i && is_whitespace(s[j - 1])
        invariant
            i <= j <= n == s@.len(),
            forall|k: int| j <= k < n ==> spec_is_whitespace(#[trigger] s@[k]),
        decreases j,
    {
        j = j - 1;
    }
    proof {
        lemma_trim_start(s@, i as int);
        let t = s@.subrange(i as int, n as int);
        assert forall|k: int| j - i <= k < t.len() implies spec_is_whitespace(#[trigger] t[k]) by {
            assert(t[k] == s@[k + i]);
        }
        if j > i {
            assert(t[j - i - 1] == s@[j - 1]);
        }
        lemma_trim_end(t, j - i);
        assert(t.subrange(0, j - i) =~= s@.subrange(i as int, j as int));
    }
    copy_range(s, i, j)
}

/// `s` with every occurrence of `d` taken out.
pub fn remove_char(s: &[char], d: char) -> (r: Vec<char>)
    ensures
        r@ == without_char(s@, d),
{
    let mut r: Vec<char> = Vec::new();
    let mut i: usize = 0;
    while i < s.len()
        invariant
            0 <= i <= s@.len(),
            r@ == without_char(s@.subrange(0, i as int), d),
        decreases s@.len() - i,
    {
        proof {
            let p = s@.subrange(0, i + 1);
            assert(p.drop_last() =~= s@.subrange(0, i as int));
            assert(p.last() == s@[i as int]);
        }
        if s[i] != d {
            r.push(s[i]);
        }
        i = i + 1;
    }
    assert(s@.subrange(0, s@.len() as int) =~= s@);
    r
}

/// How the scanner trims text under delimiter `delim`: the ordinary blank `' '`
/// trims whitespace at both edges only; any other delimiter is removed everywhere.
pub open spec fn trim_rule(s: Seq<char>, delim: char) -> Seq<char> {
    if delim == ' ' {
        trim_ws(s)
    } else {
        without_char(s, delim)
    }
}

pub proof fn lemma_trim_ws_len(s: Seq<char>)
    ensures
        trim_ws(s).len() <= s.len(),
{
    let _ = lemma_trim_ws_bounds(s);
}

pub proof fn lemma_without_char_len(s: Seq<char>, d: char)
    ensures
        without_char(s, d).len() <= s.len(),
    decreases s.len(),
{
    if s.len() > 0 {
        lemma_without_char_len(s.drop_last(), d);
    }
}

/// Nothing that the trim rule produces is longer than its input.
pub proof fn lemma_trim_rule_len(s: Seq<char>, delim: char)
    ensures
        trim_rule(s, delim).len() <= s.len(),
{
    lemma_trim_ws_len(s);
    lemma_without_char_len(s, delim);
}

pub proof fn lemma_without_char_absent(s: Seq<char>, d: char)
    ensures
        !without_char(s, d).contains(d),
    decreases s.len(),
{
    if s.len() > 0 {
        lemma_without_char_absent(s.drop_last(), d);
        let t = without_char(s.drop_last(), d);
        if s.last() != d {
            assert forall|k: int| 0 <= k < t.push(s.last()).len() implies t.push(s.last())[k]
                != d by {
                if k < t.len() {
                    assert(t.push(s.last())[k] == t[k]);
                }
            }
        }
    }
}

pub proof fn lemma_without_char_of_absent(s: Seq<char>, d: char)
    requires
        !s.contains(d),
    ensures
        without_char(s, d) == s,
    decreases s.len(),
{
    if s.len() > 0 {
        assert(s.last() == s[s.len() - 1]);
        assert(!s.drop_last().contains(d)) by {
            if s.drop_last().contains(d) {
                let k = choose|k: int| 0 <= k < s.drop_last().len() && s.drop_last()[k] == d;
                assert(s[k] == d);
            }
        }
        lemma_without_char_of_absent(s.drop_last(), d);
        assert(s.drop_last().push(s.last()) =~= s);
    }
}

pub proof fn lemma_trim_ws_idempotent(s: Seq<char>)
    ensures
        trim_ws(trim_ws(s)) == trim_ws(s),
{
    let (a, b) = lemma_trim_ws_bounds(s);
    let t = trim_ws(s);
    if a < b {
        assert(t[0] == s[a]);
        assert(t[t.len() - 1] == s[b - 1]);
    }
    lemma_trim_start(t, 0);
    assert(t.subrange(0, t.len() as int) =~= t);
    lemma_trim_end(t, t.len() as int);
}

/// Trimming twice gives what trimming once gives, under either trim rule (and
/// so in particular for the ordinary whitespace delimiter).
pub proof fn law_trim_idempotent(s: Seq<char>, delim: char)
    ensures
        trim_rule(trim_rule(s, delim), delim) == trim_rule(s, delim),
{
    lemma_trim_ws_idempotent(s);
    lemma_without_char_absent(s, delim);
    lemma_without_char_of_absent(without_char(s, delim), delim);
}

/// `s` without its leading newlines.
pub open spec fn trim_newlines(s: Seq<char>) -> Seq<char>
    decreases s.len(),
{
    if s.len() > 0 && s[0] == '\n' {
        trim_newlines(s.drop_first())
    } else {
        s
    }
}

/// Where the text without leading newlines starts inside `s`.
pub proof fn lemma_trim_newlines(s: Seq<char>) -> (i: int)
    ensures
        0 <= i <= s.len(),
        trim_newlines(s) == s.subrange(i, s.len() as int),
        forall|k: int| 0 <= k < i ==> #[trigger] s[k] == '\n',
        i < s.len() ==> s[i] != '\n',
    decreases s.len(),
{
    if s.len() > 0 && s[0] == '\n' {
        let t = s.drop_first();
        let j = lemma_trim_newlines(t);
        assert forall|k: int| 0 <= k < j + 1 implies #[trigger] s[k] == '\n' by {
            if k > 0 {
                assert(s[k] == t[k - 1]);
            }
        }
        assert(t.subrange(j, t.len() as int) =~= s.subrange(j + 1, s.len() as int));
        if j + 1 < s.len() {
            assert(s[j + 1] == t[j]);
        }
        j + 1
    } else {
        assert(s.subrange(0, s.len() as int) =~= s);
        0
    }
}

proof fn lemma_trim_newlines_at(s: Seq<char>, i: int)
    requires
        0 <= i <= s.len(),
        forall|k: int| 0 <= k < i ==> #[trigger] s[k] == '\n',
        i < s.len() ==> s[i] != '\n',
    ensures
        trim_newlines(s) == s.subrange(i, s.len() as int),
{
    let j = lemma_trim_newlines(s);
    if j < i {
        assert(s[j] == '\n');
    } else if i < j {
        assert(s[i] == '\n');
    }
}

/// `s` without its leading newlines.
pub fn drop_leading_newlines(s: &[char]) -> (r: Vec<char>)
    ensures
        r@ == trim_newlines(s@),
{
    let mut i: usize = 0;
    while i < s.len() && s[i] == '\n'
        invariant
            0 <= i <= s@.len(),
            forall|k: int| 0 <= k < i ==> #[trigger] s@[k] == '\n',
        decreases s@.len() - i,
    {
        i = i + 1;
    }
    proof {
        lemma_trim_newlines_at(s@, i as int);
    }
    copy_range(s, i, s.len())
}

/// What the trim rule of `delim` leaves, without leading newlines, starts
/// neither with a newline nor with `delim`, and is no longer than `s`.
pub proof fn lemma_settled(s: Seq<char>, delim: char)
    ensures
        ({
            let u = trim_newlines(trim_rule(s, delim));
            &&& u.len() <= s.len()
            &&& u.len() > 0 ==> u[0] != '\n' && u[0] != delim
        }),
{
    let t = trim_rule(s, delim);
    lemma_trim_rule_len(s, delim);
    let i = lemma_trim_newlines(t);
    let u = trim_newlines(t);
    if u.len() > 0 {
        assert(u[0] == t[i]);
        if delim == ' ' {
            let (a, b) = lemma_trim_ws_bounds(s);
            assert(t[i] == s[a + i]);
            if i > 0 {
                assert(t[0] == s[a]);
            }
        } else {
            lemma_without_char_absent(s, delim);
        }
    }
}

/// Under the blank delimiter, trimming already removes leading newlines.
pub proof fn lemma_trim_ws_no_newline(s: Seq<char>)
    ensures
        trim_newlines(trim_ws(s)) == trim_ws(s),
{
    let (a, b) = lemma_trim_ws_bounds(s);
    let t = trim_ws(s);
    if t.len() > 0 {
        assert(t[0] == s[a]);
    }
    lemma_trim_newlines_at(t, 0);
    assert(t.subrange(0, t.len() as int) =~= t);
}

/// Trims `s` by the trim rule of delimiter `delim`.
pub fn trim_by(s: &[char], delim: char) -> (r: Vec<char>)
    ensures
        r@ == trim_rule(s@, delim),
{
    if delim == ' ' {
        trim(s)
    } else {
        remove_char(s, delim)
    }
}

/// The characters of `s`, in order.
pub fn chars_of(s: &str) -> (r: Vec<char>)
    ensures
        r@ == s@,
{
    let n = s.unicode_len();
    let mut r: Vec<char> = Vec::new();
    let mut i: usize = 0;
    while i < n
        invariant
            0 <= i <= n == s@.len(),
            r@ == s@.subrange(0, i as int),
        decreases n - i,
    {
        r.push(s.get_char(i));
        assert(r@ =~= s@.subrange(0, i + 1));
        i = i + 1;
    }
    assert(s@.subrange(0, n as int) =~= s@);
    r
}

/// Relies on `String::push`: the character is appended at the end.
#[verifier::external_body]
fn push_char(s: &mut String, c: char)
    ensures
        final(s)@ == old(s)@.push(c),
{
    s.push(c);
}

/// The characters of `v` collected into a string.
pub fn string_of(v: &[char]) -> (r: String)
    ensures
        r@ == v@,
{
    let mut r = String::new();
    let mut i: usize = 0;
    while i < v.len()
        invariant
            0 <= i <= v@.len(),
            r@ == v@.subrange(0, i as int),
        decreases v@.len() - i,
    {
        push_char(&mut r, v[i]);
        assert(r@ =~= v@.subrange(0, i + 1));
        i = i + 1;
    }
    assert(v@.subrange(0, v@.len() as int) =~= v@);
    r
}

} // verus!
