//! Character-level helpers on text: whitespace trimming, prefix and suffix
//! tests, searching, the identifier grammar and a bracket-aware splitter.
use vstd::prelude::*;

verus! {

/// The characters that `char::is_whitespace` accepts (Unicode `White_Space`).
pub open spec fn is_space(c: char) -> bool {
    let u = c as u32;
    (0x9 <= u <= 0xd) || u == 0x20 || u == 0x85 || u == 0xa0 || u == 0x1680 || (0x2000 <= u
        <= 0x200a) || u == 0x2028 || u == 0x2029 || u == 0x202f || u == 0x205f || u == 0x3000
}

pub open spec fn trim_start(s: Seq<char>) -> Seq<char>
    decreases s.len(),
{
    if s.len() > 0 && is_space(s[0]) {
        trim_start(s.drop_first())
    } else {
        s
    }
}

pub open spec fn trim_end(s: Seq<char>) -> Seq<char>
    decreases s.len(),
{
    if s.len() > 0 && is_space(s.last()) {
        trim_end(s.drop_last())
    } else {
        s
    }
}

/// `s` without leading and trailing whitespace.
pub open spec fn trim(s: Seq<char>) -> Seq<char> {
    trim_end(trim_start(s))
}

pub open spec fn starts_with(s: Seq<char>, p: Seq<char>) -> bool {
    p.len() <= s.len() && s.subrange(0, p.len() as int) == p
}

pub open spec fn ends_with(s: Seq<char>, p: Seq<char>) -> bool {
    p.len() <= s.len() && s.subrange(s.len() - p.len(), s.len() as int) == p
}

pub open spec fn occurs_at(s: Seq<char>, p: Seq<char>, i: int) -> bool {
    0 <= i && i + p.len() <= s.len() && s.subrange(i, i + p.len()) == p
}

pub open spec fn find_from(s: Seq<char>, p: Seq<char>, i: int) -> Option<int>
    decreases s.len() + 1 - i,
{
    if i < 0 || i + p.len() > s.len() {
        None
    } else if occurs_at(s, p, i) {
        Some(i)
    } else {
        find_from(s, p, i + 1)
    }
}

/// The first position at which `p` occurs in `s`.
pub open spec fn find(s: Seq<char>, p: Seq<char>) -> Option<int> {
    find_from(s, p, 0)
}

pub open spec fn rfind_below(s: Seq<char>, c: char, i: int) -> Option<int>
    decreases i,
{
    if i <= 0 || i > s.len() {
        None
    } else if s[i - 1] == c {
        Some(i - 1)
    } else {
        rfind_below(s, c, i - 1)
    }
}

/// The last position of `c` in `s`.
pub open spec fn rfind(s: Seq<char>, c: char) -> Option<int> {
    rfind_below(s, c, s.len() as int)
}

pub open spec fn is_ident_start(c: char) -> bool {
    ('a' <= c <= 'z') || ('A' <= c <= 'Z') || c == '_'
}

pub open spec fn is_ident_char(c: char) -> bool {
    is_ident_start(c) || ('0' <= c <= '9')
}

/// The identifier grammar: a letter or `_`, then letters, digits and `_`.
pub open spec fn is_identifier(s: Seq<char>) -> bool {
    s.len() > 0 && is_ident_start(s[0]) && forall|i: int| 1 <= i < s.len() ==> #[trigger] is_ident_char(s[i])
}

/// How a character changes the bracket nesting depth.
pub open spec fn depth_step(c: char) -> int {
    if c == '(' || c == '[' || c == '{' {
        1
    } else if c == ')' || c == ']' || c == '}' {
        -1
    } else {
        0
    }
}

/// The last position of `p` outside any brackets in `s`, scanning from `i`
/// at nesting depth `d` with `last` found so far; `None` where the brackets
/// do not balance.
pub open spec fn scan_last(s: Seq<char>, p: Seq<char>, i: int, d: int, last: Option<int>) -> Option<
    Option<int>,
>
    decreases s.len() - i,
{
    if i >= s.len() {
        if d == 0 {
            Some(last)
        } else {
            None
        }
    } else if d == 0 && p.len() > 0 && occurs_at(s, p, i) {
        scan_last(s, p, i + p.len(), 0, Some(i))
    } else if d + depth_step(s[i]) < 0 {
        None
    } else {
        scan_last(s, p, i + 1, d + depth_step(s[i]), last)
    }
}

/// Where the brackets of `s` balance: the last position of `p` outside any
/// brackets, if there is one.
pub open spec fn top_last(s: Seq<char>, p: Seq<char>) -> Option<Option<int>> {
    scan_last(s, p, 0, 0, None)
}

pub proof fn lemma_scan_last_bound(s: Seq<char>, p: Seq<char>, i: int, d: int, last: Option<int>)
    requires
        0 <= i,
        last matches Some(q) ==> 0 <= q && q + p.len() <= s.len(),
    ensures
        scan_last(s, p, i, d, last) matches Some(Some(q)) ==> 0 <= q && q + p.len() <= s.len(),
    decreases s.len() - i,
{
    if i >= s.len() {
    } else if d == 0 && p.len() > 0 && occurs_at(s, p, i) {
        lemma_scan_last_bound(s, p, i + p.len(), 0, Some(i));
    } else if d + depth_step(s[i]) < 0 {
    } else {
        lemma_scan_last_bound(s, p, i + 1, d + depth_step(s[i]), last);
    }
}

pub open spec fn find_top_from(s: Seq<char>, c: char, i: int, d: int) -> Option<int>
    decreases s.len() - i,
{
    if i < 0 || i >= s.len() {
        None
    } else if d == 0 && s[i] == c {
        Some(i)
    } else {
        find_top_from(s, c, i + 1, d + depth_step(s[i]))
    }
}

/// The first position of `c` in `s` outside any brackets.
pub open spec fn find_top(s: Seq<char>, c: char) -> Option<int> {
    find_top_from(s, c, 0, 0)
}

/// The segments of `ss` joined with `sep` between them.
pub open spec fn join(ss: Seq<Seq<char>>, sep: Seq<char>) -> Seq<char>
    decreases ss.len(),
{
    if ss.len() == 0 {
        Seq::empty()
    } else if ss.len() == 1 {
        ss[0]
    } else {
        join(ss.drop_last(), sep) + sep + ss.last()
    }
}

pub proof fn lemma_find_bound(s: Seq<char>, p: Seq<char>, i: int)
    ensures
        find_from(s, p, i) matches Some(k) ==> i <= k && k + p.len() <= s.len(),
    decreases s.len() + 1 - i,
{
    if !(i < 0 || i + p.len() > s.len()) && !occurs_at(s, p, i) {
        lemma_find_bound(s, p, i + 1);
    }
}

pub proof fn lemma_find_top_bound(s: Seq<char>, c: char, i: int, d: int)
    ensures
        find_top_from(s, c, i, d) matches Some(k) ==> i <= k < s.len(),
    decreases s.len() - i,
{
    if !(i < 0 || i >= s.len()) && !(d == 0 && s[i] == c) {
        lemma_find_top_bound(s, c, i + 1, d + depth_step(s[i]));
    }
}

pub proof fn lemma_rfind_bound(s: Seq<char>, c: char, i: int)
    ensures
        rfind_below(s, c, i) matches Some(k) ==> 0 <= k < i,
    decreases i,
{
    if !(i <= 0 || i > s.len()) && s[i - 1] != c {
        lemma_rfind_bound(s, c, i - 1);
    }
}

pub proof fn lemma_trim_start_len(s: Seq<char>)
    ensures
        trim_start(s).len() <= s.len(),
    decreases s.len(),
{
    if s.len() > 0 && is_space(s[0]) {
        lemma_trim_start_len(s.drop_first());
    }
}

pub proof fn lemma_trim_end_len(s: Seq<char>)
    ensures
        trim_end(s).len() <= s.len(),
    decreases s.len(),
{
    if s.len() > 0 && is_space(s.last()) {
        lemma_trim_end_len(s.drop_last());
    }
}

pub proof fn lemma_trim_len(s: Seq<char>)
    ensures
        trim(s).len() <= s.len(),
{
    lemma_trim_start_len(s);
    lemma_trim_end_len(trim_start(s));
}

pub fn space(c: char) -> (r: bool)
    ensures
        r == is_space(c),
{
    let u = c as u32;
    (0x9 <= u && u <= 0xd) || u == 0x20 || u == 0x85 || u == 0xa0 || u == 0x1680 || (0x2000 <= u
        && u <= 0x200a) || u == 0x2028 || u == 0x2029 || u == 0x202f || u == 0x205f || u == 0x3000
}

/// `s` without leading and trailing whitespace.
pub fn trimmed(s: &str) -> (r: &str)
    ensures
        r@ == trim(s@),
{
    let n = s.unicode_len();
    let mut i: usize = 0;
    assert(s@.subrange(0, n as int) =~= s@);
    while i < n && space(s.get_char(i))
        invariant
            n == s@.len(),
            i <= n,
            trim_start(s@) == trim_start(s@.subrange(i as int, n as int)),
        decreases n - i,
    {
        assert(s@.subrange(i as int, n as int).drop_first() =~= s@.subrange(i + 1, n as int));
        i = i + 1;
    }
    let mut j: usize = n;
    while j > i && space(s.get_char(j - 1))
        invariant
            n == s@.len(),
            i <= j <= n,
            trim(s@) == trim_end(s@.subrange(i as int, j as int)),
        decreases j,
    {
        assert(s@.subrange(i as int, j as int).drop_last() =~= s@.subrange(i as int, j - 1));
        j = j - 1;
    }
    s.substring_char(i, j)
}

/// Whether `p` occurs in `s` at position `i`.
pub fn occurs(s: &str, p: &str, i: usize) -> (r: bool)
    ensures
        r == occurs_at(s@, p@, i as int),
{
    let n = s.unicode_len();
    let m = p.unicode_len();
    if m > n || i > n - m {
        return false;
    }
    let mut k: usize = 0;
    while k < m
        invariant
            n == s@.len(),
            m == p@.len(),
            i + m <= n,
            k <= m,
            forall|j: int| 0 <= j < k ==> s@[i + j] == p@[j],
        decreases m - k,
    {
        if s.get_char(i + k) != p.get_char(k) {
            assert(s@.subrange(i as int, i + m)[k as int] != p@[k as int]);
            return false;
        }
        k = k + 1;
    }
    assert(s@.subrange(i as int, i + m) =~= p@);
    true
}

pub fn has_prefix(s: &str, p: &str) -> (r: bool)
    ensures
        r == starts_with(s@, p@),
{
    occurs(s, p, 0)
}

pub fn has_suffix(s: &str, p: &str) -> (r: bool)
    ensures
        r == ends_with(s@, p@),
{
    let n = s.unicode_len();
    let m = p.unicode_len();
    if m > n {
        false
    } else {
        occurs(s, p, n - m)
    }
}

/// The first position at which `p` occurs in `s`.
pub fn find_str(s: &str, p: &str) -> (r: Option<usize>)
    ensures
        r matches Some(k) ==> find(s@, p@) == Some(k as int),
        r is None ==> find(s@, p@) is None,
{
    let n = s.unicode_len();
    let m = p.unicode_len();
    if m > n {
        return None;
    }
    let mut i: usize = 0;
    while i <= n - m
        invariant
            n == s@.len(),
            m == p@.len(),
            m <= n,
            i <= n - m + 1,
            find(s@, p@) == find_from(s@, p@, i as int),
        decreases n - m + 1 - i,
    {
        if occurs(s, p, i) {
            return Some(i);
        }
        if i == n - m {
            assert(find_from(s@, p@, i + 1) is None);
            return None;
        }
        i = i + 1;
    }
    None
}

/// The last position of `c` in `s`.
pub fn rfind_char(s: &str, c: char) -> (r: Option<usize>)
    ensures
        r matches Some(k) ==> rfind(s@, c) == Some(k as int),
        r is None ==> rfind(s@, c) is None,
{
    let mut i: usize = s.unicode_len();
    while i > 0
        invariant
            i <= s@.len(),
            rfind(s@, c) == rfind_below(s@, c, i as int),
        decreases i,
    {
        if s.get_char(i - 1) == c {
            return Some(i - 1);
        }
        i = i - 1;
    }
    None
}

/// Whether `s` is a well-formed identifier.
pub fn identifier(s: &str) -> (r: bool)
    ensures
        r == is_identifier(s@),
{
    let n = s.unicode_len();
    if n == 0 {
        return false;
    }
    let c0 = s.get_char(0);
    if !(('a' <= c0 && c0 <= 'z') || ('A' <= c0 && c0 <= 'Z') || c0 == '_') {
        return false;
    }
    let mut i: usize = 1;
    while i < n
        invariant
            n == s@.len(),
            1 <= i <= n,
            forall|j: int| 1 <= j < i ==> #[trigger] is_ident_char(s@[j]),
        decreases n - i,
    {
        let c = s.get_char(i);
        if !(('a' <= c && c <= 'z') || ('A' <= c && c <= 'Z') || c == '_' || ('0' <= c && c
            <= '9')) {
            assert(!is_ident_char(s@[i as int]));
            return false;
        }
        i = i + 1;
    }
    true
}

/// Whether `a` and `b` hold the same characters.
pub fn same(a: &str, b: &str) -> (r: bool)
    ensures
        r == (a@ == b@),
{
    if a.unicode_len() != b.unicode_len() {
        return false;
    }
    assert(a@ =~= a@.subrange(0, b@.len() as int));
    occurs(a, b, 0)
}

/// The first position of `c` in `s` outside any brackets.
pub fn find_top_char(s: &str, c: char) -> (r: Option<usize>)
    ensures
        r matches Some(k) ==> find_top(s@, c) == Some(k as int),
        r is None ==> find_top(s@, c) is None,
{
    let n = s.unicode_len();
    let mut i: usize = 0;
    let mut d: i128 = 0;
    while i < n
        invariant
            n == s@.len(),
            i <= n,
            -(i as int) <= d <= i,
            find_top(s@, c) == find_top_from(s@, c, i as int, d as int),
        decreases n - i,
    {
        let x = s.get_char(i);
        if d == 0 && x == c {
            return Some(i);
        }
        if x == '(' || x == '[' || x == '{' {
            d = d + 1;
        } else if x == ')' || x == ']' || x == '}' {
            d = d - 1;
        }
        i = i + 1;
    }
    None
}

/// Where the brackets of `s` balance: the last position of `p` outside any
/// brackets, if there is one.
pub fn last_outside(s: &str, p: &str) -> (r: Option<Option<usize>>)
    requires
        p@.len() > 0,
    ensures
        r is None <==> top_last(s@, p@) is None,
        r matches Some(None) ==> top_last(s@, p@) == Some(None::<int>),
        r matches Some(Some(q)) ==> top_last(s@, p@) == Some(Some(q as int)),
{
    let n = s.unicode_len();
    let m = p.unicode_len();
    let mut i: usize = 0;
    let mut d: usize = 0;
    let mut last: Option<usize> = None;
    while i < n
        invariant
            n == s@.len(),
            m == p@.len(),
            m > 0,
            i <= n,
            d <= i,
            top_last(s@, p@) == scan_last(
                s@,
                p@,
                i as int,
                d as int,
                match last {
                    Some(q) => Some(q as int),
                    None => None,
                },
            ),
        decreases n - i,
    {
        if d == 0 && occurs(s, p, i) {
            last = Some(i);
            i = i + m;
        } else {
            let c = s.get_char(i);
            if c == '(' || c == '[' || c == '{' {
                d = d + 1;
            } else if c == ')' || c == ']' || c == '}' {
                if d == 0 {
                    return None;
                }
                d = d - 1;
            }
            i = i + 1;
        }
    }
    if d != 0 {
        return None;
    }
    Some(last)
}

} // verus!
