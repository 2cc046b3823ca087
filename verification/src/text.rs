//! Character-sequence primitives: searching, trimming and building strings.
//!
//! Every string the library inspects is first turned into its sequence of
//! `char`s; the specifications below speak of those sequences.
use vstd::prelude::*;

verus! {

// ---------------------------------------------------------------------------
// Specifications
// ---------------------------------------------------------------------------

/// `pat` occurs in `s` starting at index `i`.
pub open spec fn occurs_at(s: Seq<char>, pat: Seq<char>, i: int) -> bool {
    &&& 0 <= i
    &&& i + pat.len() <= s.len()
    &&& s.subrange(i, i + pat.len()) == pat
}

/// `pat` occurs somewhere in `s`.
pub open spec fn contains(s: Seq<char>, pat: Seq<char>) -> bool {
    exists|i: int| occurs_at(s, pat, i)
}

/// `s` begins with `pat`.
pub open spec fn starts_with(s: Seq<char>, pat: Seq<char>) -> bool {
    occurs_at(s, pat, 0)
}

/// The first index at or after `start` where `pat` occurs in `s`.
pub open spec fn find_from(s: Seq<char>, pat: Seq<char>, start: int) -> Option<int>
    decreases s.len() + 1 - start,
{
    if start < 0 || start + pat.len() > s.len() {
        None
    } else if occurs_at(s, pat, start) {
        Some(start)
    } else {
        find_from(s, pat, start + 1)
    }
}

/// The first index of `c` in `s`.
pub open spec fn first_index_of(s: Seq<char>, c: char) -> Option<int> {
    find_from(s, seq![c], 0)
}

/// The part of `s` before the first `c`, or all of `s` when there is none.
pub open spec fn before_first(s: Seq<char>, c: char) -> Seq<char> {
    match first_index_of(s, c) {
        Some(i) => s.take(i),
        None => s,
    }
}

/// The last index of `c` in `s`.
pub open spec fn last_index_of(s: Seq<char>, c: char) -> Option<int>
    decreases s.len(),
{
    if s.len() == 0 {
        None
    } else if s.last() == c {
        Some(s.len() - 1)
    } else {
        last_index_of(s.drop_last(), c)
    }
}

/// `c` has the Unicode `White_Space` property (the characters that
/// `char::is_whitespace` and `str::trim` treat as white space).
pub open spec fn is_white_space(c: char) -> bool {
    let u = c as u32;
    ||| 0x09 <= u <= 0x0d
    ||| u == 0x20
    ||| u == 0x85
    ||| u == 0xa0
    ||| u == 0x1680
    ||| 0x2000 <= u <= 0x200a
    ||| u == 0x2028
    ||| u == 0x2029
    ||| u == 0x202f
    ||| u == 0x205f
    ||| u == 0x3000
}

/// A class of characters that trimming removes from both ends of a string.
#[derive(Clone, Copy)]
pub enum TrimClass {
    /// Unicode white space, as `str::trim` removes it.
    WhiteSpace,
    /// One given character, as `str::trim_matches(c)` removes it.
    Only(char),
}

impl TrimClass {
    pub open spec fn holds(self, c: char) -> bool {
        match self {
            TrimClass::WhiteSpace => is_white_space(c),
            TrimClass::Only(x) => c == x,
        }
    }
}

/// `s` without its leading characters of class `k`.
pub open spec fn strip_start(s: Seq<char>, k: TrimClass) -> Seq<char>
    decreases s.len(),
{
    if s.len() > 0 && k.holds(s[0]) {
        strip_start(s.drop_first(), k)
    } else {
        s
    }
}

/// `s` without its trailing characters of class `k`.
pub open spec fn strip_end(s: Seq<char>, k: TrimClass) -> Seq<char>
    decreases s.len(),
{
    if s.len() > 0 && k.holds(s.last()) {
        strip_end(s.drop_last(), k)
    } else {
        s
    }
}

/// `s` without the characters of class `k` at either end.
pub open spec fn trim(s: Seq<char>, k: TrimClass) -> Seq<char> {
    strip_end(strip_start(s, k), k)
}

/// `s` with white space removed from both ends, as `str::trim` gives it.
pub open spec fn trim_white_space(s: Seq<char>) -> Seq<char> {
    trim(s, TrimClass::WhiteSpace)
}

/// `s` with every leading and trailing `c` removed, as `str::trim_matches(c)` gives it.
pub open spec fn trim_char(s: Seq<char>, c: char) -> Seq<char> {
    trim(s, TrimClass::Only(c))
}

// ---------------------------------------------------------------------------
// Lemmas
// ---------------------------------------------------------------------------

/// Stripping the leading characters of a class gives nothing exactly when
/// every character belongs to the class.
pub proof fn lemma_strip_start_empty(s: Seq<char>, k: TrimClass)
    ensures
        strip_start(s, k).len() == 0 <==> (forall|i: int| 0 <= i < s.len() ==> k.holds(s[i])),
    decreases s.len(),
{
    if s.len() > 0 && k.holds(s[0]) {
        lemma_strip_start_empty(s.drop_first(), k);
        if strip_start(s, k).len() == 0 {
            assert forall|i: int| 0 <= i < s.len() implies k.holds(s[i]) by {
                if i > 0 {
                    assert(s[i] == s.drop_first()[i - 1]);
                }
            }
        }
        if forall|i: int| 0 <= i < s.len() ==> k.holds(s[i]) {
            assert forall|i: int| 0 <= i < s.drop_first().len() implies k.holds(
                s.drop_first()[i],
            ) by {
                assert(s.drop_first()[i] == s[i + 1]);
            }
        }
    }
}

/// The trim of a sequence is empty exactly when every character belongs to the class.
pub proof fn lemma_trim_empty(s: Seq<char>, k: TrimClass)
    ensures
        trim(s, k).len() == 0 <==> (forall|i: int| 0 <= i < s.len() ==> k.holds(s[i])),
{
    lemma_strip_start_empty(s, k);
    let a = strip_start(s, k);
    if a.len() > 0 {
        // `a` starts with a character outside the class, so `strip_end` keeps it.
        lemma_strip_start_first(s, k);
        lemma_strip_end_keeps_first(a, k);
    }
}

/// After stripping the leading characters, the first one left is outside the class.
pub proof fn lemma_strip_start_first(s: Seq<char>, k: TrimClass)
    ensures
        strip_start(s, k).len() > 0 ==> !k.holds(strip_start(s, k)[0]),
    decreases s.len(),
{
    if s.len() > 0 && k.holds(s[0]) {
        lemma_strip_start_first(s.drop_first(), k);
    }
}

/// `strip_end` keeps a sequence whose first character is outside the class nonempty.
pub proof fn lemma_strip_end_keeps_first(s: Seq<char>, k: TrimClass)
    requires
        s.len() > 0,
        !k.holds(s[0]),
    ensures
        strip_end(s, k).len() > 0,
    decreases s.len(),
{
    if k.holds(s.last()) {
        assert(s.len() > 1);
        assert(s.drop_last()[0] == s[0]);
        lemma_strip_end_keeps_first(s.drop_last(), k);
    }
}

/// Nothing is stripped from a sequence whose first and last characters are
/// outside the class.
pub proof fn lemma_trim_unchanged(s: Seq<char>, k: TrimClass)
    requires
        s.len() > 0,
        !k.holds(s[0]),
        !k.holds(s.last()),
    ensures
        trim(s, k) == s,
{
}

// ---------------------------------------------------------------------------
// Executable functions
// ---------------------------------------------------------------------------

/// Appends one character to a `String` (`String::push`).
#[verifier::external_body]
fn push_char(s: &mut String, c: char)
    ensures
        final(s)@ == old(s)@.push(c),
{
    s.push(c);
}

/// The characters of `s`, in order.
pub fn chars_of(s: &str) -> (v: Vec<char>)
    ensures
        v@ == s@,
{
    let mut v: Vec<char> = Vec::new();
    for c in it: s.chars()
        invariant
            v@ == it.seq().take(it.index() as int),
            it.seq() == s@,
    {
        v.push(c);
    }
    v
}

/// The `String` made of the characters of `v`.
pub fn string_from_chars(v: &Vec<char>) -> (s: String)
    ensures
        s@ == v@,
{
    let mut s = String::new();
    let n = v.len();
    for i in 0..n
        invariant
            n == v@.len(),
            s@ == v@.take(i as int),
    {
        push_char(&mut s, v[i]);
        assert(v@.take(i + 1) =~= v@.take(i as int).push(v@[i as int]));
    }
    assert(v@.take(n as int) =~= v@);
    s
}

/// Appends the characters of `b` to `a`.
pub fn append_chars(a: &mut Vec<char>, b: &Vec<char>)
    ensures
        final(a)@ == old(a)@ + b@,
{
    let n = b.len();
    for i in 0..n
        invariant
            n == b@.len(),
            a@ == old(a)@ + b@.take(i as int),
    {
        a.push(b[i]);
        assert(b@.take(i + 1) =~= b@.take(i as int).push(b@[i as int]));
    }
    assert(b@.take(n as int) =~= b@);
}

/// The characters `v[lo..hi]`.
pub fn slice_chars(v: &Vec<char>, lo: usize, hi: usize) -> (r: Vec<char>)
    requires
        lo <= hi <= v@.len(),
    ensures
        r@ == v@.subrange(lo as int, hi as int),
{
    let mut r: Vec<char> = Vec::new();
    let mut i = lo;
    while i < hi
        invariant
            lo <= i <= hi <= v@.len(),
            r@ == v@.subrange(lo as int, i as int),
        decreases hi - i,
    {
        r.push(v[i]);
        assert(v@.subrange(lo as int, i + 1) =~= v@.subrange(lo as int, i as int).push(
            v@[i as int],
        ));
        i = i + 1;
    }
    r
}

/// Whether the two character sequences are equal.
pub fn same_chars(a: &Vec<char>, b: &Vec<char>) -> (r: bool)
    ensures
        r == (a@ == b@),
{
    if a.len() != b.len() {
        return false;
    }
    let n = a.len();
    for i in 0..n
        invariant
            n == a@.len(),
            n == b@.len(),
            forall|j: int| 0 <= j < i ==> a@[j] == b@[j],
    {
        if a[i] != b[i] {
            return false;
        }
    }
    assert(a@ =~= b@);
    true
}

/// Whether `pat` occurs in `s` at index `i`.
pub fn occurs_at_exec(s: &Vec<char>, pat: &Vec<char>, i: usize) -> (r: bool)
    ensures
        r == occurs_at(s@, pat@, i as int),
{
    if i > s.len() || pat.len() > s.len() - i {
        return false;
    }
    let n = pat.len();
    for j in 0..n
        invariant
            n == pat@.len(),
            i + n <= s.len(),
            forall|k: int| 0 <= k < j ==> s@[i + k] == pat@[k],
    {
        if s[i + j] != pat[j] {
            assert(s@.subrange(i as int, i + n)[j as int] != pat@[j as int]);
            return false;
        }
    }
    assert(s@.subrange(i as int, i + n) =~= pat@);
    true
}

/// The first index at or after `start` where `pat` occurs in `s`.
pub fn find_from_exec(s: &Vec<char>, pat: &Vec<char>, start: usize) -> (r: Option<usize>)
    ensures
        match r {
            Some(k) => find_from(s@, pat@, start as int) == Some(k as int),
            None => find_from(s@, pat@, start as int) is None,
        },
{
    let mut i = start;
    while i <= s.len() && pat.len() <= s.len() - i
        invariant
            start <= i,
            find_from(s@, pat@, start as int) == find_from(s@, pat@, i as int),
        decreases s@.len() + 1 - i,
    {
        proof {
            if pat@.len() == 0 {
                assert(s@.subrange(i as int, i as int) =~= pat@);
            }
        }
        if occurs_at_exec(s, pat, i) {
            return Some(i);
        }
        i = i + 1;
    }
    None
}

/// Whether `pat` occurs anywhere in `s`.
pub fn contains_exec(s: &Vec<char>, pat: &Vec<char>) -> (r: bool)
    ensures
        r == contains(s@, pat@),
{
    let r = find_from_exec(s, pat, 0);
    proof {
        lemma_find_from_contains(s@, pat@, 0);
    }
    r.is_some()
}

/// `find_from` from 0 finds an occurrence exactly when there is one, and it
/// finds an occurrence.
pub proof fn lemma_find_from_contains(s: Seq<char>, pat: Seq<char>, start: int)
    requires
        0 <= start,
    ensures
        find_from(s, pat, start) is Some <==> exists|i: int| start <= i && occurs_at(s, pat, i),
        find_from(s, pat, start) matches Some(i) ==> start <= i && occurs_at(s, pat, i),
    decreases s.len() + 1 - start,
{
    if start + pat.len() > s.len() {
    } else if occurs_at(s, pat, start) {
    } else {
        lemma_find_from_contains(s, pat, start + 1);
        if exists|i: int| start <= i && occurs_at(s, pat, i) {
            let i = choose|i: int| start <= i && occurs_at(s, pat, i);
            assert(start + 1 <= i);
        }
    }
}

/// No occurrence of `pat` lies between `start` and the one that `find_from` gives.
pub proof fn lemma_find_from_first(s: Seq<char>, pat: Seq<char>, start: int)
    requires
        0 <= start,
    ensures
        find_from(s, pat, start) matches Some(i) ==> forall|j: int|
            start <= j < i ==> !occurs_at(s, pat, j),
    decreases s.len() + 1 - start,
{
    if start + pat.len() > s.len() {
    } else if occurs_at(s, pat, start) {
    } else {
        lemma_find_from_first(s, pat, start + 1);
    }
}

/// The part of `s` before the first `c` is a prefix of `s` free of `c`,
/// ended by a `c` or by the end of `s`.
pub proof fn lemma_before_first_piece(s: Seq<char>, c: char)
    ensures
        ({
            let k = before_first(s, c).len() as int;
            &&& k <= s.len()
            &&& before_first(s, c) == s.take(k)
            &&& k == s.len() || s[k] == c
            &&& forall|j: int| 0 <= j < k ==> s[j] != c
        }),
{
    lemma_find_from_contains(s, seq![c], 0);
    lemma_find_from_first(s, seq![c], 0);
    match first_index_of(s, c) {
        Some(i) => {
            assert(s.subrange(i, i + 1) =~= seq![c]);
            assert(s.subrange(i, i + 1)[0] == s[i]);
            assert forall|j: int| 0 <= j < i implies s[j] != c by {
                if s[j] == c {
                    assert(s.subrange(j, j + 1) =~= seq![c]);
                    assert(occurs_at(s, seq![c], j));
                }
            }
        },
        None => {
            assert forall|j: int| 0 <= j < s.len() implies s[j] != c by {
                if s[j] == c {
                    assert(s.subrange(j, j + 1) =~= seq![c]);
                    assert(occurs_at(s, seq![c], j));
                }
            }
            assert(s.take(s.len() as int) =~= s);
        },
    }
}

/// Stripping leading characters of a class drops only characters of that class.
pub proof fn lemma_strip_start_skip(s: Seq<char>, k: TrimClass)
    ensures
        ({
            let p = s.len() - strip_start(s, k).len();
            &&& 0 <= p <= s.len()
            &&& strip_start(s, k) == s.skip(p)
            &&& forall|j: int| 0 <= j < p ==> k.holds(s[j])
        }),
    decreases s.len(),
{
    if s.len() > 0 && k.holds(s[0]) {
        lemma_strip_start_skip(s.drop_first(), k);
        let t = s.drop_first();
        let q = t.len() - strip_start(t, k).len();
        assert(t.skip(q) =~= s.skip(q + 1));
        assert forall|j: int| 0 <= j < q + 1 implies k.holds(s[j]) by {
            if j > 0 {
                assert(s[j] == t[j - 1]);
            }
        }
    } else {
        assert(s.skip(0) =~= s);
    }
}

/// Stripping trailing characters of a class drops only characters of that class.
pub proof fn lemma_strip_end_take(s: Seq<char>, k: TrimClass)
    ensures
        ({
            let q = strip_end(s, k).len() as int;
            &&& 0 <= q <= s.len()
            &&& strip_end(s, k) == s.take(q)
            &&& forall|j: int| q <= j < s.len() ==> k.holds(s[j])
        }),
    decreases s.len(),
{
    if s.len() > 0 && k.holds(s.last()) {
        lemma_strip_end_take(s.drop_last(), k);
        let t = s.drop_last();
        let q = strip_end(t, k).len() as int;
        assert(t.take(q) =~= s.take(q));
        assert forall|j: int| q <= j < s.len() implies k.holds(s[j]) by {
            if j < s.len() - 1 {
                assert(s[j] == t[j]);
            }
        }
    } else {
        assert(s.take(s.len() as int) =~= s);
    }
}

/// Trimming keeps a contiguous part of `s` and drops only characters of the
/// class around it.
pub proof fn lemma_trim_outside(s: Seq<char>, k: TrimClass)
    ensures
        exists|lo: int, hi: int|
            {
                &&& 0 <= lo <= hi <= s.len()
                &&& trim(s, k) == s.subrange(lo, hi)
                &&& forall|j: int| (0 <= j < lo || hi <= j < s.len()) ==> k.holds(#[trigger] s[j])
            },
{
    lemma_strip_start_skip(s, k);
    let a = strip_start(s, k);
    let p = s.len() - a.len();
    lemma_strip_end_take(a, k);
    let q = strip_end(a, k).len() as int;
    assert(trim(s, k) =~= s.subrange(p, p + q));
    assert forall|j: int| (0 <= j < p || p + q <= j < s.len()) implies k.holds(s[j]) by {
        if j >= p + q {
            assert(s[j] == a[j - p]);
        }
    }
}

/// The part of `s` before the first `c`.
pub fn before_first_exec(s: &Vec<char>, c: char) -> (r: Vec<char>)
    ensures
        r@ == before_first(s@, c),
{
    let pat = vec![c];
    assert(pat@ =~= seq![c]);
    match find_from_exec(s, &pat, 0) {
        Some(i) => {
            proof {
                lemma_find_from_contains(s@, seq![c], 0);
            }
            slice_chars(s, 0, i)
        },
        None => slice_chars_all(s),
    }
}

/// A copy of `s`.
pub fn slice_chars_all(s: &Vec<char>) -> (r: Vec<char>)
    ensures
        r@ == s@,
{
    let r = slice_chars(s, 0, s.len());
    assert(s@.subrange(0, s@.len() as int) =~= s@);
    r
}

/// The last index of `c` in `s`.
pub fn last_index_of_exec(s: &Vec<char>, c: char) -> (r: Option<usize>)
    ensures
        match r {
            Some(k) => last_index_of(s@, c) == Some(k as int),
            None => last_index_of(s@, c) is None,
        },
{
    let mut j = s.len();
    assert(s@.take(j as int) =~= s@);
    while j > 0
        invariant
            j <= s@.len(),
            last_index_of(s@, c) == last_index_of(s@.take(j as int), c),
        decreases j,
    {
        assert(s@.take(j as int).drop_last() =~= s@.take(j - 1));
        if s[j - 1] == c {
            return Some(j - 1);
        }
        j = j - 1;
    }
    None
}

/// A last index lies inside the sequence.
pub proof fn lemma_last_index_of_bounds(s: Seq<char>, c: char)
    ensures
        last_index_of(s, c) matches Some(i) ==> 0 <= i < s.len() && s[i] == c,
    decreases s.len(),
{
    if s.len() > 0 && s.last() != c {
        lemma_last_index_of_bounds(s.drop_last(), c);
    }
}

/// Whether `c` has the Unicode `White_Space` property.
pub fn is_white_space_exec(c: char) -> (r: bool)
    ensures
        r == is_white_space(c),
{
    let u = c as u32;
    (0x09 <= u && u <= 0x0d) || u == 0x20 || u == 0x85 || u == 0xa0 || u == 0x1680 || (0x2000
        <= u && u <= 0x200a) || u == 0x2028 || u == 0x2029 || u == 0x202f || u == 0x205f || u
        == 0x3000
}

/// Whether `c` belongs to the trimmed class `k`.
pub fn class_holds(k: TrimClass, c: char) -> (r: bool)
    ensures
        r == k.holds(c),
{
    match k {
        TrimClass::WhiteSpace => is_white_space_exec(c),
        TrimClass::Only(x) => c == x,
    }
}

/// `s` without the characters of class `k` at either end.
pub fn trim_exec(s: &Vec<char>, k: TrimClass) -> (r: Vec<char>)
    ensures
        r@ == trim(s@, k),
{
    let n = s.len();
    let mut lo: usize = 0;
    assert(s@.subrange(0, n as int) =~= s@);
    while lo < n && class_holds(k, s[lo])
        invariant
            n == s@.len(),
            lo <= n,
            strip_start(s@, k) == strip_start(s@.subrange(lo as int, n as int), k),
        decreases n - lo,
    {
        assert(s@.subrange(lo as int, n as int).drop_first() =~= s@.subrange(lo + 1, n as int));
        lo = lo + 1;
    }
    assert(strip_start(s@, k) == s@.subrange(lo as int, n as int));
    let mut hi: usize = n;
    while hi > lo && class_holds(k, s[hi - 1])
        invariant
            n == s@.len(),
            lo <= hi <= n,
            strip_end(s@.subrange(lo as int, n as int), k) == strip_end(
                s@.subrange(lo as int, hi as int),
                k,
            ),
        decreases hi,
    {
        assert(s@.subrange(lo as int, hi as int).drop_last() =~= s@.subrange(
            lo as int,
            hi - 1,
        ));
        hi = hi - 1;
    }
    slice_chars(s, lo, hi)
}

} // verus!
