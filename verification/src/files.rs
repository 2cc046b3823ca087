//! Names for downloaded files: cleaning a suggested name, and the sequence of
//! names `name`, `stem (1).ext`, `stem (2).ext`, ... that is tried until one
//! is free in the target folder.
use vstd::prelude::*;

use crate::text::append_chars;
use crate::text::chars_of;
use crate::text::last_index_of;
use crate::text::last_index_of_exec;
use crate::text::lemma_last_index_of_bounds;
use crate::text::lemma_trim_empty;
use crate::text::slice_chars;
use crate::text::slice_chars_all;
use crate::text::string_from_chars;
use crate::text::trim_exec;
use crate::text::trim_white_space;
use crate::text::is_white_space;
use crate::text::TrimClass;

verus! {

// ---------------------------------------------------------------------------
// Specifications
// ---------------------------------------------------------------------------

/// Characters that may not appear in a file name on the supported systems.
pub open spec fn is_forbidden(c: char) -> bool {
    ||| c == '\\'
    ||| c == '/'
    ||| c == ':'
    ||| c == '*'
    ||| c == '?'
    ||| c == '"'
    ||| c == '<'
    ||| c == '>'
    ||| c == '|'
}

/// `s` with every forbidden character left out.
pub open spec fn without_forbidden(s: Seq<char>) -> Seq<char>
    decreases s.len(),
{
    if s.len() == 0 {
        s
    } else if is_forbidden(s.last()) {
        without_forbidden(s.drop_last())
    } else {
        without_forbidden(s.drop_last()).push(s.last())
    }
}

/// The cleaned form of a suggested file name: its forbidden characters left
/// out, and `download` in place of a name that is then blank.
pub open spec fn sanitized(s: Seq<char>) -> Seq<char> {
    let f = without_forbidden(s);
    if trim_white_space(f).len() == 0 {
        "download"@
    } else {
        f
    }
}

/// No character of `s` is forbidden.
pub open spec fn free_of_forbidden(s: Seq<char>) -> bool {
    forall|i: int| 0 <= i < s.len() ==> !is_forbidden(s[i])
}

/// A name without separators that names no file: empty, `.` or `..`.
pub open spec fn names_no_file(name: Seq<char>) -> bool {
    name.len() == 0 || name == seq!['.'] || name == seq!['.', '.']
}

/// The stem and the extension (with its dot, or empty) of a file name
/// without separators, as `Path::file_stem` and `Path::extension` split it;
/// `file` and no extension when the name names no file.
pub open spec fn stem_and_extension(name: Seq<char>) -> (Seq<char>, Seq<char>) {
    if names_no_file(name) {
        ("file"@, Seq::<char>::empty())
    } else {
        match last_index_of(name, '.') {
            Some(i) => if i > 0 {
                (name.take(i), name.skip(i))
            } else {
                (name, Seq::<char>::empty())
            },
            None => (name, Seq::<char>::empty()),
        }
    }
}

/// The character of the decimal digit `d`.
pub open spec fn digit_char(d: int) -> char {
    (48 + d) as char
}

/// The decimal digits of `n`, most significant first, without leading zeros.
pub open spec fn decimal(n: nat) -> Seq<char>
    decreases n,
{
    if n < 10 {
        seq![digit_char(n as int)]
    } else {
        decimal(n / 10).push(digit_char((n % 10) as int))
    }
}

/// The number that a sequence of decimal digits stands for.
pub open spec fn decimal_value(s: Seq<char>) -> int
    decreases s.len(),
{
    if s.len() == 0 {
        0
    } else {
        decimal_value(s.drop_last()) * 10 + (s.last() as int - 48)
    }
}

/// The name tried at attempt `attempt` when saving a file suggested as
/// `file_name`: the cleaned name first, then `stem (attempt)ext`.
pub open spec fn candidate_name(file_name: Seq<char>, attempt: nat) -> Seq<char> {
    let clean = sanitized(file_name);
    if attempt == 0 {
        clean
    } else {
        let (stem, ext) = stem_and_extension(clean);
        stem + seq![' ', '('] + decimal(attempt) + seq![')'] + ext
    }
}

// ---------------------------------------------------------------------------
// Lemmas
// ---------------------------------------------------------------------------

/// Leaving out the forbidden characters leaves none of them.
pub proof fn lemma_without_forbidden_is_free(s: Seq<char>)
    ensures
        free_of_forbidden(without_forbidden(s)),
    decreases s.len(),
{
    if s.len() > 0 {
        lemma_without_forbidden_is_free(s.drop_last());
    }
}

/// A name without forbidden characters is left as it is.
pub proof fn lemma_without_forbidden_keeps_free(s: Seq<char>)
    requires
        free_of_forbidden(s),
    ensures
        without_forbidden(s) == s,
    decreases s.len(),
{
    if s.len() > 0 {
        assert forall|i: int| 0 <= i < s.drop_last().len() implies !is_forbidden(
            s.drop_last()[i],
        ) by {
            assert(s.drop_last()[i] == s[i]);
        }
        lemma_without_forbidden_keeps_free(s.drop_last());
        assert(s.drop_last().push(s.last()) =~= s);
    }
}

proof fn lemma_download_name()
    ensures
        free_of_forbidden("download"@),
        trim_white_space("download"@).len() > 0,
        "download"@.len() == 8,
{
    reveal_strlit("download");
    let d = "download"@;
    assert(!is_white_space(d[0]));
    lemma_trim_empty(d, TrimClass::WhiteSpace);
}

/// The value of the digit of `d` is `d`.
proof fn lemma_digit_value(d: int)
    requires
        0 <= d < 10,
    ensures
        digit_char(d) as int == 48 + d,
        !is_forbidden(digit_char(d)),
{
}

/// The digits of `n` stand for `n`, and there is at least one of them.
pub proof fn lemma_decimal_value(n: nat)
    ensures
        decimal_value(decimal(n)) == n,
        decimal(n).len() >= 1,
        free_of_forbidden(decimal(n)),
    decreases n,
{
    if n < 10 {
        lemma_digit_value(n as int);
        let d = decimal(n);
        assert(d.drop_last() =~= Seq::<char>::empty());
        assert(decimal_value(d.drop_last()) == 0);
        assert(d.last() as int - 48 == n);
    } else {
        lemma_decimal_value(n / 10);
        lemma_digit_value((n % 10) as int);
        let d = decimal(n);
        assert(d.drop_last() =~= decimal(n / 10));
        assert(d.last() == digit_char((n % 10) as int));
        assert(decimal_value(d) == decimal_value(decimal(n / 10)) * 10 + (n % 10));
        assert((n / 10) * 10 + n % 10 == n) by (nonlinear_arith);
        assert forall|i: int| 0 <= i < d.len() implies !is_forbidden(d[i]) by {
            if i < d.len() - 1 {
                assert(d[i] == decimal(n / 10)[i]);
            }
        }
    }
}

/// Different numbers have different digits.
pub proof fn lemma_decimal_injective(a: nat, b: nat)
    requires
        decimal(a) == decimal(b),
    ensures
        a == b,
{
    lemma_decimal_value(a);
    lemma_decimal_value(b);
}

/// The stem and extension of a name either make up the whole name, or the
/// name names no file and the stem is `file`.
pub proof fn lemma_stem_and_extension(name: Seq<char>)
    ensures
        ({
            let (stem, ext) = stem_and_extension(name);
            ||| stem + ext == name
            ||| names_no_file(name) && stem == "file"@ && ext.len() == 0
        }),
{
    if !names_no_file(name) {
        match last_index_of(name, '.') {
            Some(i) => {
                lemma_last_index_of_bounds(name, '.');
                if i > 0 {
                    assert(name.take(i) + name.skip(i) =~= name);
                } else {
                    assert(name + Seq::<char>::empty() =~= name);
                }
            },
            None => {
                assert(name + Seq::<char>::empty() =~= name);
            },
        }
    }
}

// ---------------------------------------------------------------------------
// Executable functions
// ---------------------------------------------------------------------------

/// Whether `c` may not appear in a file name.
pub fn is_forbidden_exec(c: char) -> (r: bool)
    ensures
        r == is_forbidden(c),
{
    c == '\\' || c == '/' || c == ':' || c == '*' || c == '?' || c == '"' || c == '<' || c == '>'
        || c == '|'
}

/// Cleans a suggested file name: leaves out the characters `\ / : * ? " < > |`
/// and, when what is left is empty or white space only, gives `download`.
pub fn sanitize_filename(filename: &str) -> (r: String)
    ensures
        r@ == sanitized(filename@),
{
    let s = chars_of(filename);
    let r = sanitize_chars(&s);
    string_from_chars(&r)
}

/// `sanitize_filename` on a sequence of characters.
fn sanitize_chars(s: &Vec<char>) -> (r: Vec<char>)
    ensures
        r@ == sanitized(s@),
{
    let mut clean: Vec<char> = Vec::new();
    let n = s.len();
    for i in 0..n
        invariant
            n == s@.len(),
            clean@ == without_forbidden(s@.take(i as int)),
    {
        assert(s@.take(i + 1).drop_last() =~= s@.take(i as int));
        if !is_forbidden_exec(s[i]) {
            clean.push(s[i]);
        }
    }
    assert(s@.take(n as int) =~= s@);
    let trimmed = trim_exec(&clean, TrimClass::WhiteSpace);
    if trimmed.len() == 0 {
        chars_of("download")
    } else {
        clean
    }
}

/// The stem and extension of a cleaned file name.
fn stem_and_extension_exec(name: &Vec<char>) -> (r: (Vec<char>, Vec<char>))
    ensures
        (r.0@, r.1@) == stem_and_extension(name@),
{
    let n = name.len();
    if n == 0 || (n == 1 && name[0] == '.') || (n == 2 && name[0] == '.' && name[1] == '.') {
        assert(names_no_file(name@)) by {
            if n == 1 {
                assert(name@ =~= seq!['.']);
            } else if n == 2 {
                assert(name@ =~= seq!['.', '.']);
            }
        }
        return (chars_of("file"), Vec::new());
    }
    assert(!names_no_file(name@)) by {
        if name@ == seq!['.'] {
            assert(name@[0] == '.');
        }
        if name@ == seq!['.', '.'] {
            assert(name@[0] == '.' && name@[1] == '.');
        }
    }
    match last_index_of_exec(name, '.') {
        Some(i) => {
            proof {
                lemma_last_index_of_bounds(name@, '.');
            }
            if i > 0 {
                let stem = slice_chars(name, 0, i);
                let ext = slice_chars(name, i, n);
                assert(stem@ =~= name@.take(i as int));
                assert(ext@ =~= name@.skip(i as int));
                (stem, ext)
            } else {
                (slice_chars_all(name), Vec::new())
            }
        },
        None => (slice_chars_all(name), Vec::new()),
    }
}

/// Appends the decimal digits of `n` to `out`.
fn push_decimal(out: &mut Vec<char>, n: u64)
    ensures
        final(out)@ == old(out)@ + decimal(n as nat),
    decreases n,
{
    if n >= 10 {
        push_decimal(out, n / 10);
    }
    let d = (n % 10) as u8;
    let c = (48u8 + d) as char;
    assert(c == digit_char((n % 10) as int));
    out.push(c);
    proof {
        if n >= 10 {
            assert(old(out)@ + decimal(n as nat) =~= old(out)@ + decimal((n / 10) as nat) + seq![c]);
        } else {
            assert(old(out)@ + decimal(n as nat) =~= old(out)@.push(c));
        }
    }
}

/// The file name tried at attempt `attempt` when saving a file suggested as
/// `file_name`: attempt 0 is the cleaned name, attempt `k` is
/// `stem (k)ext` (so `photo.png` gives `photo (1).png`, `photo (2).png`, ...).
pub fn unique_name_candidate(file_name: &str, attempt: u64) -> (r: String)
    ensures
        r@ == candidate_name(file_name@, attempt as nat),
{
    let clean = sanitize_chars(&chars_of(file_name));
    if attempt == 0 {
        return string_from_chars(&clean);
    }
    let (stem, ext) = stem_and_extension_exec(&clean);
    let mut out = stem;
    out.push(' ');
    out.push('(');
    push_decimal(&mut out, attempt);
    out.push(')');
    append_chars(&mut out, &ext);
    assert(out@ =~= candidate_name(file_name@, attempt as nat));
    string_from_chars(&out)
}

/// What to do after finding out whether a candidate name is taken.
pub enum NameProbe {
    /// The candidate is free: save under this name.
    Resolved(String),
    /// The candidate is taken: probe this next candidate.
    Probe { name: String, attempt: u64 },
}

/// One step of choosing a free name for a download in the target folder.
/// The caller probes `unique_name_candidate(file_name, attempt)` in the
/// folder and passes whether it `exists`: a free candidate is the answer,
/// a taken one leads to the next candidate.
pub fn resolve_unique_path(file_name: &str, attempt: u64, exists: bool) -> (r: NameProbe)
    requires
        exists ==> attempt < u64::MAX,
    ensures
        !exists ==> r is Resolved && r->Resolved_0@ == candidate_name(file_name@, attempt as nat),
        exists ==> r is Probe && r->attempt == attempt + 1 && r->name@ == candidate_name(
            file_name@,
            (attempt + 1) as nat,
        ),
{
    if exists {
        NameProbe::Probe { name: unique_name_candidate(file_name, attempt + 1), attempt: attempt + 1 }
    } else {
        NameProbe::Resolved(unique_name_candidate(file_name, attempt))
    }
}

// ---------------------------------------------------------------------------
// Laws
// ---------------------------------------------------------------------------

/// A cleaned name holds no forbidden character and is not blank.
pub proof fn lemma_sanitized_is_valid(s: Seq<char>)
    ensures
        free_of_forbidden(sanitized(s)),
        trim_white_space(sanitized(s)).len() > 0,
{
    lemma_without_forbidden_is_free(s);
    lemma_download_name();
}

/// Cleaning a cleaned name changes nothing.
pub proof fn lemma_sanitize_idempotent(s: Seq<char>)
    ensures
        sanitized(sanitized(s)) == sanitized(s),
{
    lemma_sanitized_is_valid(s);
    lemma_without_forbidden_keeps_free(sanitized(s));
}

/// Each character left after leaving out the forbidden ones comes from `s`
/// and is not forbidden, and each character of `s` that is not forbidden is left.
proof fn lemma_without_forbidden_members(s: Seq<char>)
    ensures
        forall|j: int|
            0 <= j < without_forbidden(s).len() ==> exists|i: int|
                0 <= i < s.len() && #[trigger] without_forbidden(s)[j] == s[i] && !is_forbidden(
                    s[i],
                ),
        forall|i: int|
            0 <= i < s.len() && !is_forbidden(#[trigger] s[i]) ==> exists|j: int|
                0 <= j < without_forbidden(s).len() && without_forbidden(s)[j] == s[i],
    decreases s.len(),
{
    if s.len() > 0 {
        let t = s.drop_last();
        lemma_without_forbidden_members(t);
        let w = without_forbidden(s);
        let wt = without_forbidden(t);
        assert forall|j: int| 0 <= j < w.len() implies exists|i: int|
            0 <= i < s.len() && #[trigger] w[j] == s[i] && !is_forbidden(s[i]) by {
            if j < wt.len() {
                assert(w[j] == wt[j]);
                let i = choose|i: int| 0 <= i < t.len() && wt[j] == t[i] && !is_forbidden(t[i]);
                assert(s[i] == t[i]);
            } else {
                assert(w[j] == s[s.len() - 1]);
            }
        }
        assert forall|i: int| 0 <= i < s.len() && !is_forbidden(#[trigger] s[i]) implies exists|
            j: int,
        | 0 <= j < w.len() && w[j] == s[i] by {
            if i < s.len() - 1 {
                assert(s[i] == t[i]);
                let j = choose|j: int| 0 <= j < wt.len() && wt[j] == t[i];
                assert(w[j] == wt[j]);
            } else {
                assert(w[w.len() - 1] == s[i]);
            }
        }
    }
}

/// Leaving out the forbidden characters is filtering by them.
proof fn lemma_without_forbidden_is_filter(s: Seq<char>, keep: spec_fn(char) -> bool)
    requires
        forall|c: char| #[trigger] keep(c) == !is_forbidden(c),
    ensures
        without_forbidden(s) == s.filter(keep),
    decreases s.len(),
{
    reveal_with_fuel(Seq::<char>::filter, 1);
    if s.len() > 0 {
        lemma_without_forbidden_is_filter(s.drop_last(), keep);
    }
}

/// Cleaning removes exactly the nine characters `\ / : * ? " < > |` and
/// keeps every other character, in order, whenever that leaves something
/// that is not white space; a name made only of those nine characters and
/// white space becomes `download`.
pub proof fn lemma_sanitize_removes_exactly_nine(s: Seq<char>)
    ensures
        (exists|i: int|
            0 <= i < s.len() && !is_white_space(#[trigger] s[i]) && s[i] != '\\' && s[i] != '/'
                && s[i] != ':' && s[i] != '*' && s[i] != '?' && s[i] != '"' && s[i] != '<' && s[i]
                != '>' && s[i] != '|') ==> sanitized(s) == s.filter(
            |c: char|
                c != '\\' && c != '/' && c != ':' && c != '*' && c != '?' && c != '"' && c != '<'
                    && c != '>' && c != '|',
        ),
        (forall|i: int|
            0 <= i < s.len() ==> is_white_space(#[trigger] s[i]) || s[i] == '\\' || s[i] == '/'
                || s[i] == ':' || s[i] == '*' || s[i] == '?' || s[i] == '"' || s[i] == '<' || s[i]
                == '>' || s[i] == '|') ==> sanitized(s) == "download"@,
{
    let keep = |c: char|
        c != '\\' && c != '/' && c != ':' && c != '*' && c != '?' && c != '"' && c != '<' && c
            != '>' && c != '|';
    lemma_without_forbidden_is_filter(s, keep);
    lemma_without_forbidden_members(s);
    let w = without_forbidden(s);
    lemma_trim_empty(w, TrimClass::WhiteSpace);
    if exists|i: int|
        0 <= i < s.len() && !is_white_space(#[trigger] s[i]) && s[i] != '\\' && s[i] != '/'
            && s[i] != ':' && s[i] != '*' && s[i] != '?' && s[i] != '"' && s[i] != '<' && s[i]
            != '>' && s[i] != '|' {
        let i = choose|i: int|
            0 <= i < s.len() && !is_white_space(#[trigger] s[i]) && s[i] != '\\' && s[i] != '/'
                && s[i] != ':' && s[i] != '*' && s[i] != '?' && s[i] != '"' && s[i] != '<' && s[i]
                != '>' && s[i] != '|';
        assert(!is_forbidden(s[i]));
        let j = choose|j: int| 0 <= j < w.len() && w[j] == s[i];
        assert(!is_white_space(w[j]));
    }
    if forall|i: int|
        0 <= i < s.len() ==> is_white_space(#[trigger] s[i]) || s[i] == '\\' || s[i] == '/'
            || s[i] == ':' || s[i] == '*' || s[i] == '?' || s[i] == '"' || s[i] == '<' || s[i]
            == '>' || s[i] == '|' {
        assert forall|j: int| 0 <= j < w.len() implies is_white_space(w[j]) by {
            let i = choose|i: int| 0 <= i < s.len() && #[trigger] w[j] == s[i] && !is_forbidden(
                s[i],
            );
        }
    }
}

/// The first candidate is the cleaned name itself.
pub proof fn lemma_first_candidate(file_name: Seq<char>)
    ensures
        candidate_name(file_name, 0) == sanitized(file_name),
{
}

/// No candidate name holds a forbidden character.
pub proof fn lemma_candidate_is_free(file_name: Seq<char>, attempt: nat)
    ensures
        free_of_forbidden(candidate_name(file_name, attempt)),
{
    let clean = sanitized(file_name);
    lemma_sanitized_is_valid(file_name);
    if attempt > 0 {
        let (stem, ext) = stem_and_extension(clean);
        lemma_stem_and_extension(clean);
        lemma_decimal_value(attempt);
        reveal_strlit("file");
        let d = decimal(attempt);
        let c = candidate_name(file_name, attempt);
        assert(free_of_forbidden(stem) && free_of_forbidden(ext)) by {
            if stem + ext == clean {
                assert forall|i: int| 0 <= i < stem.len() implies !is_forbidden(stem[i]) by {
                    assert(stem[i] == (stem + ext)[i]);
                }
                assert forall|i: int| 0 <= i < ext.len() implies !is_forbidden(ext[i]) by {
                    assert(ext[i] == (stem + ext)[stem.len() + i]);
                }
            }
        }
        assert forall|i: int| 0 <= i < c.len() implies !is_forbidden(c[i]) by {
            let a = stem.len();
            let b = a + 2;
            let e = b + d.len();
            if i < a {
                assert(c[i] == stem[i]);
            } else if i < b {
            } else if i < e {
                assert(c[i] == d[i - b]);
            } else if i == e {
            } else {
                assert(c[i] == ext[i - e - 1]);
            }
        }
    }
}

/// Different attempts try different names, so every probe looks at a new name.
pub proof fn lemma_candidates_distinct(file_name: Seq<char>, i: nat, j: nat)
    requires
        i != j,
    ensures
        candidate_name(file_name, i) != candidate_name(file_name, j),
{
    if i > 0 && j > 0 {
        lemma_numbered_candidates_distinct(file_name, i, j);
    } else if i == 0 {
        lemma_numbered_candidate_longer(file_name, j);
    } else {
        lemma_numbered_candidate_longer(file_name, i);
    }
}

proof fn lemma_numbered_candidate_longer(file_name: Seq<char>, k: nat)
    requires
        k > 0,
    ensures
        candidate_name(file_name, k).len() > candidate_name(file_name, 0).len(),
{
    let clean = sanitized(file_name);
    lemma_stem_and_extension(clean);
    lemma_decimal_value(k);
    reveal_strlit("file");
}

proof fn lemma_numbered_candidates_distinct(file_name: Seq<char>, i: nat, j: nat)
    requires
        i > 0,
        j > 0,
        i != j,
    ensures
        candidate_name(file_name, i) != candidate_name(file_name, j),
{
    let clean = sanitized(file_name);
    let (stem, ext) = stem_and_extension(clean);
    let ci = candidate_name(file_name, i);
    let cj = candidate_name(file_name, j);
    let di = decimal(i);
    let dj = decimal(j);
    assert(ci == stem + seq![' ', '('] + di + seq![')'] + ext);
    assert(cj == stem + seq![' ', '('] + dj + seq![')'] + ext);
    assert(ci.len() == stem.len() + 3 + di.len() + ext.len());
    assert(cj.len() == stem.len() + 3 + dj.len() + ext.len());
    if ci == cj && di.len() == dj.len() {
        let b: int = stem.len() + 2int;
        assert(ci.subrange(b, b + di.len() as int) =~= di);
        assert(cj.subrange(b, b + dj.len() as int) =~= dj);
        lemma_decimal_injective(i, j);
    }
}

} // verus!
