//! Verified text utilities over character sequences.
//!
//! Grammar composition works on plain text. Every executable routine here
//! is proved equal to a spec-level function over `Seq<char>`, so the
//! composer's contracts can pin its output down to the exact character.

use vstd::prelude::*;

verus! {

/// Whitespace characters recognised when trimming rule text.
pub open spec fn is_ws(c: char) -> bool {
    c == ' ' || c == '\t' || c == '\r' || c == '\n'
}

/// The pattern `pat` occurs in `hay` starting at position `i`.
pub open spec fn match_at(hay: Seq<char>, pat: Seq<char>, i: int) -> bool {
    &&& 0 <= i
    &&& i + pat.len() <= hay.len()
    &&& hay.subrange(i, i + pat.len() as int) == pat
}

/// Position of the first occurrence of `pat` in `hay` at or after `from`.
pub open spec fn find_from(hay: Seq<char>, pat: Seq<char>, from: int) -> Option<int>
    decreases hay.len() - from,
{
    if from < 0 || from + pat.len() > hay.len() {
        None
    } else if pat.len() == 0 {
        Some(from)
    } else if match_at(hay, pat, from) {
        Some(from)
    } else {
        find_from(hay, pat, from + 1)
    }
}

/// `hay` contains `pat` somewhere.
pub open spec fn contains_sub(hay: Seq<char>, pat: Seq<char>) -> bool {
    find_from(hay, pat, 0) is Some
}

pub proof fn lemma_find_from_some(hay: Seq<char>, pat: Seq<char>, from: int)
    requires
        find_from(hay, pat, from) is Some,
    ensures
        ({
            let i = find_from(hay, pat, from)->0;
            &&& from <= i
            &&& match_at(hay, pat, i)
            &&& forall|j: int| from <= j < i ==> !match_at(hay, pat, j)
        }),
    decreases hay.len() - from,
{
    if from < 0 || from + pat.len() > hay.len() {
    } else if pat.len() == 0 {
        assert(hay.subrange(from, from + pat.len() as int) =~= pat);
    } else if match_at(hay, pat, from) {
    } else {
        lemma_find_from_some(hay, pat, from + 1);
    }
}

/// Copies `s[from..to]` into a fresh vector.
pub fn copy_range(s: &Vec<char>, from: usize, to: usize) -> (r: Vec<char>)
    requires
        from <= to <= s@.len(),
    ensures
        r@ == s@.subrange(from as int, to as int),
{
    let mut r: Vec<char> = Vec::new();
    let mut i: usize = from;
    while i < to
        invariant
            from <= i <= to <= s@.len(),
            r@ == s@.subrange(from as int, i as int),
        decreases to - i,
    {
        r.push(s[i]);
        i = i + 1;
        proof {
            assert(r@ =~= s@.subrange(from as int, i as int));
        }
    }
    r
}

/// Appends all of `src` to `dst`.
pub fn append_chars(dst: &mut Vec<char>, src: &Vec<char>)
    ensures
        final(dst)@ == old(dst)@ + src@,
{
    let mut i: usize = 0;
    while i < src.len()
        invariant
            i <= src@.len(),
            dst@ == old(dst)@ + src@.subrange(0, i as int),
        decreases src@.len() - i,
    {
        dst.push(src[i]);
        i = i + 1;
        proof {
            assert(dst@ =~= old(dst)@ + src@.subrange(0, i as int));
        }
    }
    proof {
        assert(dst@ =~= old(dst)@ + src@);
    }
}

/// Whether the two vectors hold the same characters.
pub fn eq_chars(a: &Vec<char>, b: &Vec<char>) -> (r: bool)
    ensures
        r == (a@ == b@),
{
    if a.len() != b.len() {
        proof {
            assert(a@ != b@);
        }
        return false;
    }
    let mut i: usize = 0;
    while i < a.len()
        invariant
            i <= a@.len(),
            a@.len() == b@.len(),
            forall|j: int| 0 <= j < i ==> a@[j] == b@[j],
        decreases a@.len() - i,
    {
        if a[i] != b[i] {
            return false;
        }
        i = i + 1;
    }
    proof {
        assert(a@ =~= b@);
    }
    true
}

/// Whether `pat` occurs in `hay` at position `at`.
pub fn matches_at(hay: &Vec<char>, pat: &Vec<char>, at: usize) -> (r: bool)
    ensures
        r == match_at(hay@, pat@, at as int),
{
    if at > hay.len() || pat.len() > hay.len() - at {
        proof {
            assert(!match_at(hay@, pat@, at as int));
        }
        return false;
    }
    let mut j: usize = 0;
    while j < pat.len()
        invariant
            j <= pat.len(),
            at + pat.len() <= hay.len(),
            forall|k: int| 0 <= k < j ==> hay@[at + k] == pat@[k],
        decreases pat@.len() - j,
    {
        if hay[at + j] != pat[j] {
            proof {
                assert(hay@.subrange(at as int, at + pat@.len() as int)[j as int] == hay@[at + j]);
            }
            return false;
        }
        j = j + 1;
    }
    proof {
        assert(hay@.subrange(at as int, at + pat@.len() as int) =~= pat@);
    }
    true
}

/// Position of the first occurrence of `pat` at or after `from`, if any.
pub fn find_sub_from(hay: &Vec<char>, pat: &Vec<char>, from: usize) -> (r: Option<usize>)
    ensures
        r matches Some(i) ==> find_from(hay@, pat@, from as int) == Some(i as int),
        r is None ==> find_from(hay@, pat@, from as int) is None,
    decreases hay@.len() - from,
{
    if from > hay.len() || pat.len() > hay.len() - from {
        return None;
    }
    if pat.len() == 0 {
        Some(from)
    } else if matches_at(hay, pat, from) {
        Some(from)
    } else {
        find_sub_from(hay, pat, from + 1)
    }
}

/// Position of the first occurrence of `pat` in `hay`, if any.
pub fn find_sub(hay: &Vec<char>, pat: &Vec<char>) -> (r: Option<usize>)
    ensures
        r matches Some(i) ==> find_from(hay@, pat@, 0) == Some(i as int),
        r is None ==> find_from(hay@, pat@, 0) is None,
{
    find_sub_from(hay, pat, 0)
}

/// Whether `hay` contains `pat`.
pub fn contains_chars(hay: &Vec<char>, pat: &Vec<char>) -> (r: bool)
    ensures
        r == contains_sub(hay@, pat@),
{
    find_sub(hay, pat).is_some()
}

/// `s` starts with `pat`.
pub open spec fn starts_with_spec(s: Seq<char>, pat: Seq<char>) -> bool {
    match_at(s, pat, 0)
}

pub fn starts_with(s: &Vec<char>, pat: &Vec<char>) -> (r: bool)
    ensures
        r == starts_with_spec(s@, pat@),
{
    matches_at(s, pat, 0)
}

/// Every character of `s` is whitespace.
pub open spec fn is_blank(s: Seq<char>) -> bool {
    forall|i: int| 0 <= i < s.len() ==> is_ws(s[i])
}

pub fn blank(s: &Vec<char>) -> (r: bool)
    ensures
        r == is_blank(s@),
{
    let mut i: usize = 0;
    while i < s.len()
        invariant
            i <= s@.len(),
            forall|j: int| 0 <= j < i ==> is_ws(s@[j]),
        decreases s@.len() - i,
    {
        let c = s[i];
        if !(c == ' ' || c == '\t' || c == '\r' || c == '\n') {
            return false;
        }
        i = i + 1;
    }
    true
}

/// `s` without leading whitespace.
pub open spec fn trim_start_spec(s: Seq<char>) -> Seq<char>
    decreases s.len(),
{
    if s.len() > 0 && is_ws(s[0]) {
        trim_start_spec(s.drop_first())
    } else {
        s
    }
}

/// `s` without trailing whitespace.
pub open spec fn trim_end_spec(s: Seq<char>) -> Seq<char>
    decreases s.len(),
{
    if s.len() > 0 && is_ws(s.last()) {
        trim_end_spec(s.drop_last())
    } else {
        s
    }
}

/// `s` without leading and trailing whitespace.
pub open spec fn trim_spec(s: Seq<char>) -> Seq<char> {
    trim_end_spec(trim_start_spec(s))
}

fn trim_start(s: &Vec<char>) -> (r: Vec<char>)
    ensures
        r@ == trim_start_spec(s@),
    decreases s@.len(),
{
    if s.len() > 0 {
        let c = s[0];
        if c == ' ' || c == '\t' || c == '\r' || c == '\n' {
            let rest = copy_range(s, 1, s.len());
            proof {
                assert(rest@ =~= s@.drop_first());
            }
            return trim_start(&rest);
        }
    }
    copy_range(s, 0, s.len())
}

fn trim_end(s: &Vec<char>) -> (r: Vec<char>)
    ensures
        r@ == trim_end_spec(s@),
    decreases s@.len(),
{
    if s.len() > 0 {
        let c = s[s.len() - 1];
        if c == ' ' || c == '\t' || c == '\r' || c == '\n' {
            let rest = copy_range(s, 0, s.len() - 1);
            proof {
                assert(rest@ =~= s@.drop_last());
            }
            return trim_end(&rest);
        }
    }
    copy_range(s, 0, s.len())
}

/// Removes leading and trailing whitespace.
pub fn trim_chars(s: &Vec<char>) -> (r: Vec<char>)
    ensures
        r@ == trim_spec(s@),
{
    let t = trim_start(s);
    trim_end(&t)
}

/// The character sequences held by a sequence of vectors.
pub open spec fn views_of(v: Seq<Vec<char>>) -> Seq<Seq<char>> {
    Seq::new(v.len(), |i: int| v[i]@)
}

pub proof fn lemma_views_push(v: Seq<Vec<char>>, x: Vec<char>)
    ensures
        views_of(v.push(x)) == views_of(v) + seq![x@],
{
    assert(views_of(v.push(x)) =~= views_of(v) + seq![x@]);
}

/// The parts of `s` split on every occurrence of `c`; a text of `n`
/// separators yields `n + 1` parts.
pub open spec fn split_char_spec(s: Seq<char>, c: char) -> Seq<Seq<char>>
    decreases s.len(),
    via split_char_spec_dec
{
    match find_from(s, seq![c], 0) {
        None => seq![s],
        Some(i) => seq![s.subrange(0, i)] + split_char_spec(
            s.subrange(i + 1, s.len() as int),
            c,
        ),
    }
}

#[via_fn]
proof fn split_char_spec_dec(s: Seq<char>, c: char) {
    if find_from(s, seq![c], 0) is Some {
        lemma_find_from_some(s, seq![c], 0);
    }
}

pub fn split_char(s: &Vec<char>, c: char) -> (r: Vec<Vec<char>>)
    ensures
        views_of(r@) == split_char_spec(s@, c),
    decreases s@.len(),
{
    let pat: Vec<char> = vec![c];
    proof {
        assert(pat@ =~= seq![c]);
    }
    match find_sub(s, &pat) {
        None => {
            let whole = copy_range(s, 0, s.len());
            proof {
                assert(whole@ =~= s@);
            }
            let r = vec![whole];
            proof {
                assert(views_of(r@) =~= split_char_spec(s@, c));
            }
            r
        },
        Some(i) => {
            proof {
                lemma_find_from_some(s@, pat@, 0);
                assert(i < s.len());
            }
            let head = copy_range(s, 0, i);
            let tail = copy_range(s, i + 1, s.len());
            let rest = split_char(&tail, c);
            let mut r: Vec<Vec<char>> = Vec::new();
            r.push(head);
            proof {
                assert(views_of(r@) =~= seq![s@.subrange(0, i as int)] + views_of(
                    rest@,
                ).subrange(0, 0));
            }
            let mut k: usize = 0;
            while k < rest.len()
                invariant
                    k <= rest.len(),
                    views_of(r@) == seq![s@.subrange(0, i as int)] + views_of(rest@).subrange(
                        0,
                        k as int,
                    ),
                decreases rest@.len() - k,
            {
                let ghost old_r = r@;
                let part = copy_range(&rest[k], 0, rest[k].len());
                proof {
                    assert(part@ =~= rest@[k as int]@);
                }
                r.push(part);
                k = k + 1;
                proof {
                    lemma_views_push(old_r, part);
                    assert(views_of(rest@).subrange(0, k as int) =~= views_of(rest@).subrange(
                        0,
                        k - 1,
                    ) + seq![views_of(rest@)[k - 1]]);
                    assert(views_of(r@) =~= seq![s@.subrange(0, i as int)] + views_of(
                        rest@,
                    ).subrange(0, k as int));
                }
            }
            proof {
                assert(views_of(rest@).subrange(0, rest.len() as int) =~= views_of(rest@));
                assert(views_of(r@) =~= split_char_spec(s@, c));
            }
            r
        },
    }
}

/// The text before the first occurrence of `pat`, or all of `s` when
/// `pat` does not occur.
pub open spec fn before_first_spec(s: Seq<char>, pat: Seq<char>) -> Seq<char> {
    match find_from(s, pat, 0) {
        Some(i) => s.subrange(0, i),
        None => s,
    }
}

pub fn before_first(s: &Vec<char>, pat: &Vec<char>) -> (r: Vec<char>)
    ensures
        r@ == before_first_spec(s@, pat@),
{
    match find_sub(s, pat) {
        Some(i) => {
            proof {
                lemma_find_from_some(s@, pat@, 0);
            }
            copy_range(s, 0, i)
        },
        None => copy_range(s, 0, s.len()),
    }
}

/// The parts joined with `sep` between neighbours.
pub open spec fn join_spec(parts: Seq<Seq<char>>, sep: Seq<char>) -> Seq<char>
    decreases parts.len(),
{
    if parts.len() == 0 {
        Seq::empty()
    } else if parts.len() == 1 {
        parts[0]
    } else {
        parts[0] + sep + join_spec(parts.drop_first(), sep)
    }
}

pub fn join_chars(parts: &Vec<Vec<char>>, sep: &Vec<char>) -> (r: Vec<char>)
    ensures
        r@ == join_spec(views_of(parts@), sep@),
    decreases parts@.len(),
{
    if parts.len() == 0 {
        proof {
            assert(views_of(parts@).len() == 0);
        }
        Vec::new()
    } else if parts.len() == 1 {
        let r = copy_range(&parts[0], 0, parts[0].len());
        proof {
            assert(r@ =~= views_of(parts@)[0]);
        }
        r
    } else {
        let mut rest: Vec<Vec<char>> = Vec::new();
        let mut k: usize = 1;
        while k < parts.len()
            invariant
                1 <= k <= parts.len(),
                views_of(rest@) == views_of(parts@).subrange(1, k as int),
            decreases parts@.len() - k,
        {
            let ghost old_rest = rest@;
            let part = copy_range(&parts[k], 0, parts[k].len());
            proof {
                assert(part@ =~= parts@[k as int]@);
            }
            rest.push(part);
            k = k + 1;
            proof {
                lemma_views_push(old_rest, part);
                assert(views_of(parts@).subrange(1, k as int) =~= views_of(parts@).subrange(
                    1,
                    k - 1,
                ) + seq![views_of(parts@)[k - 1]]);
                assert(views_of(rest@) =~= views_of(parts@).subrange(1, k as int));
            }
        }
        proof {
            assert(views_of(rest@) =~= views_of(parts@).drop_first());
        }
        let joined = join_chars(&rest, sep);
        let mut r = copy_range(&parts[0], 0, parts[0].len());
        append_chars(&mut r, sep);
        append_chars(&mut r, &joined);
        proof {
            assert(r@ =~= join_spec(views_of(parts@), sep@));
        }
        r
    }
}

/// How many times `c` occurs in `s`.
pub open spec fn count_char_spec(s: Seq<char>, c: char) -> nat
    decreases s.len(),
{
    if s.len() == 0 {
        0
    } else {
        count_char_spec(s.drop_last(), c) + if s.last() == c {
            1nat
        } else {
            0nat
        }
    }
}

pub fn count_char(s: &Vec<char>, c: char) -> (r: usize)
    ensures
        r == count_char_spec(s@, c),
{
    let mut n: usize = 0;
    let mut i: usize = 0;
    while i < s.len()
        invariant
            i <= s@.len(),
            n == count_char_spec(s@.subrange(0, i as int), c),
            n <= i,
        decreases s@.len() - i,
    {
        if s[i] == c {
            n = n + 1;
        }
        i = i + 1;
        proof {
            assert(s@.subrange(0, i as int).drop_last() =~= s@.subrange(0, i - 1));
        }
    }
    proof {
        assert(s@.subrange(0, s@.len() as int) =~= s@);
    }
    n
}

/// Relies on `str`'s equality: two string slices are equal exactly when
/// their character sequences are.
#[verifier::external_body]
pub fn str_eq(a: &str, b: &str) -> (r: bool)
    ensures
        r == (a@ == b@),
{
    a == b
}

/// Relies on `String::push`: appends exactly the given character.
#[verifier::external_body]
fn push_char(s: &mut String, c: char)
    ensures
        final(s)@ == old(s)@.push(c),
{
    s.push(c);
}

/// The characters of `s` as a vector.
pub fn chars_of(s: &str) -> (r: Vec<char>)
    ensures
        r@ == s@,
{
    let n = s.unicode_len();
    let mut r: Vec<char> = Vec::new();
    let mut i: usize = 0;
    while i < n
        invariant
            i <= n,
            n == s@.len(),
            r@ == s@.subrange(0, i as int),
        decreases n - i,
    {
        r.push(s.get_char(i));
        i = i + 1;
        proof {
            assert(r@ =~= s@.subrange(0, i as int));
        }
    }
    proof {
        assert(r@ =~= s@);
    }
    r
}

/// The characters of `v` as a string.
pub fn string_of(v: &Vec<char>) -> (r: String)
    ensures
        r@ == v@,
{
    let mut r = String::new();
    let mut i: usize = 0;
    while i < v.len()
        invariant
            i <= v@.len(),
            r@ == v@.subrange(0, i as int),
        decreases v@.len() - i,
    {
        push_char(&mut r, v[i]);
        i = i + 1;
        proof {
            assert(r@ =~= v@.subrange(0, i as int));
        }
    }
    proof {
        assert(r@ =~= v@);
    }
    r
}

} // verus!
